use ferrite_blocks::text::{
    is_whitespace, itoa_i64_into, itoa_u64_into, push_upper_hex, split_whitespace, trim, write_str,
};

#[test]
fn escaped_bytes_are_json_safe() {
    let all: Vec<u8> = (0..=255u8).collect();
    let s = String::from_utf8_lossy(&all).into_owned();
    let mut out = Vec::new();
    write_str(&mut out, &s);
    for (i, &b) in out.iter().enumerate() {
        assert!((0x20..=0x7E).contains(&b));
        if b == b'"' {
            assert_eq!(out[i - 1], b'\\');
        }
    }
    let mut q = Vec::new();
    write_str(&mut q, "a\"b\\c\nd");
    assert_eq!(q, b"a\\\"b\\\\c d".to_vec());
}

#[test]
fn decimal_rendering() {
    let mut out = Vec::new();
    itoa_u64_into(0, &mut out);
    out.push(b' ');
    itoa_u64_into(1_747_400_000, &mut out);
    out.push(b' ');
    itoa_u64_into(u64::MAX, &mut out);
    out.push(b' ');
    itoa_i64_into(-15, &mut out);
    out.push(b' ');
    itoa_i64_into(i64::MIN, &mut out);
    out.push(b' ');
    itoa_i64_into(i64::MAX, &mut out);
    assert_eq!(
        String::from_utf8(out).unwrap(),
        "0 1747400000 18446744073709551615 -15 -9223372036854775808 9223372036854775807"
    );
}

#[test]
fn hex_rendering_pads_to_width() {
    let mut out = Vec::new();
    push_upper_hex(0x4C_A1FA, 6, &mut out);
    out.push(b' ');
    push_upper_hex(0, 6, &mut out);
    out.push(b' ');
    push_upper_hex(0xABC, 0, &mut out);
    out.push(b' ');
    push_upper_hex(u64::MAX, 6, &mut out);
    assert_eq!(String::from_utf8(out).unwrap(), "4CA1FA 000000 ABC FFFFFFFFFFFFFFFF");
}

#[test]
fn unicode_whitespace_trim_and_split() {
    assert!(is_whitespace(' ') && is_whitespace('\u{3000}') && is_whitespace('\u{85}'));
    assert!(!is_whitespace('x') && !is_whitespace('\u{200B}'));
    assert_eq!(trim("  \u{3000}RYR1234 \t"), "RYR1234");
    assert_eq!(trim(" \n "), "");
    assert_eq!(split_whitespace("  CQ  DX\tK1ABC\u{3000}FN42 "), vec!["CQ", "DX", "K1ABC", "FN42"]);
    assert!(split_whitespace("   ").is_empty());
}
