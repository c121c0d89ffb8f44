use ferrite_blocks::aprs::{parse_aprs, position_body, split_tnc2, AprsPosition, AprsSpot};

#[test]
fn splits_tnc2_header() {
    let (src, path, info) =
        split_tnc2("APRS: KK6ABC-9>APRS,WIDE1-1,WIDE2-1:!3745.60N/12225.10W>hi").unwrap();
    assert_eq!(src, "KK6ABC-9");
    assert_eq!(path, "WIDE1-1,WIDE2-1");
    assert_eq!(info, "!3745.60N/12225.10W>hi");
    assert!(split_tnc2("AFSK1200: fm ... raw ax25").is_none());
}

#[test]
fn split_tnc2_edge_cases() {
    // No digipeaters: empty path; source is trimmed.
    assert_eq!(split_tnc2("APRS:  N0CALL >APRS:>hello"), Some(("N0CALL", "", ">hello")));
    // The info field may itself hold colons.
    assert_eq!(
        split_tnc2("APRS: A>B,C::WU2Z     :hi"),
        Some(("A", "C", ":WU2Z     :hi"))
    );
    // Missing `:` or `>`.
    assert_eq!(split_tnc2("APRS: A>B,C"), None);
    assert_eq!(split_tnc2("APRS: AB:info"), None);
    assert_eq!(split_tnc2("APRS:"), None);
    assert_eq!(split_tnc2(""), None);
    // Non-ASCII callsign text survives the byte-level split.
    assert_eq!(split_tnc2("APRS: é>X:i"), Some(("é", "", "i")));
}

#[test]
fn uncompressed_position() {
    let info = "!3745.60N/12225.10W>on the road";
    assert_eq!(position_body(info), Some("3745.60N/12225.10W>on the road"));
    let p = parse_aprs(info, true);
    assert_eq!(p.kind, "position");
    assert_eq!(p.pos, Some(AprsPosition::Uncompressed));
    assert_eq!(p.text, "on the road");
}

#[test]
fn uncompressed_position_that_does_not_read_falls_back_to_compressed() {
    // Bytes 1..9 of the body are then tried as base-91 coordinates.
    let p = parse_aprs("!3745.60N/12225.10W>on the road", false);
    assert_eq!(p.kind, "position");
    let v = |s: &[u8]| s.iter().fold(0u32, |a, &c| a * 91 + u32::from(c - 33));
    assert_eq!(
        p.pos,
        Some(AprsPosition::Compressed { lat: v(b"745."), lon: v(b"60N/") })
    );
    assert_eq!(p.text, "5.10W>on the road");
    // A body too short for either form keeps its text.
    let q = parse_aprs("!short", true);
    assert_eq!(q.pos, None);
    assert_eq!(q.text, "short");
}

#[test]
fn timestamped_position_south_west() {
    let info = "@092345z3358.00S/15112.00W-comment";
    assert_eq!(position_body(info), Some("3358.00S/15112.00W-comment"));
    let p = parse_aprs(info, true);
    assert_eq!(p.kind, "position");
    assert_eq!(p.pos, Some(AprsPosition::Uncompressed));
    assert_eq!(p.text, "comment");
}

#[test]
fn compressed_position_decodes_base91() {
    // `/` table, lat `5L!!`, lon `<*e7`, code `>`, cs ` sT`.
    let p = parse_aprs("!/5L!!<*e7> sTcomment", false);
    assert_eq!(p.kind, "position");
    let lat = (((i64::from(b'5') - 33) * 91 + (i64::from(b'L') - 33)) * 91) * 91;
    let lon = ((((i64::from(b'<') - 33) * 91 + (i64::from(b'*') - 33)) * 91
        + (i64::from(b'e') - 33))
        * 91)
        + (i64::from(b'7') - 33);
    assert_eq!(
        p.pos,
        Some(AprsPosition::Compressed { lat: lat as u32, lon: lon as u32 })
    );
    assert_eq!(p.text, "comment");
}

#[test]
fn compressed_out_of_range_is_not_a_position() {
    // `{{{{` decodes beyond 180 degrees of latitude.
    let p = parse_aprs("!/{{{{!!!!> sT", false);
    assert_eq!(p.pos, None);
    assert_eq!(p.text, "/{{{{!!!!> sT");
}

#[test]
fn status_and_message() {
    let s = parse_aprs(">Net tonight 8pm", false);
    assert_eq!(s.kind, "status");
    assert_eq!(s.text, "Net tonight 8pm");
    let m = parse_aprs(":WU2Z     :Testing{003", false);
    assert_eq!(m.kind, "message");
    assert_eq!(m.name, Some("WU2Z"));
    assert_eq!(m.text, "Testing{003");
}

#[test]
fn mic_e_flagged_not_mapped() {
    let p = parse_aprs("`(_fn\"Oj/", true);
    assert_eq!(p.kind, "mic-e");
    assert!(p.pos.is_none());
    assert_eq!(position_body("`(_fn\"Oj/"), None);
}

#[test]
fn object_and_item() {
    let o = parse_aprs(";LEADER   *092345z4903.50N/07201.75W>", true);
    assert_eq!(o.kind, "object");
    assert_eq!(o.name, Some("LEADER"));
    assert_eq!(o.pos, Some(AprsPosition::Uncompressed));
    assert_eq!(o.text, "");
    let i = parse_aprs(")AID #2!4903.50N/07201.75WA", true);
    assert_eq!(i.kind, "item");
    assert_eq!(i.name, Some("AID #2"));
    assert_eq!(i.pos, Some(AprsPosition::Uncompressed));
    let bare = parse_aprs(")NOFLAG", true);
    assert_eq!(bare.kind, "item");
    assert_eq!(bare.name, None);
    assert_eq!(bare.text, "NOFLAG");
}

#[test]
fn unknown_and_empty_are_other() {
    let p = parse_aprs("T#005,199,000", false);
    assert_eq!(p.kind, "other");
    assert_eq!(p.text, "T#005,199,000");
    let e = parse_aprs("", false);
    assert_eq!(e.kind, "other");
    assert_eq!(e.text, "");
}

#[test]
fn serializes_contract_json() {
    let mut out = Vec::new();
    AprsSpot {
        call: "KK6ABC-9",
        path: "WIDE1-1",
        kind: "position",
        pos: Some(("37.76000", "-122.41800")),
        name: None,
        text: "hiking",
        raw: "!3745.60N/12225.10W>hiking",
    }
    .write_json(&mut out);
    let s = String::from_utf8(out).unwrap();
    assert!(s.starts_with(r#"{"call":"KK6ABC-9","kind":"position""#));
    assert!(s.contains(r#""lat":37.76000,"lon":-122.41800"#), "got {s}");
    assert!(s.ends_with("}\n"));
}

#[test]
fn serializes_exact_record_and_escapes() {
    let mut out = b"x".to_vec();
    AprsSpot {
        call: "N0\"C",
        path: "",
        kind: "message",
        pos: None,
        name: Some("WU2Z"),
        text: "",
        raw: "a\\b\tc",
    }
    .write_json(&mut out);
    assert_eq!(
        String::from_utf8(out).unwrap(),
        "x{\"call\":\"N0\\\"C\",\"kind\":\"message\",\"name\":\"WU2Z\",\"raw\":\"a\\\\b c\"}\n"
    );
}

#[test]
fn verdict_is_ignored_where_the_body_is_not_uncompressed() {
    for info in [">status", ":WU2Z     :hi", "!short", "T#005", "`(_fn\"Oj/", "!/5L!!<*e7> sT"] {
        let a = parse_aprs(info, true);
        let b = parse_aprs(info, false);
        assert_eq!((a.kind, a.pos, a.name, a.text), (b.kind, b.pos, b.name, b.text), "{info}");
    }
}

#[test]
fn multi_byte_first_character_is_other_with_whole_field() {
    let p = parse_aprs("é!3745.60N", true);
    assert_eq!(p.kind, "other");
    assert_eq!(p.pos, None);
    assert_eq!(p.name, None);
    assert_eq!(p.text, "é!3745.60N");
    assert_eq!(position_body("é!3745.60N"), None);
}
