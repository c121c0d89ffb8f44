use ferrite_blocks::spots::{AircraftSpot, DigitalSpot};

#[test]
fn ft8_directed_with_grid() {
    let mut out = Vec::new();
    let dt = format!("{:.1}", 0.2f32);
    let freq = format!("{:.0}", 1074.0f32);
    DigitalSpot {
        mode: "ft8",
        utc: 1_747_400_000,
        de: "K1ABC",
        dx: Some("W9XYZ"),
        grid: Some("FN42"),
        snr: (-15.0f32).round() as i32,
        dt: &dt,
        freq: &freq,
        msg: "W9XYZ K1ABC FN42",
        pwr_dbm: None,
        drift_hz: None,
    }
    .write_json(&mut out);
    assert_eq!(
        String::from_utf8(out).unwrap(),
        "{\"t\":\"ft8\",\"utc\":1747400000,\"de\":\"K1ABC\",\"dx\":\"W9XYZ\",\
         \"grid\":\"FN42\",\"snr\":-15,\"dt\":0.2,\"freq\":1074,\
         \"msg\":\"W9XYZ K1ABC FN42\"}\n"
    );
}

#[test]
fn wspr_beacon_omits_dx_includes_power() {
    let mut out = Vec::new();
    let dt = format!("{:.1}", 0.5f32);
    let freq = format!("{:.0}", 1493.0f32);
    DigitalSpot {
        mode: "wspr",
        utc: 1_747_400_040,
        de: "K1ABC",
        dx: None,
        grid: Some("FN42"),
        snr: (-22.4f32).round() as i32,
        dt: &dt,
        freq: &freq,
        msg: "K1ABC FN42 37",
        pwr_dbm: Some(37),
        drift_hz: Some(0),
    }
    .write_json(&mut out);
    let s = String::from_utf8(out).unwrap();
    assert!(!s.contains("\"dx\""));
    assert!(s.contains("\"pwr\":37"));
    assert!(s.contains("\"snr\":-22"));
    assert!(s.ends_with("}\n"));
    assert_eq!(
        s,
        "{\"t\":\"wspr\",\"utc\":1747400040,\"de\":\"K1ABC\",\"grid\":\"FN42\",\
         \"snr\":-22,\"dt\":0.5,\"freq\":1493,\"pwr\":37,\"drift\":0,\
         \"msg\":\"K1ABC FN42 37\"}\n"
    );
}

#[test]
fn digital_spot_extreme_integers() {
    let mut out = Vec::new();
    DigitalSpot {
        mode: "ft4",
        utc: u64::MAX,
        de: "A\u{7f}B",
        dx: None,
        grid: None,
        snr: i32::MIN,
        dt: "-0.1",
        freq: "0",
        msg: "",
        pwr_dbm: None,
        drift_hz: Some(-3),
    }
    .write_json(&mut out);
    assert_eq!(
        String::from_utf8(out).unwrap(),
        "{\"t\":\"ft4\",\"utc\":18446744073709551615,\"de\":\"A B\",\
         \"snr\":-2147483648,\"dt\":-0.1,\"freq\":0,\"drift\":-3,\"msg\":\"\"}\n"
    );
}

#[test]
fn positioned_aircraft_with_flight() {
    let mut out = Vec::new();
    let lat = format!("{:.5}", 53.34812f64);
    let lon = format!("{:.5}", -6.24921f64);
    AircraftSpot {
        icao: 0x4C_A1FA,
        flight: "RYR1234 ",
        pos: Some((&lat, &lon)),
        alt_ft: 37_000,
        gs_kt: 420,
        trk_deg: 95,
        msgs: 312,
        age_s: 3,
    }
    .write_json(&mut out);
    assert_eq!(
        String::from_utf8(out).unwrap(),
        "{\"icao\":\"4CA1FA\",\"flight\":\"RYR1234\",\"lat\":53.34812,\
         \"lon\":-6.24921,\"alt\":37000,\"gs\":420,\"trk\":95,\
         \"msgs\":312,\"age\":3}\n"
    );
}

#[test]
fn heard_but_not_yet_placed_omits_pos_and_flight() {
    let mut out = Vec::new();
    AircraftSpot {
        icao: 0xAB_CDEF,
        flight: "",
        pos: None,
        alt_ft: 0,
        gs_kt: 0,
        trk_deg: 0,
        msgs: 1,
        age_s: 0,
    }
    .write_json(&mut out);
    let s = String::from_utf8(out).unwrap();
    assert_eq!(
        s,
        "{\"icao\":\"ABCDEF\",\"alt\":0,\"gs\":0,\"trk\":0,\"msgs\":1,\"age\":0}\n"
    );
    assert!(!s.contains("flight"));
    assert!(!s.contains("lat"));
}

#[test]
fn icao_is_zero_padded_and_widens() {
    for (icao, want) in [(0u32, "000000"), (0xA, "00000A"), (0x1234567, "1234567"), (u32::MAX, "FFFFFFFF")] {
        let mut out = Vec::new();
        AircraftSpot {
            icao,
            flight: "   ",
            pos: None,
            alt_ft: -50,
            gs_kt: 0,
            trk_deg: 359,
            msgs: i64::MIN,
            age_s: 0,
        }
        .write_json(&mut out);
        let s = String::from_utf8(out).unwrap();
        assert_eq!(
            s,
            format!(
                "{{\"icao\":\"{want}\",\"alt\":-50,\"gs\":0,\"trk\":359,\"msgs\":-9223372036854775808,\"age\":0}}\n"
            )
        );
    }
}
