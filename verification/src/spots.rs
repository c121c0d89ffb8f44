//! Wire records of the weak-signal and ADS-B advanced views: one
//! newline-terminated JSON object per spot on an `events` port. Optional
//! members are left out when absent, so consumers read missing as null.
//! Real-valued measurements arrive already rendered as decimal text.
use vstd::prelude::*;
use vstd::string::StringSliceAdditionalSpecFns;
use vstd::utf8::encode_utf8;
use crate::text::{
    escape_bytes, itoa_i64_into, itoa_u64_into, push_str, push_upper_hex, signed_decimal,
    str_member, trim, trim_spec, upper_hex, write_member, write_str, zero_padded,
};
use crate::text::decimal;

verus! {

/// One decoded FT8/FT4/WSPR message.
pub struct DigitalSpot<'a> {
    /// Mode tag: `ft8`, `ft4` or `wspr`.
    pub mode: &'a str,
    /// Slot start, seconds since the Unix epoch.
    pub utc: u64,
    /// Transmitting station.
    pub de: &'a str,
    /// Addressed station; `None` for CQ calls and beacons.
    pub dx: Option<&'a str>,
    /// Maidenhead locator of `de`, when the message carried one.
    pub grid: Option<&'a str>,
    /// SNR estimate, dB, rounded to the nearest integer.
    pub snr: i32,
    /// Time offset of the decode in the slot, seconds, rendered with one
    /// decimal.
    pub dt: &'a str,
    /// Audio frequency offset, Hz, rendered without decimals.
    pub freq: &'a str,
    /// Raw decoded message text.
    pub msg: &'a str,
    /// Reported power, dBm (WSPR).
    pub pwr_dbm: Option<i32>,
    /// Carrier drift, Hz (WSPR).
    pub drift_hz: Option<i32>,
}

/// `mode`, `utc`, `de` and the optional `dx` and `grid` of a spot.
pub open spec fn digital_head(s: DigitalSpot) -> Seq<u8> {
    "{\"t\":\"".spec_bytes() + escape_bytes(s.mode.spec_bytes()) + "\",\"utc\":".spec_bytes()
        + decimal(s.utc as nat) + str_member(",\"de\":\"", s.de.spec_bytes()) + (match s.dx {
        Some(dx) => str_member(",\"dx\":\"", dx.spec_bytes()),
        None => Seq::empty(),
    }) + (match s.grid {
        Some(g) => str_member(",\"grid\":\"", g.spec_bytes()),
        None => Seq::empty(),
    })
}

/// `snr`, `dt`, `freq` and the optional `pwr` and `drift` of a spot.
pub open spec fn digital_measures(s: DigitalSpot) -> Seq<u8> {
    ",\"snr\":".spec_bytes() + signed_decimal(s.snr as int) + ",\"dt\":".spec_bytes()
        + s.dt.spec_bytes() + ",\"freq\":".spec_bytes() + s.freq.spec_bytes() + (match s.pwr_dbm {
        Some(p) => ",\"pwr\":".spec_bytes() + signed_decimal(p as int),
        None => Seq::empty(),
    }) + (match s.drift_hz {
        Some(d) => ",\"drift\":".spec_bytes() + signed_decimal(d as int),
        None => Seq::empty(),
    })
}

/// The JSON object of a spot and its newline.
pub open spec fn digital_json(s: DigitalSpot) -> Seq<u8> {
    digital_head(s) + digital_measures(s) + str_member(",\"msg\":\"", s.msg.spec_bytes())
        + "}\n".spec_bytes()
}

impl<'a> DigitalSpot<'a> {
    fn write_head(&self, out: &mut Vec<u8>)
        ensures
            final(out)@ == old(out)@ + digital_head(*self),
    {
        let ghost o = out@;
        push_str(out, "{\"t\":\"");
        write_str(out, self.mode);
        push_str(out, "\",\"utc\":");
        itoa_u64_into(self.utc, out);
        write_member(out, ",\"de\":\"", self.de);
        let ghost o1 = out@;
        if let Some(dx) = self.dx {
            write_member(out, ",\"dx\":\"", dx);
        }
        let ghost o2 = out@;
        if let Some(g) = self.grid {
            write_member(out, ",\"grid\":\"", g);
        }
        proof {
            assert(o2 =~= o1 + match self.dx {
                Some(dx) => str_member(",\"dx\":\"", dx.spec_bytes()),
                None => Seq::empty(),
            });
            assert(out@ =~= o2 + match self.grid {
                Some(g) => str_member(",\"grid\":\"", g.spec_bytes()),
                None => Seq::empty(),
            });
            assert(out@ =~= o + digital_head(*self));
        }
    }

    fn write_measures(&self, out: &mut Vec<u8>)
        ensures
            final(out)@ == old(out)@ + digital_measures(*self),
    {
        let ghost o = out@;
        push_str(out, ",\"snr\":");
        itoa_i64_into(self.snr as i64, out);
        push_str(out, ",\"dt\":");
        push_str(out, self.dt);
        push_str(out, ",\"freq\":");
        push_str(out, self.freq);
        let ghost o1 = out@;
        if let Some(p) = self.pwr_dbm {
            push_str(out, ",\"pwr\":");
            itoa_i64_into(p as i64, out);
        }
        let ghost o2 = out@;
        if let Some(d) = self.drift_hz {
            push_str(out, ",\"drift\":");
            itoa_i64_into(d as i64, out);
        }
        proof {
            assert(o2 =~= o1 + match self.pwr_dbm {
                Some(p) => ",\"pwr\":".spec_bytes() + signed_decimal(p as int),
                None => Seq::empty(),
            });
            assert(out@ =~= o2 + match self.drift_hz {
                Some(d) => ",\"drift\":".spec_bytes() + signed_decimal(d as int),
                None => Seq::empty(),
            });
            assert(out@ =~= o + digital_measures(*self));
        }
    }

    /// Append the spot's JSON object and a newline to `out`. Strings are
    /// escaped to printable ASCII.
    pub fn write_json(&self, out: &mut Vec<u8>)
        ensures
            final(out)@ == old(out)@ + digital_json(*self),
    {
        let ghost o = out@;
        self.write_head(out);
        self.write_measures(out);
        write_member(out, ",\"msg\":\"", self.msg);
        push_str(out, "}\n");
        assert(out@ =~= o + digital_json(*self));
    }
}

/// One tracked aircraft.
pub struct AircraftSpot<'a> {
    /// ICAO 24-bit address.
    pub icao: u32,
    /// Callsign / flight number; empty until identified.
    pub flight: &'a str,
    /// Latitude and longitude, rendered as decimal text (five decimals),
    /// once the position is decoded.
    pub pos: Option<(&'a str, &'a str)>,
    /// Barometric altitude, feet.
    pub alt_ft: i32,
    /// Ground speed, knots.
    pub gs_kt: i32,
    /// Track, degrees.
    pub trk_deg: i32,
    /// Mode-S messages heard from this aircraft.
    pub msgs: i64,
    /// Seconds since the last message.
    pub age_s: i32,
}

/// `icao` (six or more upper-case hex digits), the trimmed `flight` when
/// not empty, and `lat`/`lon` with a position.
pub open spec fn aircraft_head(a: AircraftSpot) -> Seq<u8> {
    let flight = encode_utf8(trim_spec(a.flight@));
    "{\"icao\":\"".spec_bytes() + zero_padded(upper_hex(a.icao as nat), 6) + "\"".spec_bytes() + (
    if flight.len() > 0 {
        str_member(",\"flight\":\"", flight)
    } else {
        Seq::empty()
    }) + (match a.pos {
        Some((lat, lon)) => ",\"lat\":".spec_bytes() + lat.spec_bytes() + ",\"lon\":".spec_bytes()
            + lon.spec_bytes(),
        None => Seq::empty(),
    })
}

/// The JSON object of an aircraft and its newline.
pub open spec fn aircraft_json(a: AircraftSpot) -> Seq<u8> {
    aircraft_head(a) + ",\"alt\":".spec_bytes() + signed_decimal(a.alt_ft as int)
        + ",\"gs\":".spec_bytes() + signed_decimal(a.gs_kt as int) + ",\"trk\":".spec_bytes()
        + signed_decimal(a.trk_deg as int) + ",\"msgs\":".spec_bytes() + signed_decimal(
        a.msgs as int,
    ) + ",\"age\":".spec_bytes() + signed_decimal(a.age_s as int) + "}\n".spec_bytes()
}

impl<'a> AircraftSpot<'a> {
    fn write_head(&self, out: &mut Vec<u8>)
        ensures
            final(out)@ == old(out)@ + aircraft_head(*self),
    {
        let ghost o = out@;
        push_str(out, "{\"icao\":\"");
        push_upper_hex(self.icao as u64, 6, out);
        push_str(out, "\"");
        let ghost o1 = out@;
        let flight = trim(self.flight);
        if flight.as_bytes().len() > 0 {
            write_member(out, ",\"flight\":\"", flight);
        }
        let ghost o2 = out@;
        if let Some((lat, lon)) = self.pos {
            push_str(out, ",\"lat\":");
            push_str(out, lat);
            push_str(out, ",\"lon\":");
            push_str(out, lon);
        }
        proof {
            let f = encode_utf8(trim_spec(self.flight@));
            assert(flight.spec_bytes() == f);
            assert(o2 =~= o1 + if f.len() > 0 {
                str_member(",\"flight\":\"", f)
            } else {
                Seq::empty()
            });
            assert(out@ =~= o2 + match self.pos {
                Some((lat, lon)) => ",\"lat\":".spec_bytes() + lat.spec_bytes()
                    + ",\"lon\":".spec_bytes() + lon.spec_bytes(),
                None => Seq::empty(),
            });
            assert(out@ =~= o + aircraft_head(*self));
        }
    }

    /// Append the aircraft's JSON object and a newline to `out`.
    pub fn write_json(&self, out: &mut Vec<u8>)
        ensures
            final(out)@ == old(out)@ + aircraft_json(*self),
    {
        let ghost o = out@;
        self.write_head(out);
        push_str(out, ",\"alt\":");
        itoa_i64_into(self.alt_ft as i64, out);
        push_str(out, ",\"gs\":");
        itoa_i64_into(self.gs_kt as i64, out);
        push_str(out, ",\"trk\":");
        itoa_i64_into(self.trk_deg as i64, out);
        push_str(out, ",\"msgs\":");
        itoa_i64_into(self.msgs, out);
        push_str(out, ",\"age\":");
        itoa_i64_into(self.age_s as i64, out);
        push_str(out, "}\n");
        assert(out@ =~= o + aircraft_json(*self));
    }
}

} // verus!
