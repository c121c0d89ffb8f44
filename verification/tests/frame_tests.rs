use ferrite_blocks::frame::{PT_F32, PT_FFT_U8, PT_IQ_F32, PT_JSON_EVENT};
use ferrite_blocks::frame::{Frame, CONTROL_STREAM, FFT_STREAM, VFO_STREAM_BASE};

#[test]
fn stream_constants_preserve_ordering() {
    assert_eq!(CONTROL_STREAM, 0);
    assert_eq!(FFT_STREAM, 1);
    assert_eq!(VFO_STREAM_BASE, 2);
}

#[test]
fn stream_key_differs_by_variant_and_id() {
    let a = Frame::IqF32 {
        stream_id: 1,
        seq: 0,
        timestamp_ns: 0,
        sample_rate_hz: 0,
        payload: vec![],
    };
    let b = Frame::FftU8 {
        stream_id: 1,
        seq: 0,
        timestamp_ns: 0,
        payload: vec![],
    };
    let c = Frame::IqF32 {
        stream_id: 2,
        seq: 0,
        timestamp_ns: 0,
        sample_rate_hz: 0,
        payload: vec![],
    };
    assert_ne!(a.stream_key(), b.stream_key(), "variant tag differs");
    assert_ne!(a.stream_key(), c.stream_key(), "stream id differs");
    assert_eq!(a.stream_key(), (0, 1));
    assert_eq!(b.stream_key(), (2, 1));
}

#[test]
fn set_envelope_writes_all_variants() {
    let mut iq = Frame::IqF32 {
        stream_id: 10,
        seq: 0,
        timestamp_ns: 0,
        sample_rate_hz: 0,
        payload: vec![],
    };
    iq.set_envelope(42, 9_000_000_000);
    let Frame::IqF32 {
        seq, timestamp_ns, ..
    } = iq
    else {
        panic!("variant changed");
    };
    assert_eq!((seq, timestamp_ns), (42, 9_000_000_000));
}

#[test]
fn set_envelope_keeps_stream_and_payload() {
    let mut ev = Frame::JsonEvent {
        stream_id: CONTROL_STREAM,
        seq: 1,
        timestamp_ns: 99,
        payload: b"{\"type\":\"ping\"}".to_vec(),
    };
    let key = ev.stream_key();
    ev.set_envelope(7, 8);
    ev.set_envelope(9, 10);
    assert_eq!(ev.stream_key(), key);
    assert_eq!(ev.stream_id(), CONTROL_STREAM);
    assert_eq!(
        ev,
        Frame::JsonEvent {
            stream_id: CONTROL_STREAM,
            seq: 9,
            timestamp_ns: 10,
            payload: b"{\"type\":\"ping\"}".to_vec(),
        }
    );
}

#[test]
fn flatten_tags_variants_and_zeroes_missing_rate() {
    let iq = Frame::IqF32 {
        stream_id: 1000,
        seq: 0xDEAD_BEEF,
        timestamp_ns: 0x0123_4567_89AB_CDEF,
        sample_rate_hz: 48_000,
        payload: vec![1, 2, 3],
    };
    let v = iq.flatten();
    assert_eq!(
        (v.payload_type, v.stream_id, v.seq, v.timestamp_ns, v.sample_rate_hz, v.payload),
        (PT_IQ_F32, 1000, 0xDEAD_BEEF, 0x0123_4567_89AB_CDEF, 48_000, &[1u8, 2, 3][..])
    );
    let au = Frame::F32 { stream_id: 3, seq: 1, timestamp_ns: 2, sample_rate_hz: 8_000, payload: vec![] };
    assert_eq!((au.flatten().payload_type, au.flatten().sample_rate_hz), (PT_F32, 8_000));
    let fft = Frame::FftU8 { stream_id: FFT_STREAM, seq: 7, timestamp_ns: 42, payload: vec![0, 255] };
    let v = fft.flatten();
    assert_eq!((v.payload_type, v.sample_rate_hz, v.payload), (PT_FFT_U8, 0, &[0u8, 255][..]));
    let ev = Frame::JsonEvent { stream_id: CONTROL_STREAM, seq: 1, timestamp_ns: 99, payload: b"{}".to_vec() };
    assert_eq!((ev.flatten().payload_type, ev.flatten().sample_rate_hz), (PT_JSON_EVENT, 0));
    assert_eq!((PT_IQ_F32, PT_F32, PT_FFT_U8, PT_JSON_EVENT), (0x11, 0x12, 0x01, 0x80));
}
