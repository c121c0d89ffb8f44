//! `Frame` — the envelope every wire message travels in. Envelope fields
//! (`stream_id`, `seq`, `timestamp_ns`) are repeated per variant; the
//! payload is raw bytes whose encoding the variant names.
use vstd::prelude::*;

verus! {

/// `stream_id` reserved for the control stream (JSON events).
pub const CONTROL_STREAM: u16 = 0;
/// Conventional `stream_id` of the session's waterfall FFT output.
pub const FFT_STREAM: u16 = 1;
/// First `stream_id` allocated to a VFO.
pub const VFO_STREAM_BASE: u16 = 2;

/// Single wire envelope.
#[derive(Debug, Clone, PartialEq, Eq)]
pub enum Frame {
    /// Baseband IQ: interleaved little-endian f32 pairs, 8 bytes per
    /// sample; `sample_rate_hz` 0 means unknown.
    IqF32 { stream_id: u16, seq: u32, timestamp_ns: u64, sample_rate_hz: u32, payload: Vec<u8> },
    /// Real audio: little-endian f32, 4 bytes per sample.
    F32 { stream_id: u16, seq: u32, timestamp_ns: u64, sample_rate_hz: u32, payload: Vec<u8> },
    /// Log-magnitude FFT bins, one byte per bin.
    FftU8 { stream_id: u16, seq: u32, timestamp_ns: u64, payload: Vec<u8> },
    /// UTF-8 JSON body.
    JsonEvent { stream_id: u16, seq: u32, timestamp_ns: u64, payload: Vec<u8> },
}

/// Position of a frame's variant in declaration order.
pub open spec fn variant_index(f: Frame) -> u8 {
    match f {
        Frame::IqF32 { .. } => 0,
        Frame::F32 { .. } => 1,
        Frame::FftU8 { .. } => 2,
        Frame::JsonEvent { .. } => 3,
    }
}

/// Stream id of a frame.
pub open spec fn stream_id_spec(f: Frame) -> u16 {
    match f {
        Frame::IqF32 { stream_id, .. } => stream_id,
        Frame::F32 { stream_id, .. } => stream_id,
        Frame::FftU8 { stream_id, .. } => stream_id,
        Frame::JsonEvent { stream_id, .. } => stream_id,
    }
}

/// Sequence number of a frame.
pub open spec fn seq_spec(f: Frame) -> u32 {
    match f {
        Frame::IqF32 { seq, .. } => seq,
        Frame::F32 { seq, .. } => seq,
        Frame::FftU8 { seq, .. } => seq,
        Frame::JsonEvent { seq, .. } => seq,
    }
}

/// Timestamp of a frame, ns.
pub open spec fn timestamp_spec(f: Frame) -> u64 {
    match f {
        Frame::IqF32 { timestamp_ns, .. } => timestamp_ns,
        Frame::F32 { timestamp_ns, .. } => timestamp_ns,
        Frame::FftU8 { timestamp_ns, .. } => timestamp_ns,
        Frame::JsonEvent { timestamp_ns, .. } => timestamp_ns,
    }
}

/// `f` with its envelope's sequence number and timestamp replaced.
pub open spec fn with_envelope(f: Frame, seq: u32, ts: u64) -> Frame {
    match f {
        Frame::IqF32 { stream_id, sample_rate_hz, payload, .. } => Frame::IqF32 {
            stream_id,
            seq,
            timestamp_ns: ts,
            sample_rate_hz,
            payload,
        },
        Frame::F32 { stream_id, sample_rate_hz, payload, .. } => Frame::F32 {
            stream_id,
            seq,
            timestamp_ns: ts,
            sample_rate_hz,
            payload,
        },
        Frame::FftU8 { stream_id, payload, .. } => Frame::FftU8 {
            stream_id,
            seq,
            timestamp_ns: ts,
            payload,
        },
        Frame::JsonEvent { stream_id, payload, .. } => Frame::JsonEvent {
            stream_id,
            seq,
            timestamp_ns: ts,
            payload,
        },
    }
}

impl Frame {
    /// Addressing key `(variant, stream_id)`: a sink keeps one `seq`
    /// counter per key, so different kinds on one stream do not
    /// interleave their sequences.
    pub fn stream_key(&self) -> (k: (u8, u16))
        ensures
            k == (variant_index(*self), stream_id_spec(*self)),
    {
        let v: u8 = match self {
            Frame::IqF32 { .. } => 0,
            Frame::F32 { .. } => 1,
            Frame::FftU8 { .. } => 2,
            Frame::JsonEvent { .. } => 3,
        };
        (v, self.stream_id())
    }

    /// Stream id of the envelope.
    pub fn stream_id(&self) -> (id: u16)
        ensures
            id == stream_id_spec(*self),
    {
        match self {
            Frame::IqF32 { stream_id, .. } => *stream_id,
            Frame::F32 { stream_id, .. } => *stream_id,
            Frame::FftU8 { stream_id, .. } => *stream_id,
            Frame::JsonEvent { stream_id, .. } => *stream_id,
        }
    }

    /// Overwrite the envelope's `seq` and `timestamp_ns`, keeping the
    /// variant, stream id and payload.
    pub fn set_envelope(&mut self, new_seq: u32, new_ts_ns: u64)
        ensures
            *final(self) == with_envelope(*old(self), new_seq, new_ts_ns),
    {
        match self {
            Frame::IqF32 { seq, timestamp_ns, .. } => {
                *seq = new_seq;
                *timestamp_ns = new_ts_ns;
            },
            Frame::F32 { seq, timestamp_ns, .. } => {
                *seq = new_seq;
                *timestamp_ns = new_ts_ns;
            },
            Frame::FftU8 { seq, timestamp_ns, .. } => {
                *seq = new_seq;
                *timestamp_ns = new_ts_ns;
            },
            Frame::JsonEvent { seq, timestamp_ns, .. } => {
                *seq = new_seq;
                *timestamp_ns = new_ts_ns;
            },
        }
    }
}

/// Stamping an envelope sets exactly its sequence number and timestamp:
/// the frame keeps its stream key, and stamping again overrides.
pub proof fn law_envelope_stamp(f: Frame, s1: u32, t1: u64, s2: u32, t2: u64)
    ensures
        variant_index(with_envelope(f, s1, t1)) == variant_index(f),
        stream_id_spec(with_envelope(f, s1, t1)) == stream_id_spec(f),
        seq_spec(with_envelope(f, s1, t1)) == s1,
        timestamp_spec(with_envelope(f, s1, t1)) == t1,
        with_envelope(with_envelope(f, s1, t1), s2, t2) == with_envelope(f, s2, t2),
        with_envelope(f, seq_spec(f), timestamp_spec(f)) == f,
{
}

/// Stream keys tell frames apart by variant and by stream id.
pub proof fn law_stream_key_distinguishes(a: Frame, b: Frame)
    ensures
        (variant_index(a), stream_id_spec(a)) == (variant_index(b), stream_id_spec(b)) <==> (
        variant_index(a) == variant_index(b) && stream_id_spec(a) == stream_id_spec(b)),
        variant_index(a) == variant_index(b) <==> (a is IqF32 && b is IqF32) || (a is F32
            && b is F32) || (a is FftU8 && b is FftU8) || (a is JsonEvent && b is JsonEvent),
{
}

/// Payload-type tag of interleaved f32 IQ in the flat JS view.
pub const PT_IQ_F32: u8 = 0x11;
/// Payload-type tag of real f32 audio.
pub const PT_F32: u8 = 0x12;
/// Payload-type tag of u8 FFT bins.
pub const PT_FFT_U8: u8 = 0x01;
/// Payload-type tag of a JSON event.
pub const PT_JSON_EVENT: u8 = 0x80;

/// Payload-type tag of a frame's variant.
pub open spec fn payload_type_spec(f: Frame) -> u8 {
    match f {
        Frame::IqF32 { .. } => PT_IQ_F32,
        Frame::F32 { .. } => PT_F32,
        Frame::FftU8 { .. } => PT_FFT_U8,
        Frame::JsonEvent { .. } => PT_JSON_EVENT,
    }
}

/// Sample rate of a frame; 0 for the variants that carry none.
pub open spec fn sample_rate_spec(f: Frame) -> u32 {
    match f {
        Frame::IqF32 { sample_rate_hz, .. } => sample_rate_hz,
        Frame::F32 { sample_rate_hz, .. } => sample_rate_hz,
        _ => 0,
    }
}

/// Payload bytes of a frame.
pub open spec fn payload_spec(f: Frame) -> Seq<u8> {
    match f {
        Frame::IqF32 { payload, .. } => payload@,
        Frame::F32 { payload, .. } => payload@,
        Frame::FftU8 { payload, .. } => payload@,
        Frame::JsonEvent { payload, .. } => payload@,
    }
}

/// A frame flattened for the browser: a payload-type tag, the envelope,
/// the sample rate (0 where the variant has none) and the payload bytes.
pub struct FlatFrame<'a> {
    pub payload_type: u8,
    pub stream_id: u16,
    pub seq: u32,
    pub timestamp_ns: u64,
    pub sample_rate_hz: u32,
    pub payload: &'a [u8],
}

impl Frame {
    /// The flat browser view of this frame.
    pub fn flatten(&self) -> (v: FlatFrame<'_>)
        ensures
            v.payload_type == payload_type_spec(*self),
            v.stream_id == stream_id_spec(*self),
            v.seq == seq_spec(*self),
            v.timestamp_ns == timestamp_spec(*self),
            v.sample_rate_hz == sample_rate_spec(*self),
            v.payload@ == payload_spec(*self),
    {
        match self {
            Frame::IqF32 { stream_id, seq, timestamp_ns, sample_rate_hz, payload } => FlatFrame {
                payload_type: PT_IQ_F32,
                stream_id: *stream_id,
                seq: *seq,
                timestamp_ns: *timestamp_ns,
                sample_rate_hz: *sample_rate_hz,
                payload: payload.as_slice(),
            },
            Frame::F32 { stream_id, seq, timestamp_ns, sample_rate_hz, payload } => FlatFrame {
                payload_type: PT_F32,
                stream_id: *stream_id,
                seq: *seq,
                timestamp_ns: *timestamp_ns,
                sample_rate_hz: *sample_rate_hz,
                payload: payload.as_slice(),
            },
            Frame::FftU8 { stream_id, seq, timestamp_ns, payload } => FlatFrame {
                payload_type: PT_FFT_U8,
                stream_id: *stream_id,
                seq: *seq,
                timestamp_ns: *timestamp_ns,
                sample_rate_hz: 0,
                payload: payload.as_slice(),
            },
            Frame::JsonEvent { stream_id, seq, timestamp_ns, payload } => FlatFrame {
                payload_type: PT_JSON_EVENT,
                stream_id: *stream_id,
                seq: *seq,
                timestamp_ns: *timestamp_ns,
                sample_rate_hz: 0,
                payload: payload.as_slice(),
            },
        }
    }
}

} // verus!
