//! Recording and replay file formats: sample layouts, the RIFF/WAVE
//! header of stereo 16-bit IQ captures and its size patch, the checks
//! that select a layout from a parsed header, the write cap and read
//! bound arithmetic, and the JSON sidecar's path.
use vstd::prelude::*;
use vstd::string::StringExecFns;

verus! {

/// Audio file layouts a replay source understands.
#[derive(Debug, Clone, Copy, PartialEq, Eq, Structural)]
pub enum AudioFileFormat {
    /// Headerless interleaved f32 LE, mono. 4 B/sample.
    RawF32,
    /// WAV mono 16-bit signed PCM. 2 B/sample.
    WavS16,
    /// WAV mono 32-bit IEEE float. 4 B/sample.
    WavF32,
}

impl AudioFileFormat {
    /// Bytes per sample of the layout.
    pub fn bytes_per_sample(self) -> (n: usize)
        ensures
            n == (match self {
                AudioFileFormat::WavS16 => 2usize,
                _ => 4usize,
            }),
    {
        match self {
            AudioFileFormat::WavS16 => 2,
            AudioFileFormat::RawF32 | AudioFileFormat::WavF32 => 4,
        }
    }
}

/// IQ file layouts a replay source understands.
#[derive(Debug, Clone, Copy, PartialEq, Eq, Structural)]
pub enum IqFileFormat {
    /// Interleaved f32 LE (I, Q, I, Q, ...). 8 B/sample.
    Cf32,
    /// 16-bit signed stereo PCM (L=I, R=Q). 4 B/sample.
    Cs16Stereo,
}

impl IqFileFormat {
    /// Bytes per sample of the layout.
    pub fn bytes_per_sample(self) -> (n: usize)
        ensures
            n == (match self {
                IqFileFormat::Cf32 => 8usize,
                IqFileFormat::Cs16Stereo => 4usize,
            }),
    {
        match self {
            IqFileFormat::Cf32 => 8,
            IqFileFormat::Cs16Stereo => 4,
        }
    }
}

/// IQ capture layouts a recording sink writes.
#[derive(Debug, Clone, Copy, PartialEq, Eq, Structural)]
pub enum IqSinkFormat {
    /// Interleaved f32 LE (I, Q, I, Q, ...). 8 B/sample, no header.
    Cf32,
    /// WAV RIFF/PCM, stereo 16-bit, L=I R=Q. 4 B/sample.
    WavS16,
}

/// Why a file could not be opened in the requested layout.
#[derive(Debug, Clone, PartialEq, Eq)]
pub enum FormatError {
    /// A sink format name other than `cf32` and `wav-s16`.
    UnknownSinkFormat(String),
    /// WAV whose format tag is not PCM (1).
    NotPcm(u16),
    /// IQ WAV without exactly two channels.
    NotStereo(u16),
    /// IQ WAV whose samples are not 16-bit.
    Not16Bit(u16),
    /// Audio WAV without exactly one channel.
    NotMono(u16),
    /// Audio WAV that is neither 16-bit PCM nor 32-bit float.
    UnsupportedAudio { tag: u16, bits: u16 },
}

impl IqSinkFormat {
    /// Parse a sink format name: `cf32` or `wav-s16`.
    pub fn parse(s: &str) -> (r: Result<IqSinkFormat, FormatError>)
        ensures
            s@ == seq!['c', 'f', '3', '2'] ==> r == Ok::<IqSinkFormat, FormatError>(IqSinkFormat::Cf32),
            s@ == seq!['w', 'a', 'v', '-', 's', '1', '6'] ==> r == Ok::<IqSinkFormat, FormatError>(IqSinkFormat::WavS16),
            s@ != seq!['c', 'f', '3', '2'] && s@ != seq!['w', 'a', 'v', '-', 's', '1', '6'] ==> (r
                matches Err(FormatError::UnknownSinkFormat(name)) && name@ == s@),
    {
        proof {
            reveal_strlit("cf32");
            reveal_strlit("wav-s16");
            assert("cf32"@ =~= seq!['c', 'f', '3', '2']);
            assert("wav-s16"@ =~= seq!['w', 'a', 'v', '-', 's', '1', '6']);
        }
        if crate::ft8::str_eq(s, "cf32") {
            Ok(IqSinkFormat::Cf32)
        } else if crate::ft8::str_eq(s, "wav-s16") {
            Ok(IqSinkFormat::WavS16)
        } else {
            Err(FormatError::UnknownSinkFormat(s.to_owned()))
        }
    }
}

/// WAV format tag of integer PCM.
pub const WAVE_FORMAT_PCM: u16 = 1;
/// WAV format tag of IEEE float samples.
pub const WAVE_FORMAT_IEEE_FLOAT: u16 = 3;

/// Check a parsed WAV header for an IQ replay: PCM, stereo, 16-bit.
pub fn check_iq_wav(format_tag: u16, channels: u16, bits_per_sample: u16) -> (r: Result<
    IqFileFormat,
    FormatError,
>)
    ensures
        format_tag != 1 ==> r == Err::<IqFileFormat, FormatError>(FormatError::NotPcm(format_tag)),
        format_tag == 1 && channels != 2 ==> r == Err::<IqFileFormat, FormatError>(
            FormatError::NotStereo(channels),
        ),
        format_tag == 1 && channels == 2 && bits_per_sample != 16 ==> r == Err::<
            IqFileFormat,
            FormatError,
        >(FormatError::Not16Bit(bits_per_sample)),
        format_tag == 1 && channels == 2 && bits_per_sample == 16 ==> r == Ok::<
            IqFileFormat,
            FormatError,
        >(IqFileFormat::Cs16Stereo),
{
    if format_tag != WAVE_FORMAT_PCM {
        return Err(FormatError::NotPcm(format_tag));
    }
    if channels != 2 {
        return Err(FormatError::NotStereo(channels));
    }
    if bits_per_sample != 16 {
        return Err(FormatError::Not16Bit(bits_per_sample));
    }
    Ok(IqFileFormat::Cs16Stereo)
}

/// Check a parsed WAV header for an audio replay: mono, and 16-bit PCM
/// or 32-bit float.
pub fn check_audio_wav(format_tag: u16, channels: u16, bits_per_sample: u16) -> (r: Result<
    AudioFileFormat,
    FormatError,
>)
    ensures
        channels != 1 ==> r == Err::<AudioFileFormat, FormatError>(FormatError::NotMono(channels)),
        channels == 1 && format_tag == 1 && bits_per_sample == 16 ==> r == Ok::<
            AudioFileFormat,
            FormatError,
        >(AudioFileFormat::WavS16),
        channels == 1 && format_tag == 3 && bits_per_sample == 32 ==> r == Ok::<
            AudioFileFormat,
            FormatError,
        >(AudioFileFormat::WavF32),
        channels == 1 && !(format_tag == 1 && bits_per_sample == 16) && !(format_tag == 3
            && bits_per_sample == 32) ==> r == Err::<AudioFileFormat, FormatError>(
            FormatError::UnsupportedAudio { tag: format_tag, bits: bits_per_sample },
        ),
{
    if channels != 1 {
        return Err(FormatError::NotMono(channels));
    }
    if format_tag == WAVE_FORMAT_PCM && bits_per_sample == 16 {
        Ok(AudioFileFormat::WavS16)
    } else if format_tag == WAVE_FORMAT_IEEE_FLOAT && bits_per_sample == 32 {
        Ok(AudioFileFormat::WavF32)
    } else {
        Err(FormatError::UnsupportedAudio { tag: format_tag, bits: bits_per_sample })
    }
}

/// Whether the first bytes read from a file mark it as RIFF/WAVE: at
/// least twelve were read, starting `RIFF`, with `WAVE` at offset 8.
pub fn is_riff_wave(magic: &[u8], read: usize) -> (b: bool)
    requires
        magic@.len() >= 12,
    ensures
        b == (read >= 12 && magic@.subrange(0, 4) == seq![0x52u8, 0x49u8, 0x46u8, 0x46u8]
            && magic@.subrange(8, 12) == seq![0x57u8, 0x41u8, 0x56u8, 0x45u8]),
{
    let r = read >= 12 && magic[0] == 0x52 && magic[1] == 0x49 && magic[2] == 0x46 && magic[3]
        == 0x46 && magic[8] == 0x57 && magic[9] == 0x41 && magic[10] == 0x56 && magic[11] == 0x45;
    assert(r ==> magic@.subrange(0, 4) =~= seq![0x52u8, 0x49u8, 0x46u8, 0x46u8]);
    assert(r ==> magic@.subrange(8, 12) =~= seq![0x57u8, 0x41u8, 0x56u8, 0x45u8]);
    proof {
        if !r && read >= 12 {
            if magic@.subrange(0, 4) == seq![0x52u8, 0x49u8, 0x46u8, 0x46u8] {
                assert(magic@[0] == magic@.subrange(0, 4)[0]);
                assert(magic@[1] == magic@.subrange(0, 4)[1]);
                assert(magic@[2] == magic@.subrange(0, 4)[2]);
                assert(magic@[3] == magic@.subrange(0, 4)[3]);
                assert(magic@[8] == magic@.subrange(8, 12)[0]);
                assert(magic@[9] == magic@.subrange(8, 12)[1]);
                assert(magic@[10] == magic@.subrange(8, 12)[2]);
                assert(magic@[11] == magic@.subrange(8, 12)[3]);
            }
        }
    }
    r
}

/// Little-endian bytes of a 32-bit value.
pub open spec fn le32(v: nat) -> Seq<u8> {
    seq![(v % 256) as u8, ((v / 256) % 256) as u8, ((v / 65536) % 256) as u8, ((v / 16777216) % 256) as u8]
}

/// Little-endian bytes of a 16-bit value.
pub open spec fn le16(v: nat) -> Seq<u8> {
    seq![(v % 256) as u8, ((v / 256) % 256) as u8]
}

fn push_le32(out: &mut Vec<u8>, v: u32)
    ensures
        final(out)@ == old(out)@ + le32(v as nat),
{
    out.push((v % 256) as u8);
    out.push(((v / 256) % 256) as u8);
    out.push(((v / 65536) % 256) as u8);
    out.push(((v / 16777216) % 256) as u8);
    assert(out@ =~= old(out)@ + le32(v as nat));
}

fn push_le16(out: &mut Vec<u8>, v: u16)
    ensures
        final(out)@ == old(out)@ + le16(v as nat),
{
    out.push((v % 256) as u8);
    out.push(((v / 256) % 256) as u8);
    assert(out@ =~= old(out)@ + le16(v as nat));
}

/// ASCII bytes of a four-character chunk id.
pub open spec fn tag(a: char, b: char, c: char, d: char) -> Seq<u8> {
    seq![a as u8, b as u8, c as u8, d as u8]
}

/// The 44-byte RIFF/WAVE header of a stereo 16-bit PCM capture at
/// `rate` Hz, with both chunk sizes still zero.
pub open spec fn wav_stub_header_spec(rate: nat) -> Seq<u8> {
    let byte_rate = if rate * 4 > u32::MAX {
        u32::MAX as nat
    } else {
        rate * 4
    };
    tag('R', 'I', 'F', 'F') + le32(0) + tag('W', 'A', 'V', 'E') + tag('f', 'm', 't', ' ') + le32(16)
        + le16(1) + le16(2) + le32(rate) + le32(byte_rate) + le16(4) + le16(16) + tag(
        'd',
        'a',
        't',
        'a',
    ) + le32(0)
}

/// Offset of the `data` chunk's size field in the stub header.
pub const WAV_DATA_SIZE_POS: u64 = 40;

/// Header of a stereo 16-bit IQ capture at `rate` Hz; the RIFF and data
/// sizes are zero until patched at the end of the recording.
pub fn wav_stub_header(rate: u32) -> (h: Vec<u8>)
    ensures
        h@ == wav_stub_header_spec(rate as nat),
        h@.len() == 44,
        h@.subrange(WAV_DATA_SIZE_POS as int, 44) == le32(0),
{
    let byte_rate = match rate.checked_mul(4) {
        Some(b) => b,
        None => u32::MAX,
    };
    let mut h: Vec<u8> = Vec::new();
    h.push(0x52);
    h.push(0x49);
    h.push(0x46);
    h.push(0x46);
    push_le32(&mut h, 0);
    h.push(0x57);
    h.push(0x41);
    h.push(0x56);
    h.push(0x45);
    h.push(0x66);
    h.push(0x6D);
    h.push(0x74);
    h.push(0x20);
    push_le32(&mut h, 16);
    push_le16(&mut h, 1);
    push_le16(&mut h, 2);
    push_le32(&mut h, rate);
    push_le32(&mut h, byte_rate);
    push_le16(&mut h, 4);
    push_le16(&mut h, 16);
    h.push(0x64);
    h.push(0x61);
    h.push(0x74);
    h.push(0x61);
    push_le32(&mut h, 0);
    assert(h@ =~= wav_stub_header_spec(rate as nat));
    assert(h@.subrange(40, 44) =~= le32(0));
    h
}

/// Size of the data chunk of a finished capture: the sample bytes,
/// saturated to what a 32-bit size field holds.
pub fn wav_data_bytes(samples_written: u64, bytes_per_sample: u64) -> (n: u32)
    ensures
        n == if samples_written * bytes_per_sample > u32::MAX {
            u32::MAX as int
        } else {
            samples_written * bytes_per_sample
        },
{
    match samples_written.checked_mul(bytes_per_sample) {
        Some(total) => if total > u32::MAX as u64 {
            u32::MAX
        } else {
            total as u32
        },
        None => u32::MAX,
    }
}

/// The RIFF chunk size a finished capture is patched with: the data
/// bytes plus the 36 header bytes after the RIFF size field, saturated.
pub fn wav_riff_size(data_bytes: u32) -> (n: u32)
    ensures
        n == if data_bytes + 36 > u32::MAX {
            u32::MAX as int
        } else {
            data_bytes + 36
        },
{
    data_bytes.saturating_add(36)
}

/// How many of `presented` samples a capture may still write under an
/// optional cap on the total.
pub fn allowed_samples(max_samples: Option<u64>, samples_written: u64, presented: usize) -> (n:
    usize)
    ensures
        n == match max_samples {
            None => presented as int,
            Some(cap) => {
                let remaining = if cap >= samples_written {
                    cap - samples_written
                } else {
                    0
                };
                if remaining < presented {
                    remaining
                } else {
                    presented as int
                }
            },
        },
{
    match max_samples {
        None => presented,
        Some(cap) => {
            let remaining = cap.saturating_sub(samples_written);
            if remaining < presented as u64 {
                remaining as usize
            } else {
                presented
            }
        },
    }
}

/// How many bytes a bounded read may take into a buffer of `dst_len`,
/// at stream position `pos`, when the data region ends at `data_end`.
pub fn read_cap(data_end: Option<u64>, pos: u64, dst_len: usize) -> (n: usize)
    ensures
        n == match data_end {
            None => dst_len as int,
            Some(end) => {
                let left = if end >= pos {
                    end - pos
                } else {
                    0
                };
                if left < dst_len {
                    left
                } else {
                    dst_len as int
                }
            },
        },
{
    match data_end {
        None => dst_len,
        Some(end) => {
            let left = end.saturating_sub(pos);
            if left < dst_len as u64 {
                left as usize
            } else {
                dst_len
            }
        },
    }
}

/// What `Path::extension` reports on a path: whether it has one.
pub uninterp spec fn path_has_extension(path: Seq<char>) -> bool;

/// What `PathBuf::set_extension` turns a path into, given the new
/// extension.
pub uninterp spec fn path_with_extension(path: Seq<char>, ext: Seq<char>) -> Seq<char>;

/// Whether `ext` holds no path separator: no `/`, and no backslash (a
/// separator on Windows).
pub open spec fn separator_free(ext: Seq<char>) -> bool {
    forall|i: int| 0 <= i < ext.len() ==> ext[i] != '/' && ext[i] != '\\'
}

/// Whether `path` has an extension, by `std::path::Path::extension`.
#[verifier::external_body]
fn has_extension(path: &str) -> (b: bool)
    ensures
        b == path_has_extension(path@),
{
    std::path::Path::new(path).extension().is_some()
}

/// `path` with its extension replaced by `ext`, by
/// `std::path::Path::with_extension` (which is `PathBuf::set_extension`
/// on a copy). That call panics on an extension holding a separator, so
/// `ext` holds none; a text path with a text extension stays text, so
/// the conversion back to a `String` loses nothing.
#[verifier::external_body]
fn with_extension(path: &str, ext: &str) -> (r: String)
    requires
        separator_free(ext@),
    ensures
        r@ == path_with_extension(path@, ext@),
{
    std::path::Path::new(path).with_extension(ext).to_string_lossy().into_owned()
}

/// The JSON sidecar path of a recording.
pub open spec fn sidecar_path_spec(path: Seq<char>) -> Seq<char> {
    if path_has_extension(path) {
        path_with_extension(path, seq!['j', 's', 'o', 'n'])
    } else {
        path + seq!['.', 'j', 's', 'o', 'n']
    }
}

/// Sidecar path of a capture: its extension replaced with `.json`, or
/// `.json` appended when it has none.
pub fn sidecar_path(path: &str) -> (p: String)
    ensures
        p@ == sidecar_path_spec(path@),
{
    if has_extension(path) {
        proof {
            reveal_strlit("json");
        }
        assert("json"@ =~= seq!['j', 's', 'o', 'n']);
        with_extension(path, "json")
    } else {
        let mut s = path.to_owned();
        proof {
            reveal_strlit(".json");
        }
        s.append(".json");
        assert(s@ =~= path@ + seq!['.', 'j', 's', 'o', 'n']);
        s
    }
}

/// Sidecar path of a live recording; same rule as [`sidecar_path`].
pub fn sidecar_path_for(bin_path: &str) -> (p: String)
    ensures
        p@ == sidecar_path_spec(bin_path@),
{
    sidecar_path(bin_path)
}

} // verus!
