use ferrite_blocks::files::{
    allowed_samples, check_audio_wav, check_iq_wav, is_riff_wave, read_cap, sidecar_path,
    sidecar_path_for, wav_data_bytes, wav_riff_size, wav_stub_header, AudioFileFormat,
    FormatError, IqFileFormat, IqSinkFormat, WAV_DATA_SIZE_POS,
};

#[test]
fn sidecar_path_replaces_extension_or_appends() {
    assert_eq!(sidecar_path("/tmp/cap.wav"), "/tmp/cap.json");
    assert_eq!(sidecar_path("/tmp/cap.cf32"), "/tmp/cap.json");
    assert_eq!(sidecar_path("/tmp/capnoext"), "/tmp/capnoext.json");
}

#[test]
fn sidecar_path_for_live_recordings() {
    assert_eq!(sidecar_path_for("rec/vfo1.cf32"), "rec/vfo1.json");
    assert_eq!(sidecar_path_for("rec/.hidden"), "rec/.hidden.json");
}

#[test]
fn bytes_per_sample_of_layouts() {
    assert_eq!(AudioFileFormat::RawF32.bytes_per_sample(), 4);
    assert_eq!(AudioFileFormat::WavS16.bytes_per_sample(), 2);
    assert_eq!(AudioFileFormat::WavF32.bytes_per_sample(), 4);
    assert_eq!(IqFileFormat::Cf32.bytes_per_sample(), 8);
    assert_eq!(IqFileFormat::Cs16Stereo.bytes_per_sample(), 4);
}

#[test]
fn sink_format_names() {
    assert_eq!(IqSinkFormat::parse("cf32"), Ok(IqSinkFormat::Cf32));
    assert_eq!(IqSinkFormat::parse("wav-s16"), Ok(IqSinkFormat::WavS16));
    assert_eq!(
        IqSinkFormat::parse("wav"),
        Err(FormatError::UnknownSinkFormat("wav".to_string()))
    );
}

#[test]
fn wav_header_checks() {
    assert_eq!(check_iq_wav(1, 2, 16), Ok(IqFileFormat::Cs16Stereo));
    assert_eq!(check_iq_wav(3, 2, 16), Err(FormatError::NotPcm(3)));
    assert_eq!(check_iq_wav(1, 1, 16), Err(FormatError::NotStereo(1)));
    assert_eq!(check_iq_wav(1, 2, 8), Err(FormatError::Not16Bit(8)));
    assert_eq!(check_audio_wav(1, 1, 16), Ok(AudioFileFormat::WavS16));
    assert_eq!(check_audio_wav(3, 1, 32), Ok(AudioFileFormat::WavF32));
    assert_eq!(check_audio_wav(1, 2, 16), Err(FormatError::NotMono(2)));
    assert_eq!(
        check_audio_wav(1, 1, 24),
        Err(FormatError::UnsupportedAudio { tag: 1, bits: 24 })
    );
}

#[test]
fn riff_magic() {
    let mut m = *b"RIFF\0\0\0\0WAVEfmt ";
    assert!(is_riff_wave(&m, 12));
    assert!(!is_riff_wave(&m, 11));
    m[9] = b'X';
    assert!(!is_riff_wave(&m, 16));
}

#[test]
fn wav_stub_header_layout() {
    let h = wav_stub_header(48_000);
    assert_eq!(h.len(), 44);
    assert_eq!(&h[0..4], b"RIFF");
    assert_eq!(&h[4..8], &[0, 0, 0, 0]);
    assert_eq!(&h[8..16], b"WAVEfmt ");
    assert_eq!(&h[16..20], &16u32.to_le_bytes());
    assert_eq!(&h[20..22], &1u16.to_le_bytes());
    assert_eq!(&h[22..24], &2u16.to_le_bytes());
    assert_eq!(&h[24..28], &48_000u32.to_le_bytes());
    assert_eq!(&h[28..32], &192_000u32.to_le_bytes());
    assert_eq!(&h[32..34], &4u16.to_le_bytes());
    assert_eq!(&h[34..36], &16u16.to_le_bytes());
    assert_eq!(&h[36..40], b"data");
    assert_eq!(WAV_DATA_SIZE_POS, 40);
    assert_eq!(&h[40..44], &[0, 0, 0, 0]);
}

#[test]
fn wav_size_patch_saturates() {
    assert_eq!(wav_data_bytes(10, 4), 40);
    assert_eq!(wav_data_bytes(u64::MAX, 4), u32::MAX);
    assert_eq!(wav_data_bytes(1 << 31, 4), u32::MAX);
    assert_eq!(wav_riff_size(40), 76);
    assert_eq!(wav_riff_size(u32::MAX - 10), u32::MAX);
}

#[test]
fn write_cap_and_read_bound() {
    assert_eq!(allowed_samples(None, 1_000, 64), 64);
    assert_eq!(allowed_samples(Some(100), 90, 64), 10);
    assert_eq!(allowed_samples(Some(100), 100, 64), 0);
    assert_eq!(allowed_samples(Some(100), 150, 64), 0);
    assert_eq!(read_cap(None, 0, 512), 512);
    assert_eq!(read_cap(Some(1_000), 900, 512), 100);
    assert_eq!(read_cap(Some(1_000), 1_200, 512), 0);
    assert_eq!(read_cap(Some(10_000), 0, 512), 512);
}
