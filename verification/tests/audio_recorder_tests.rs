use shr_daw::audio_recorder::{
    finalized_wav_header, is_wav_part_header, numbered_name, read_wav_rate_bytes, recovered_frames,
    recovered_stem, wav_header, WAV_MAX_DATA_BYTES, WAV_MAX_FRAMES,
};

fn header_array(bytes: &[u8]) -> [u8; 44] {
    let mut header = [0u8; 44];
    header.copy_from_slice(bytes);
    header
}

#[test]
fn riff_limit_accepts_only_the_last_valid_frame() {
    let bytes = finalized_wav_header(48_000, WAV_MAX_FRAMES).unwrap();
    assert_eq!(
        u32::from_le_bytes(bytes[40..44].try_into().unwrap()),
        (WAV_MAX_FRAMES * 6) as u32
    );
    assert!(finalized_wav_header(48_000, WAV_MAX_FRAMES + 1).is_err());
}

#[test]
fn wav_header_lays_out_a_24_bit_stereo_file() {
    let bytes = wav_header(48_000, 12).unwrap();
    assert_eq!(bytes.len(), 44);
    assert_eq!(&bytes[..4], b"RIFF");
    assert_eq!(u32::from_le_bytes(bytes[4..8].try_into().unwrap()), 48);
    assert_eq!(&bytes[8..16], b"WAVEfmt ");
    assert_eq!(u32::from_le_bytes(bytes[16..20].try_into().unwrap()), 16);
    assert_eq!(u16::from_le_bytes(bytes[20..22].try_into().unwrap()), 1);
    assert_eq!(u16::from_le_bytes(bytes[22..24].try_into().unwrap()), 2);
    assert_eq!(u32::from_le_bytes(bytes[24..28].try_into().unwrap()), 48_000);
    assert_eq!(u32::from_le_bytes(bytes[28..32].try_into().unwrap()), 288_000);
    assert_eq!(u16::from_le_bytes(bytes[32..34].try_into().unwrap()), 6);
    assert_eq!(u16::from_le_bytes(bytes[34..36].try_into().unwrap()), 24);
    assert_eq!(&bytes[36..40], b"data");
    assert_eq!(u32::from_le_bytes(bytes[40..44].try_into().unwrap()), 12);
}

#[test]
fn wav_header_refuses_sizes_that_overflow() {
    assert_eq!(wav_header(48_000, u32::MAX - 35).unwrap_err(), "WAV size overflow");
    assert!(wav_header(48_000, u32::MAX - 36).is_ok());
    assert_eq!(wav_header(u32::MAX / 6 + 1, 0).unwrap_err(), "WAV sample rate overflow");
    assert_eq!(
        finalized_wav_header(48_000, WAV_MAX_FRAMES + 1).unwrap_err(),
        "WAV exceeded 4 GiB PCM limit"
    );
    assert_eq!(WAV_MAX_DATA_BYTES, u32::MAX as u64 - 36);
}

#[test]
fn written_headers_are_recognized_and_read_back_their_rate() {
    let header = header_array(&wav_header(44_100, 600).unwrap());
    assert!(is_wav_part_header(&header));
    assert_eq!(read_wav_rate_bytes(&header), Some(44_100));
}

#[test]
fn foreign_or_damaged_headers_are_not_recordings() {
    let mut header = header_array(&wav_header(48_000, 0).unwrap());
    header[28] = header[28].wrapping_add(1);
    assert_eq!(read_wav_rate_bytes(&header), None);
    assert!(!is_wav_part_header(&header));

    let slow = header_array(&wav_header(4_000, 0).unwrap());
    assert_eq!(read_wav_rate_bytes(&slow), None);
    assert!(!is_wav_part_header(&slow));

    let mut mono = header_array(&wav_header(48_000, 0).unwrap());
    mono[22] = 1;
    assert!(!is_wav_part_header(&mono));
    assert_eq!(read_wav_rate_bytes(&mono), Some(48_000));
}

#[test]
fn recovered_files_keep_whole_frames_only() {
    assert_eq!(recovered_frames(44), 0);
    assert_eq!(recovered_frames(49), 0);
    assert_eq!(recovered_frames(50), 1);
    assert_eq!(recovered_frames(44 + 6 * 10 + 5), 10);
    assert_eq!(recovered_frames(u64::MAX), WAV_MAX_FRAMES);
}

#[test]
fn recovered_recordings_are_named_after_the_left_over_file() {
    assert_eq!(recovered_stem("take.wav.part"), "take-recovered");
    assert_eq!(recovered_stem("take.wav.part.wav.part"), "take-recovered");
    assert_eq!(recovered_stem("take.part"), "take.part-recovered");
    assert_eq!(recovered_stem(".wav.part"), "-recovered");
}

#[test]
fn numbered_names_count_up_after_the_plain_name() {
    assert_eq!(numbered_name("recording-5", "wav", 0), "recording-5.wav");
    assert_eq!(numbered_name("recording-5", "wav", 1), "recording-5-1.wav");
    assert_eq!(numbered_name("x", "wav", 9999), "x-9999.wav");
}
