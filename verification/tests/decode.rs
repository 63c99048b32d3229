use mixer::decode::DecodeError;
use mixer::engine::Track;

/// One MPEG-1 Layer III mono frame, 128 kb/s, at the given sample-rate
/// index, with an all-zero payload: decodes to one granule pair of silence.
fn silent_frame(rate_index: u8, frame_len: usize) -> Vec<u8> {
    let mut frame = vec![0u8; frame_len];
    frame[0] = 0xFF;
    frame[1] = 0xFB; // MPEG-1, Layer III, no CRC
    frame[2] = 0x90 | (rate_index << 2); // 128 kb/s, no padding
    frame[3] = 0xC0; // mono
    frame
}

#[test]
fn empty_stream_decodes_to_an_empty_track() {
    let track = Track::decode_mp3(&[]).unwrap();
    assert!(track.data.is_empty());
}

#[test]
fn non_audio_bytes_are_skipped_to_the_end() {
    let track = Track::decode_mp3(b"not audio data at all, just text").unwrap();
    assert!(track.data.is_empty());
}

#[test]
fn a_frame_at_the_operating_rate_yields_its_samples() {
    // Sample-rate index 1 is 48000 Hz; the frame is 1152*128000/(8*48000)
    // = 384 bytes and decodes to 1152 mono samples of silence.
    let track = Track::decode_mp3(&silent_frame(1, 384)).unwrap();
    assert_eq!(track.data.len(), 1152);
    assert!(track.data.iter().all(|&s| s == 0));
}

#[test]
fn a_frame_at_a_foreign_rate_is_a_fatal_mismatch() {
    // Sample-rate index 0 is 44100 Hz: valid audio, wrong configuration.
    let bytes = silent_frame(0, 417);
    match Track::decode_mp3(&bytes) {
        Err(e) => assert_eq!(e, DecodeError::SampleRateMismatch),
        Ok(_) => panic!("a 44.1 kHz stream must be refused, not resampled"),
    }
}
