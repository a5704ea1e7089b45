use clipforge::wav::{wav_header, AUDIO_CHANNELS, AUDIO_SAMPLE_RATE};

#[test]
fn wav_header_is_valid() {
    let bytes = wav_header(4).unwrap();
    assert_eq!(&bytes[0..4], b"RIFF");
    assert_eq!(&bytes[8..16], b"WAVEfmt ");
    assert_eq!(u16::from_le_bytes([bytes[20], bytes[21]]), 3);
    assert_eq!(u16::from_le_bytes([bytes[22], bytes[23]]), 2);
    assert_eq!(u32::from_le_bytes([bytes[24], bytes[25], bytes[26], bytes[27]]), 48_000);
    assert_eq!(bytes.len() + 16, 44 + 16);
}

#[test]
fn header_sizes_count_the_data() {
    let bytes = wav_header(2 * 48_000 * 2).unwrap();
    let riff = u32::from_le_bytes([bytes[4], bytes[5], bytes[6], bytes[7]]);
    let data = u32::from_le_bytes([bytes[40], bytes[41], bytes[42], bytes[43]]);
    assert_eq!(data, 2 * 48_000 * 2 * 4);
    assert_eq!(riff, 36 + data);
    assert_eq!(&bytes[36..40], b"data");
    assert_eq!(u32::from_le_bytes([bytes[28], bytes[29], bytes[30], bytes[31]]), AUDIO_SAMPLE_RATE * 8);
    assert_eq!(u16::from_le_bytes([bytes[32], bytes[33]]), AUDIO_CHANNELS * 4);
    assert_eq!(u16::from_le_bytes([bytes[34], bytes[35]]), 32);
}

#[test]
fn too_much_audio_has_no_header() {
    assert!(wav_header(1_073_741_824).is_none());
    assert_eq!(wav_header(0).unwrap().len(), 44);
}
