use ghostty_voice_core::audio::wav_data_len;

fn wav_with_data(data_bytes: u32) -> Vec<u8> {
    let mut w = Vec::new();
    w.extend_from_slice(b"RIFF");
    w.extend_from_slice(&(36 + data_bytes).to_le_bytes());
    w.extend_from_slice(b"WAVE");
    w.extend_from_slice(b"fmt ");
    w.extend_from_slice(&16u32.to_le_bytes());
    w.extend_from_slice(&1u16.to_le_bytes());
    w.extend_from_slice(&1u16.to_le_bytes());
    w.extend_from_slice(&16_000u32.to_le_bytes());
    w.extend_from_slice(&32_000u32.to_le_bytes());
    w.extend_from_slice(&2u16.to_le_bytes());
    w.extend_from_slice(&16u16.to_le_bytes());
    w.extend_from_slice(b"data");
    w.extend_from_slice(&data_bytes.to_le_bytes());
    w.extend(std::iter::repeat_n(0u8, data_bytes as usize));
    w
}

#[test]
fn reads_data_len_from_canonical_wav() {
    assert_eq!(wav_data_len(&wav_with_data(32_000)), Some(32_000));
}

#[test]
fn data_len_clamps_to_bytes_present() {
    let mut w = wav_with_data(0);
    let len = w.len();
    let size_pos = len - 4;
    w[size_pos..].copy_from_slice(&32_000u32.to_le_bytes());
    assert_eq!(wav_data_len(&w), Some(0));
}

#[test]
fn rejects_non_wav() {
    assert_eq!(wav_data_len(b"not a wav file at all"), None);
}

#[test]
fn an_odd_sized_chunk_is_skipped_with_its_pad_byte() {
    let mut w = Vec::new();
    w.extend_from_slice(b"RIFF\0\0\0\0WAVE");
    w.extend_from_slice(b"LIST");
    w.extend_from_slice(&3u32.to_le_bytes());
    w.extend_from_slice(&[1, 2, 3, 0]);
    w.extend_from_slice(b"data");
    w.extend_from_slice(&4u32.to_le_bytes());
    w.extend_from_slice(&[9, 9, 9, 9]);
    assert_eq!(wav_data_len(&w), Some(4));
}

#[test]
fn a_chunk_overrunning_the_file_means_no_data() {
    let mut w = Vec::new();
    w.extend_from_slice(b"RIFF\0\0\0\0WAVE");
    w.extend_from_slice(b"LIST");
    w.extend_from_slice(&u32::MAX.to_le_bytes());
    w.extend_from_slice(b"data\x04\0\0\0abcd");
    assert_eq!(wav_data_len(&w), None);
}
