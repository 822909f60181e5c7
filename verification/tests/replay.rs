use robotrace_sim::replay::{
    read_record, read_u16, read_u32, read_u64, write_header, write_record, write_record_tail,
    write_u16, write_u32, write_u64, ReplayError, ReplayRow, FIXED_F64_COUNT, MAGIC, VERSION,
};

#[test]
fn integers_are_little_endian() {
    let mut out = Vec::new();
    write_u16(&mut out, 0x1234);
    write_u32(&mut out, 0xDEADBEEF);
    write_u64(&mut out, 0x0102030405060708);
    assert_eq!(
        out,
        vec![0x34, 0x12, 0xEF, 0xBE, 0xAD, 0xDE, 8, 7, 6, 5, 4, 3, 2, 1]
    );
    let mut std_bytes = Vec::new();
    std_bytes.extend_from_slice(&0x1234u16.to_le_bytes());
    std_bytes.extend_from_slice(&0xDEADBEEFu32.to_le_bytes());
    std_bytes.extend_from_slice(&0x0102030405060708u64.to_le_bytes());
    assert_eq!(out, std_bytes);
}

#[test]
fn reading_back_what_was_written() {
    let mut out = vec![9u8, 9, 9];
    write_u16(&mut out, 65535);
    write_u32(&mut out, 7);
    write_u64(&mut out, u64::MAX - 1);
    assert_eq!(read_u16(&out, 3), Some(65535));
    assert_eq!(read_u32(&out, 5), Some(7));
    assert_eq!(read_u64(&out, 9), Some(u64::MAX - 1));
}

#[test]
fn reading_past_the_end_gives_nothing() {
    let bytes = [1u8, 2, 3];
    assert_eq!(read_u16(&bytes, 1), Some(0x0302));
    assert_eq!(read_u16(&bytes, 2), None);
    assert_eq!(read_u32(&bytes, 0), None);
    assert_eq!(read_u64(&bytes, 0), None);
    assert_eq!(read_u16(&bytes, usize::MAX), None);
}

#[test]
fn legacy_header_layout() {
    let mut out = Vec::new();
    write_header(&mut out, 5);
    let mut expected = b"RTSRPL03".to_vec();
    expected.extend_from_slice(&3u16.to_le_bytes());
    expected.extend_from_slice(&5u16.to_le_bytes());
    expected.extend_from_slice(&44u32.to_le_bytes());
    assert_eq!(out, expected);
    assert_eq!(&MAGIC, b"RTSRPL03");
    assert_eq!(VERSION, 3);
    assert_eq!(FIXED_F64_COUNT, 44);
}

#[test]
fn header_keeps_sensor_count_to_sixteen_bits() {
    let mut out = Vec::new();
    write_header(&mut out, 65536 + 2);
    assert_eq!(read_u16(&out, 10), Some(2));
}

#[test]
fn record_tail_pads_missing_readings_with_zero() {
    let mut out = Vec::new();
    write_record_tail(&mut out, true, &vec![10, 20], 3);
    assert_eq!(out, vec![1, 10, 0, 0, 0, 20, 0, 0, 0, 0, 0, 0, 0]);
    let mut out = Vec::new();
    write_record_tail(&mut out, false, &vec![10, 20, 30], 1);
    assert_eq!(out, vec![0, 10, 0, 0, 0]);
}

fn sample_channels() -> Vec<u64> {
    (0..44).map(|i| (i as f64 * 0.5 - 3.25).to_bits()).collect()
}

#[test]
fn record_layout_matches_the_fixed_format() {
    let channels = sample_channels();
    let mut out = Vec::new();
    write_record(&mut out, 1_000, &channels, true, &vec![7, 8], 3);
    assert_eq!(out.len(), 8 + 44 * 8 + 1 + 3 * 4);
    assert_eq!(&out[0..8], &1_000u64.to_le_bytes());
    assert_eq!(&out[8..16], &(-3.25f64).to_le_bytes());
    assert_eq!(&out[16..24], &(-2.75f64).to_le_bytes());
    assert_eq!(out[360], 1);
    assert_eq!(&out[361..365], &7u32.to_le_bytes());
    assert_eq!(&out[365..369], &8u32.to_le_bytes());
    assert_eq!(&out[369..373], &0u32.to_le_bytes());
}

#[test]
fn records_read_back_in_sequence() {
    let channels = sample_channels();
    let mut out = vec![0xAA, 0xBB];
    write_record(&mut out, 5, &channels, true, &vec![1, 2], 2);
    write_record(&mut out, 6, &channels, false, &vec![3], 2);
    let first = read_record(&out, 2, 2).unwrap().unwrap();
    assert_eq!(
        first.0,
        ReplayRow { t_us: 5, channels: channels.clone(), line_visible: true, adc: vec![1, 2] }
    );
    assert_eq!(first.1, 2 + 369);
    let second = read_record(&out, first.1, 2).unwrap().unwrap();
    assert_eq!(
        second.0,
        ReplayRow { t_us: 6, channels: channels.clone(), line_visible: false, adc: vec![3, 0] }
    );
    assert_eq!(second.1, out.len());
    assert_eq!(read_record(&out, second.1, 2), Ok(None));
}

#[test]
fn a_short_remainder_ends_the_log_and_a_cut_record_is_an_error() {
    let channels = sample_channels();
    let mut out = Vec::new();
    write_record(&mut out, 9, &channels, true, &vec![], 1);
    assert_eq!(read_record(&out[..7], 0, 1), Ok(None));
    assert_eq!(read_record(&out[..8], 0, 1), Err(ReplayError::Truncated));
    assert_eq!(read_record(&out[..out.len() - 1], 0, 1), Err(ReplayError::Truncated));
    assert_eq!(read_record(&out, usize::MAX, 1), Ok(None));
    assert_eq!(read_record(&out, 0, usize::MAX), Err(ReplayError::Truncated));
}
