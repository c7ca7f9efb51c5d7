use vcd30_player::video::cdxa::extract_mpeg_ps;

#[test]
fn test_passthrough_non_riff() {
    let raw_mpg = vec![0x00, 0x00, 0x01, 0xba, 0x21, 0x00, 0x01, 0x02];
    let extracted = extract_mpeg_ps(&raw_mpg).expect("Passthrough failed");
    assert_eq!(extracted, raw_mpg);
}

fn mock_dat(data_len: u32) -> Vec<u8> {
    let mut mock_dat = Vec::new();
    mock_dat.extend_from_slice(b"RIFF");
    mock_dat.extend_from_slice(&(2352u32 * 2 + 36).to_le_bytes());
    mock_dat.extend_from_slice(b"CDXAfmt ");
    mock_dat.extend_from_slice(&[0u8; 16]);
    mock_dat.extend_from_slice(b"data");
    mock_dat.extend_from_slice(&data_len.to_le_bytes());
    mock_dat
}

#[test]
fn test_mock_cdxa_demux() {
    let mut mock_dat = mock_dat(2352 * 2);
    let mut sec0 = vec![0u8; 2352];
    sec0[0..12].copy_from_slice(&[0x00, 0xff, 0xff, 0xff, 0xff, 0xff, 0xff, 0xff, 0xff, 0xff, 0xff, 0x00]);
    mock_dat.extend_from_slice(&sec0);
    let mut sec1 = vec![0u8; 2352];
    sec1[0..12].copy_from_slice(&[0x00, 0xff, 0xff, 0xff, 0xff, 0xff, 0xff, 0xff, 0xff, 0xff, 0xff, 0x00]);
    sec1[18] = 0x62;
    sec1[24..28].copy_from_slice(&[0x00, 0x00, 0x01, 0xba]);
    sec1[28..32].copy_from_slice(&[0x11, 0x22, 0x33, 0x44]);
    mock_dat.extend_from_slice(&sec1);

    let extracted = extract_mpeg_ps(&mock_dat).expect("Demux failed");
    assert!(!extracted.is_empty());
    assert_eq!(&extracted[0..4], &[0x00, 0x00, 0x01, 0xba]);
    assert_eq!(&extracted[4..8], &[0x11, 0x22, 0x33, 0x44]);
}

#[test]
fn cdxa_payload_length_and_partial_sector() {
    let mut d = mock_dat(0);
    let mut sec = vec![0u8; 2352];
    sec[24..28].copy_from_slice(&[0x00, 0x00, 0x01, 0xb3]);
    d.extend_from_slice(&sec);
    // a partial sector: header plus 10 payload bytes
    let mut part = vec![0u8; 34];
    part[24] = 0xAB;
    d.extend_from_slice(&part);
    let out = extract_mpeg_ps(&d).expect("demux");
    assert_eq!(out.len(), 2324 + 10);
    assert_eq!(out[2324], 0xAB);
}

#[test]
fn cdxa_empty_data_chunk_is_an_error() {
    // without a `data` tag the sectors are taken to start at 44, the end here
    let mut d = mock_dat(0);
    d[32..36].copy_from_slice(b"junk");
    d.extend_from_slice(&[0u8; 4]);
    assert_eq!(d.len(), 44);
    assert_eq!(extract_mpeg_ps(&d), Err("RIFF/CDXA file contains empty data chunk".to_string()));
}

#[test]
fn cdxa_data_tag_without_sectors_gives_empty_stream() {
    let mut d = mock_dat(0);
    d.extend_from_slice(&[0u8; 4]);
    assert_eq!(extract_mpeg_ps(&d), Ok(vec![]));
}

#[test]
fn cdxa_short_input_passes_through() {
    let short = b"RIFF....CDXA".to_vec();
    assert_eq!(extract_mpeg_ps(&short), Ok(short.clone()));
}
