use vcd30_player::vcd::detector::{
    classify_disc, has_class_magic, is_chm_extension, is_video_extension, VcdDiscType,
};
use vcd30_player::vcd::entries::VcdEntries;
use vcd30_player::vcd::info::VcdInfo;
use vcd30_player::interactive::kernel::{has_active_pbc_timer, tick_pbc, ActiveDiscMode};
use vcd30_player::vcd::lot::LotTable;
use vcd30_player::vcd::pbc::{PbcAction, PbcEngine, PbcState};
use vcd30_player::vcd::psd::{PsdDescriptor, PsdTable};
use vcd30_player::vcd::track::plan_disc_tracks;
use vcd30_player::vcd::segment::{
    blit_segment_to_canvas, downsample_704x576_to_352x288, resolve_segment_path,
};

#[test]
fn test_entries_too_small() {
    assert!(VcdEntries::parse(&[0u8; 10]).is_err());
}

#[test]
fn test_entries_parse_synthetic() {
    let mut buf = vec![0u8; 12 + 2 * 4];
    buf[0..8].copy_from_slice(b"ENTRYVCD");
    buf[8] = 2;
    buf[9] = 0;
    buf[10..12].copy_from_slice(&2u16.to_be_bytes());
    buf[12] = 0x02;
    buf[13] = 0x01;
    buf[14] = 0x23;
    buf[15] = 0x45;
    buf[16] = 0x02;
    buf[17] = 0x05;
    buf[18] = 0x12;
    buf[19] = 0x00;

    let entries = VcdEntries::parse(&buf).expect("Failed to parse valid synthetic ENTRIES");
    assert_eq!(entries.id, "ENTRYVCD");
    assert_eq!(entries.version, 2);
    assert_eq!(entries.sys_prof_tag, 0);
    assert_eq!(entries.entry_count, 2);
    assert_eq!(entries.entries.len(), 2);

    let e1 = &entries.entries[0];
    assert_eq!(e1.index, 1);
    assert_eq!(e1.track_no, 2);
    assert_eq!(e1.min, 1);
    assert_eq!(e1.sec, 23);
    assert_eq!(e1.frame, 45);
    assert_eq!(e1.msf_string(), "01:23:45");
    let expected_sec = 1.0 * 60.0 + 23.0 + 45.0 / 75.0;
    assert!((e1.total_frames() as f64 / 75.0 - expected_sec).abs() < 1e-6);

    let e2 = &entries.entries[1];
    assert_eq!(e2.index, 2);
    assert_eq!(e2.track_no, 2);
    assert_eq!(e2.min, 5);
    assert_eq!(e2.sec, 12);
    assert_eq!(e2.frame, 0);
    assert_eq!(e2.msf_string(), "05:12:00");
}

#[test]
fn test_info_too_small() {
    assert!(VcdInfo::parse(&[0u8; 30]).is_err());
}

fn synthetic_info() -> Vec<u8> {
    let mut buf = vec![0u8; 100];
    buf[0..8].copy_from_slice(b"VIDEO_CD");
    buf[8] = 2;
    buf[9] = 0;
    buf[10..26].copy_from_slice(b"TEST_ALBUM      ");
    buf[26..28].copy_from_slice(&2u16.to_be_bytes());
    buf[28..30].copy_from_slice(&1u16.to_be_bytes());
    buf[43] = 0x04;
    buf[44..48].copy_from_slice(&496u32.to_be_bytes());
    buf[51] = 8;
    buf[52..54].copy_from_slice(&29u16.to_be_bytes());
    buf[54..56].copy_from_slice(&2u16.to_be_bytes());
    buf[56] = 0x18;
    buf[57] = 0x18;
    buf
}

#[test]
fn test_info_parse_synthetic() {
    let info = VcdInfo::parse(&synthetic_info()).expect("Failed to parse valid synthetic INFO");
    assert_eq!(info.id, "VIDEO_CD");
    assert_eq!(info.version, 2);
    assert_eq!(info.sys_prof_tag, 0);
    assert_eq!(info.album_desc, "TEST_ALBUM");
    assert_eq!(info.vol_count, 2);
    assert_eq!(info.vol_id, 1);
    assert_eq!(info.psd_size, 496);
    assert_eq!(info.offset_mult, 8);
    assert_eq!(info.lot_entries, 29);
    assert_eq!(info.item_count, 2);
    assert_eq!(info.spi_contents.len(), 2);
    assert!(info.is_vcd20());
    assert!(info.has_pbc());
}

#[test]
fn test_lot_parse_synthetic() {
    let mut raw = vec![0u8; 16];
    raw[2] = 0x00;
    raw[3] = 0x00;
    raw[4] = 0x00;
    raw[5] = 0x02;
    raw[6] = 0x00;
    raw[7] = 0x09;
    raw[8] = 0xFF;
    raw[9] = 0xFF;

    let lot = LotTable::parse(&raw, 8).expect("failed to parse lot");
    assert_eq!(lot.entry_count(), 8);
    assert_eq!(lot.get_unit_offset(1), Some(0));
    assert_eq!(lot.get_byte_offset(1), Some(0));
    assert_eq!(lot.get_unit_offset(2), Some(2));
    assert_eq!(lot.get_byte_offset(2), Some(16));
    assert_eq!(lot.get_unit_offset(3), Some(9));
    assert_eq!(lot.get_byte_offset(3), Some(72));
    assert_eq!(lot.get_unit_offset(4), None);
    assert_eq!(lot.get_byte_offset(4), None);
    assert_eq!(lot.get_unit_offset(100), None);

    let valid = lot.valid_lids();
    assert_eq!(valid, vec![1, 2, 3, 5, 6, 7]);
}

#[test]
fn test_lot_too_small() {
    let err = LotTable::parse(&[0, 0], 8).unwrap_err();
    assert!(err.contains("too small"));
}

#[test]
fn test_lot_table_parsing_and_resolution() {
    let mut raw = vec![0u8; 32];
    raw[2] = 0;
    raw[3] = 0;
    raw[4] = 0;
    raw[5] = 2;
    raw[6] = 0;
    raw[7] = 9;
    raw[8] = 0xFF;
    raw[9] = 0xFF;
    raw[10] = 0;
    raw[11] = 0x15;

    let lot = LotTable::parse(&raw, 8).expect("parse LOT");
    assert_eq!(lot.entry_count(), 16);
    assert_eq!(lot.offset_multiplier(), 8);
    assert_eq!(lot.get_unit_offset(1), Some(0));
    assert_eq!(lot.get_byte_offset(1), Some(0));
    assert_eq!(lot.get_unit_offset(2), Some(2));
    assert_eq!(lot.get_byte_offset(2), Some(16));
    assert_eq!(lot.get_unit_offset(3), Some(9));
    assert_eq!(lot.get_byte_offset(3), Some(72));
    assert_eq!(lot.get_unit_offset(4), None);
    assert_eq!(lot.get_byte_offset(4), None);
    assert_eq!(lot.get_unit_offset(5), Some(0x15));
    assert_eq!(lot.get_byte_offset(5), Some(0x15 * 8));
    let valids = lot.valid_lids();
    assert_eq!(valids, vec![1, 2, 3, 5, 6, 7, 8, 9, 10, 11, 12, 13, 14, 15]);
}

#[test]
fn test_psd_parse_synthetic_playlist_and_selection() {
    let mut raw = Vec::new();
    raw.push(0x10);
    raw.push(1);
    raw.extend_from_slice(&1u16.to_be_bytes());
    raw.extend_from_slice(&0xFFFFu16.to_be_bytes());
    raw.extend_from_slice(&2u16.to_be_bytes());
    raw.extend_from_slice(&0xFFFFu16.to_be_bytes());
    raw.extend_from_slice(&0u16.to_be_bytes());
    raw.push(0);
    raw.push(0);
    raw.extend_from_slice(&19u16.to_be_bytes());
    assert_eq!(raw.len(), 16);

    raw.push(0x18);
    raw.push(0x00);
    raw.push(2);
    raw.push(1);
    raw.extend_from_slice(&2u16.to_be_bytes());
    raw.extend_from_slice(&0u16.to_be_bytes());
    raw.extend_from_slice(&9u16.to_be_bytes());
    raw.extend_from_slice(&0u16.to_be_bytes());
    raw.extend_from_slice(&0xFFFFu16.to_be_bytes());
    raw.extend_from_slice(&9u16.to_be_bytes());
    raw.push(15);
    raw.push(1);
    raw.extend_from_slice(&18u16.to_be_bytes());
    raw.extend_from_slice(&9u16.to_be_bytes());
    raw.extend_from_slice(&11u16.to_be_bytes());
    assert_eq!(raw.len(), 16 + 24);

    raw.push(0x1F);
    raw.push(0);
    raw.extend_from_slice(&0u16.to_be_bytes());
    raw.extend_from_slice(&[0, 0, 0, 0]);

    let psd = PsdTable::parse(&raw, 8).expect("failed to parse psd");
    assert_eq!(psd.descriptors.len(), 3);

    match psd.get_by_unit_offset(0) {
        Some(PsdDescriptor::PlayList(p)) => {
            assert_eq!(p.lid, 1);
            assert_eq!(p.items, vec![19]);
            assert_eq!(p.next_ofs, 2);
        }
        _ => panic!("expected PlayList at unit 0"),
    }
    match psd.get_by_unit_offset(2) {
        Some(PsdDescriptor::SelectionList(s)) => {
            assert_eq!(s.lid, 2);
            assert_eq!(s.nos, 2);
            assert_eq!(s.bsn, 1);
            assert_eq!(s.item_id, 18);
            assert_eq!(s.selections, vec![9, 11]);
            assert_eq!(s.timeout_time, 15);
        }
        _ => panic!("expected SelectionList at unit 2"),
    }
    match psd.get_by_unit_offset(5) {
        Some(PsdDescriptor::EndList(e)) => {
            assert_eq!(e.next_disc, 0);
        }
        _ => panic!("expected EndList at unit 5"),
    }
    let first_sel = psd.first_selection_list().expect("first selection list");
    assert_eq!(first_sel.lid, 2);
}

#[test]
fn test_psd_table_parsing_playlists_and_selections() {
    let mut raw = Vec::new();
    raw.push(0x10);
    raw.push(2);
    raw.extend_from_slice(&1u16.to_be_bytes());
    raw.extend_from_slice(&0xFFFFu16.to_be_bytes());
    raw.extend_from_slice(&4u16.to_be_bytes());
    raw.extend_from_slice(&0xFFFFu16.to_be_bytes());
    raw.extend_from_slice(&0u16.to_be_bytes());
    raw.push(5);
    raw.push(0);
    raw.extend_from_slice(&2u16.to_be_bytes());
    raw.extend_from_slice(&3u16.to_be_bytes());
    while raw.len() < 32 {
        raw.push(0);
    }
    raw.push(0x18);
    raw.push(0);
    raw.push(3);
    raw.push(1);
    raw.extend_from_slice(&2u16.to_be_bytes());
    raw.extend_from_slice(&0u16.to_be_bytes());
    raw.extend_from_slice(&8u16.to_be_bytes());
    raw.extend_from_slice(&0u16.to_be_bytes());
    raw.extend_from_slice(&8u16.to_be_bytes());
    raw.extend_from_slice(&8u16.to_be_bytes());
    raw.push(20);
    raw.push(1);
    raw.extend_from_slice(&1000u16.to_be_bytes());
    raw.extend_from_slice(&8u16.to_be_bytes());
    raw.extend_from_slice(&9u16.to_be_bytes());
    raw.extend_from_slice(&10u16.to_be_bytes());

    let psd = PsdTable::parse(&raw, 8).expect("parse PSD");
    assert_eq!(psd.descriptors.len(), 2);
    match psd.get_by_unit_offset(0) {
        Some(PsdDescriptor::PlayList(p)) => {
            assert_eq!(p.lid, 1);
            assert_eq!(p.noi, 2);
            assert_eq!(p.wtime, 5);
            assert_eq!(p.items, vec![2, 3]);
        }
        _ => panic!("expected PlayList at unit 0"),
    }
    match psd.get_by_unit_offset(4) {
        Some(PsdDescriptor::SelectionList(s)) => {
            assert_eq!(s.lid, 2);
            assert_eq!(s.nos, 3);
            assert_eq!(s.bsn, 1);
            assert_eq!(s.item_id, 1000);
            assert_eq!(s.selections, vec![8, 9, 10]);
        }
        _ => panic!("expected SelectionList at unit 4"),
    }
}

fn lot_with(units: &[(usize, u16)]) -> LotTable {
    let mut raw_lot = vec![0u8; 16];
    for (lid, unit) in units {
        raw_lot[lid * 2..lid * 2 + 2].copy_from_slice(&unit.to_be_bytes());
    }
    LotTable::parse(&raw_lot, 8).unwrap()
}

#[test]
fn test_pbc_flow_synthetic() {
    let lot = lot_with(&[(1, 0), (2, 2), (3, 5)]);
    let mut raw_psd = Vec::new();
    raw_psd.push(0x10);
    raw_psd.push(1);
    raw_psd.extend_from_slice(&1u16.to_be_bytes());
    raw_psd.extend_from_slice(&0xFFFFu16.to_be_bytes());
    raw_psd.extend_from_slice(&2u16.to_be_bytes());
    raw_psd.extend_from_slice(&0xFFFFu16.to_be_bytes());
    raw_psd.extend_from_slice(&0u16.to_be_bytes());
    raw_psd.push(0);
    raw_psd.push(0);
    raw_psd.extend_from_slice(&2u16.to_be_bytes());

    raw_psd.push(0x18);
    raw_psd.push(0);
    raw_psd.push(2);
    raw_psd.push(1);
    raw_psd.extend_from_slice(&2u16.to_be_bytes());
    raw_psd.extend_from_slice(&0u16.to_be_bytes());
    raw_psd.extend_from_slice(&5u16.to_be_bytes());
    raw_psd.extend_from_slice(&0u16.to_be_bytes());
    raw_psd.extend_from_slice(&0xFFFFu16.to_be_bytes());
    raw_psd.extend_from_slice(&5u16.to_be_bytes());
    raw_psd.push(10);
    raw_psd.push(1);
    raw_psd.extend_from_slice(&1000u16.to_be_bytes());
    raw_psd.extend_from_slice(&5u16.to_be_bytes());
    raw_psd.extend_from_slice(&5u16.to_be_bytes());

    raw_psd.push(0x1F);
    raw_psd.push(0);
    raw_psd.extend_from_slice(&0u16.to_be_bytes());
    raw_psd.extend_from_slice(&[0, 0, 0, 0]);

    let psd = PsdTable::parse(&raw_psd, 8).unwrap();
    let mut engine = PbcEngine::new(lot, psd);

    let act1 = engine.start().expect("start action");
    assert_eq!(act1, PbcAction::PlayTrack { track_number: 2, item_id: 2, ptime: 0, wtime: 0 });
    let act2 = engine.on_item_finished().expect("next action");
    assert_eq!(
        act2,
        PbcAction::DisplayStillMenu { item_id: 1000, segment_index: 1, nos: 2, bsn: 1, timeout_sec: 10 }
    );
    let act3 = engine.select_number(1).unwrap().expect("selection action");
    assert_eq!(act3, PbcAction::End);
    assert_eq!(engine.state, PbcState::Ended);
    let act4 = engine.press_pbc().expect("pbc action");
    assert_eq!(
        act4,
        PbcAction::DisplayStillMenu { item_id: 1000, segment_index: 1, nos: 2, bsn: 1, timeout_sec: 10 }
    );
}

#[test]
fn test_pbc_state_machine_transitions() {
    let lot = lot_with(&[(1, 0), (2, 2), (3, 5)]);
    let mut raw_psd = Vec::new();
    raw_psd.push(0x10);
    raw_psd.push(1);
    raw_psd.extend_from_slice(&1u16.to_be_bytes());
    raw_psd.extend_from_slice(&0xFFFFu16.to_be_bytes());
    raw_psd.extend_from_slice(&2u16.to_be_bytes());
    raw_psd.extend_from_slice(&0xFFFFu16.to_be_bytes());
    raw_psd.extend_from_slice(&0u16.to_be_bytes());
    raw_psd.push(0);
    raw_psd.push(0);
    raw_psd.extend_from_slice(&2u16.to_be_bytes());

    raw_psd.push(0x18);
    raw_psd.push(0);
    raw_psd.push(2);
    raw_psd.push(1);
    raw_psd.extend_from_slice(&2u16.to_be_bytes());
    raw_psd.extend_from_slice(&0u16.to_be_bytes());
    raw_psd.extend_from_slice(&5u16.to_be_bytes());
    raw_psd.extend_from_slice(&0u16.to_be_bytes());
    raw_psd.extend_from_slice(&5u16.to_be_bytes());
    raw_psd.extend_from_slice(&5u16.to_be_bytes());
    raw_psd.push(10);
    raw_psd.push(1);
    raw_psd.extend_from_slice(&1000u16.to_be_bytes());
    raw_psd.extend_from_slice(&5u16.to_be_bytes());
    raw_psd.extend_from_slice(&5u16.to_be_bytes());

    raw_psd.push(0x10);
    raw_psd.push(1);
    raw_psd.extend_from_slice(&3u16.to_be_bytes());
    raw_psd.extend_from_slice(&2u16.to_be_bytes());
    raw_psd.extend_from_slice(&2u16.to_be_bytes());
    raw_psd.extend_from_slice(&2u16.to_be_bytes());
    raw_psd.extend_from_slice(&0u16.to_be_bytes());
    raw_psd.push(0);
    raw_psd.push(0);
    raw_psd.extend_from_slice(&3u16.to_be_bytes());

    let psd = PsdTable::parse(&raw_psd, 8).unwrap();
    let mut engine = PbcEngine::new(lot, psd);

    assert_eq!(engine.state, PbcState::Uninitialized);
    let act1 = engine.start().expect("start action");
    assert_eq!(act1, PbcAction::PlayTrack { track_number: 2, item_id: 2, ptime: 0, wtime: 0 });
    let act2 = engine.on_item_finished().expect("menu action");
    assert_eq!(
        act2,
        PbcAction::DisplayStillMenu { item_id: 1000, segment_index: 1, nos: 2, bsn: 1, timeout_sec: 10 }
    );
    let act3 = engine.select_number(1).unwrap().expect("track 3 action");
    assert_eq!(act3, PbcAction::PlayTrack { track_number: 3, item_id: 3, ptime: 0, wtime: 0 });
    let act4 = engine.press_pbc().expect("pbc return to menu");
    assert_eq!(
        act4,
        PbcAction::DisplayStillMenu { item_id: 1000, segment_index: 1, nos: 2, bsn: 1, timeout_sec: 10 }
    );
    // 10.5 s of menu timeout
    let act5 = engine.tick(10_500).expect("timeout action");
    assert_eq!(act5, PbcAction::PlayTrack { track_number: 3, item_id: 3, ptime: 0, wtime: 0 });
}

#[test]
fn test_pbc_playlist_ptime_action_metadata() {
    let lot = lot_with(&[(1, 0)]);
    let mut raw_psd = Vec::new();
    raw_psd.push(0x10);
    raw_psd.push(1);
    raw_psd.extend_from_slice(&1u16.to_be_bytes());
    raw_psd.extend_from_slice(&0xFFFFu16.to_be_bytes());
    raw_psd.extend_from_slice(&0xFFFFu16.to_be_bytes());
    raw_psd.extend_from_slice(&0xFFFFu16.to_be_bytes());
    raw_psd.extend_from_slice(&75u16.to_be_bytes());
    raw_psd.push(2);
    raw_psd.push(0);
    raw_psd.extend_from_slice(&2u16.to_be_bytes());
    while raw_psd.len() % 8 != 0 {
        raw_psd.push(0);
    }
    let psd = PsdTable::parse(&raw_psd, 8).unwrap();
    let mut engine = PbcEngine::new(lot, psd);
    let action = engine.start().expect("start action");
    assert_eq!(action, PbcAction::PlayTrack { track_number: 2, item_id: 2, ptime: 75, wtime: 2 });
}

#[test]
fn test_display_formatting() {
    let t1 = VcdDiscType::Vcd30Interactive {
        version_str: "3.0".to_string(),
        has_vcd20_layer: true,
        entry_count: 27,
    };
    assert_eq!(t1.to_display_string(), "VCD 3.0 (兼容 VCD 2.0，共 27 个章节)");
    let t2 = VcdDiscType::Vcd20WithPbc { entry_count: 10, segment_count: 5 };
    assert_eq!(t2.to_display_string(), "VCD 2.0 (带 PBC 交互，10 章节，5 菜单段)");
    let t3 = VcdDiscType::Vcd20Linear { entry_count: 4 };
    assert_eq!(t3.to_display_string(), "VCD 2.0 (纯视频，4 章节)");
    let t4 = VcdDiscType::Vcd11 { entry_count: 2 };
    assert_eq!(t4.to_display_string(), "VCD 1.1 (2 章节)");
    assert_eq!(VcdDiscType::Vcd10.to_display_string(), "VCD 1.0 (纯视频)");
    assert_eq!(VcdDiscType::SuperVcd.to_display_string(), "Super VCD (SVCD)");
    assert_eq!(VcdDiscType::HqVcd.to_display_string(), "HQ-VCD");
    let t8 = VcdDiscType::RawVideoDisc { video_count: 3 };
    assert_eq!(t8.to_display_string(), "视频数据盘 (共 3 个视频)");
    assert_eq!(VcdDiscType::Unknown.to_display_string(), "未知光盘格式");
}

#[test]
fn test_version_label() {
    let t1 = VcdDiscType::Vcd30Interactive {
        version_str: "3.0".to_string(),
        has_vcd20_layer: true,
        entry_count: 27,
    };
    assert_eq!(t1.version_label(), "VCD 3.0");
    assert_eq!(VcdDiscType::Vcd20WithPbc { entry_count: 10, segment_count: 5 }.version_label(), "VCD 2.0");
    assert_eq!(VcdDiscType::Vcd20Linear { entry_count: 4 }.version_label(), "VCD 2.0");
    assert_eq!(VcdDiscType::Vcd11 { entry_count: 2 }.version_label(), "VCD 1.1");
    assert_eq!(VcdDiscType::Vcd10.version_label(), "VCD 1.0");
    assert_eq!(VcdDiscType::SuperVcd.version_label(), "SVCD");
    assert_eq!(VcdDiscType::HqVcd.version_label(), "HQ-VCD");
    assert_eq!(VcdDiscType::RawVideoDisc { video_count: 3 }.version_label(), "VIDEO CD");
    assert_eq!(VcdDiscType::Unknown.version_label(), "UNKNOWN DISC");
}

#[test]
fn detector_display_without_layer() {
    let t = VcdDiscType::Vcd30Interactive { version_str: "3.0".to_string(), has_vcd20_layer: true, entry_count: 0 };
    assert_eq!(t.to_display_string(), "VCD 3.0 (兼容 VCD 2.0)");
    let t = VcdDiscType::Vcd30Interactive { version_str: "3.0".to_string(), has_vcd20_layer: false, entry_count: 5 };
    assert_eq!(t.to_display_string(), "VCD 3.0 (互动版)");
    assert!(t.supports_vcd30() && t.supports_vcd20() && t.supports_vcd10());
    assert!(!VcdDiscType::Unknown.supports_vcd10());
    assert!(!VcdDiscType::SuperVcd.supports_vcd20());
}

#[test]
fn classify_discs() {
    let info = VcdInfo::parse(&synthetic_info()).unwrap();
    match classify_disc(true, Some(&info), 27, false, false, 0) {
        VcdDiscType::Vcd30Interactive { version_str, has_vcd20_layer, entry_count } => {
            assert_eq!(version_str, "3.0");
            assert!(has_vcd20_layer);
            assert_eq!(entry_count, 27);
        }
        other => panic!("unexpected {:?}", other),
    }
    assert_eq!(
        classify_disc(false, Some(&info), 4, false, false, 0),
        VcdDiscType::Vcd20WithPbc { entry_count: 4, segment_count: 2 }
    );
    assert_eq!(classify_disc(false, Some(&info), 4, true, false, 0), VcdDiscType::SuperVcd);
    assert_eq!(classify_disc(false, None, 0, false, false, 1), VcdDiscType::RawVideoDisc { video_count: 1 });
    assert_eq!(classify_disc(false, None, 0, false, false, 0), VcdDiscType::Unknown);

    let mut raw = synthetic_info();
    raw[0..8].copy_from_slice(b"supervcd");
    let svcd = VcdInfo::parse(&raw).unwrap();
    assert_eq!(classify_disc(false, Some(&svcd), 0, false, false, 0), VcdDiscType::SuperVcd);

    let mut raw = synthetic_info();
    raw[44..48].copy_from_slice(&0u32.to_be_bytes());
    let linear = VcdInfo::parse(&raw).unwrap();
    assert_eq!(classify_disc(false, Some(&linear), 3, false, false, 0), VcdDiscType::Vcd20Linear { entry_count: 3 });
    assert_eq!(
        classify_disc(false, Some(&linear), 3, false, true, 0),
        VcdDiscType::Vcd20WithPbc { entry_count: 3, segment_count: 2 }
    );

    let mut raw = synthetic_info();
    raw[8] = 1;
    raw[9] = 1;
    let v11 = VcdInfo::parse(&raw).unwrap();
    assert_eq!(classify_disc(false, Some(&v11), 2, false, false, 0), VcdDiscType::Vcd11 { entry_count: 2 });
}

#[test]
fn detector_file_checks() {
    assert!(has_class_magic(&[0xCA, 0xFE, 0xBA, 0xBE, 0]));
    assert!(!has_class_magic(&[0xCA, 0xFE, 0xBA]));
    assert!(is_chm_extension("chm"));
    assert!(is_chm_extension("ChM"));
    assert!(!is_chm_extension("chmx"));
    assert!(is_video_extension("dat"));
    assert!(is_video_extension("MPEG"));
    assert!(is_video_extension("Mpg"));
    assert!(!is_video_extension("avi"));
}

#[test]
fn test_downsample_pure_colors() {
    let mut src = vec![0u8; 704 * 576 * 4];
    for pixel in src.chunks_exact_mut(4) {
        pixel[0] = 200;
        pixel[1] = 100;
        pixel[2] = 50;
        pixel[3] = 255;
    }
    let mut dst = vec![0u8; 352 * 288 * 4];
    downsample_704x576_to_352x288(&src, &mut dst);
    assert_eq!(dst[0], 200);
    assert_eq!(dst[1], 100);
    assert_eq!(dst[2], 50);
    assert_eq!(dst[3], 255);
}

#[test]
fn downsample_averages_each_block() {
    let mut src = vec![0u8; 704 * 576 * 4];
    // block (0,0): red values 10, 20, 30, 41 -> 101 / 4 = 25
    src[0] = 10;
    src[4] = 20;
    src[704 * 4] = 30;
    src[704 * 4 + 4] = 41;
    let mut dst = vec![7u8; 352 * 288 * 4 + 2];
    downsample_704x576_to_352x288(&src, &mut dst);
    assert_eq!(dst[0], 25);
    assert_eq!(dst[3], 255);
    assert_eq!(dst[352 * 288 * 4], 7);
    assert_eq!(dst[352 * 288 * 4 + 1], 7);
}

#[test]
fn test_resolve_segment_path() {
    assert_eq!(resolve_segment_path(999), None);
}

#[test]
fn segment_paths() {
    assert_eq!(resolve_segment_path(1000).as_deref(), Some("SEGMENT/ITEM0001.DAT"));
    assert_eq!(resolve_segment_path(1234).as_deref(), Some("SEGMENT/ITEM0235.DAT"));
    assert_eq!(resolve_segment_path(65535).as_deref(), Some("SEGMENT/ITEM64536.DAT"));
}

#[test]
fn blit_segment_copies_and_scales() {
    let src = vec![9u8; 352 * 288 * 4];
    let mut dst = vec![0u8; 352 * 288 * 4];
    blit_segment_to_canvas(352, 288, &src, &mut dst);
    assert_eq!(dst, src);

    // a 2x2 picture scaled up by nearest neighbour
    let small = vec![1, 1, 1, 1, 2, 2, 2, 2, 3, 3, 3, 3, 4, 4, 4, 4];
    let mut dst = vec![0u8; 352 * 288 * 4];
    blit_segment_to_canvas(2, 2, &small, &mut dst);
    assert_eq!(&dst[0..4], &[1, 1, 1, 1]);
    assert_eq!(&dst[351 * 4..352 * 4], &[2, 2, 2, 2]);
    let last_row = 287 * 352 * 4;
    assert_eq!(&dst[last_row..last_row + 4], &[3, 3, 3, 3]);
    assert_eq!(&dst[last_row + 351 * 4..last_row + 352 * 4], &[4, 4, 4, 4]);
}

fn entries_bytes(list: &[[u8; 4]]) -> Vec<u8> {
    let mut d = Vec::new();
    d.extend_from_slice(b"ENTRYVCD");
    d.push(0x02);
    d.push(0x01);
    d.extend_from_slice(&(list.len() as u16).to_be_bytes());
    for e in list {
        d.extend_from_slice(e);
    }
    d
}

#[test]
fn test_scan_single_file_virtual_chapters() {
    let entries = VcdEntries::parse(&entries_bytes(&[
        [0x02, 0x02, 0x00, 0x00],
        [0x02, 0x05, 0x30, 0x00],
        [0x02, 0x09, 0x15, 0x37],
    ]))
    .unwrap();
    let tracks = plan_disc_tracks(vec!["AVSEQ01.DAT".to_string()], Some(&entries));
    assert_eq!(tracks.len(), 3);
    assert_eq!(tracks[0].index, 1);
    assert_eq!(tracks[0].title, "AVSEQ01.DAT (01)");
    assert_eq!(tracks[0].start_frame, 0);
    assert_eq!(tracks[0].end_frame, Some(210 * 75));
    assert_eq!(tracks[1].index, 2);
    assert_eq!(tracks[1].title, "AVSEQ01.DAT (02)");
    assert_eq!(tracks[1].start_frame, 210 * 75);
    assert!((tracks[1].end_frame.unwrap() as f64 / 75.0 - 435.4933).abs() < 0.01);
    assert_eq!(tracks[2].index, 3);
    assert_eq!(tracks[2].title, "AVSEQ01.DAT (03)");
    assert!((tracks[2].start_frame as f64 / 75.0 - 435.4933).abs() < 0.01);
    assert_eq!(tracks[2].end_frame, None);
    assert_eq!(tracks[0].file_name, "MPEGAV/AVSEQ01.DAT");
    assert_eq!(tracks[0].msf_start.as_deref(), Some("02:00:00"));
}

#[test]
fn tracks_follow_sorted_files_and_entry_tracks() {
    let entries = VcdEntries::parse(&entries_bytes(&[[0x03, 0x00, 0x02, 0x00], [0x02, 0x00, 0x02, 0x00]])).unwrap();
    let files = vec!["music02.dat".to_string(), "MUSIC01.DAT".to_string()];
    let tracks = plan_disc_tracks(files, Some(&entries));
    assert_eq!(tracks.len(), 2);
    assert_eq!(tracks[0].title, "MUSIC01.DAT");
    assert_eq!(tracks[0].track_no, 2);
    assert_eq!(tracks[1].title, "music02.dat");
    assert_eq!(tracks[1].track_no, 3);
    assert_eq!(tracks[1].file_name, "MPEGAV/music02.dat");
}

#[test]
fn tracks_without_entries_are_one_per_file() {
    let files = vec!["B.MPG".to_string(), "A.DAT".to_string()];
    let tracks = plan_disc_tracks(files, None);
    assert_eq!(tracks.len(), 2);
    assert_eq!((tracks[0].index, tracks[0].track_no, tracks[0].title.as_str()), (1, 2, "A.DAT"));
    assert_eq!((tracks[1].index, tracks[1].track_no, tracks[1].title.as_str()), (2, 3, "B.MPG"));
    assert_eq!(tracks[1].msf_start, None);
    assert!(plan_disc_tracks(vec![], None).is_empty());
}

#[test]
fn lot_slot_zero_is_reserved() {
    // slot 0 holds a value, but LIDs are 1-based
    let data = [0u8, 4, 0, 0, 0, 2, 0xFF, 0xFF];
    let lot = LotTable::parse(&data, 8).unwrap();
    assert_eq!(lot.get_unit_offset(0), None);
    assert_eq!(lot.get_byte_offset(0), None);
    assert_eq!(lot.get_unit_offset(1), Some(0));
    assert_eq!(lot.get_byte_offset(2), Some(16));
    assert_eq!(lot.get_unit_offset(3), None);
}

#[test]
fn extended_selection_list_parses_with_area_data() {
    let mut ext = vec![0x10u8, 1, 0, 1, 0xFF, 0xFF, 0, 2, 0xFF, 0xFF, 0, 0, 0, 0, 0, 2];
    ext.extend_from_slice(&[
        0x1A, 0, 1, 1, 0, 2, 0, 0, 0xFF, 0xFF, 0, 0, 0xFF, 0xFF, 0xFF, 0xFF, 0, 1, 0, 2, 0, 0,
    ]);
    ext.extend_from_slice(&[0xAA; 16]);
    ext.extend_from_slice(&[0xBB; 4]);
    ext.extend_from_slice(&[0u8; 6]);
    let t = PsdTable::parse(&ext, 8).unwrap();
    assert!(t.has_extended_descriptors());
    match t.get_by_unit_offset(2) {
        Some(PsdDescriptor::SelectionList(s)) => {
            assert_eq!(s.descriptor_tag, 0x1A);
            assert!(s.is_extended());
            assert_eq!(s.lid, 2);
            assert_eq!(s.nos, 1);
            assert_eq!(s.selections, vec![0]);
            assert_eq!(s.ext_area_data.len(), 20);
            assert_eq!(&s.ext_area_data[..16], &[0xAA; 16]);
            assert_eq!(&s.ext_area_data[16..], &[0xBB; 4]);
        }
        other => panic!("expected an extended selection list, got {:?}", other),
    }
    let mut lot_bytes = vec![0xFFu8; 16];
    lot_bytes[2] = 0;
    lot_bytes[3] = 0;
    lot_bytes[4] = 0;
    lot_bytes[5] = 2;
    let lot = LotTable::parse(&lot_bytes, 8).unwrap();
    match t.get_by_lid(2, &lot) {
        Some(PsdDescriptor::SelectionList(s)) => assert!(s.is_extended()),
        other => panic!("expected LID 2 to be a selection list, got {:?}", other),
    }
}

#[test]
fn unit_lookup_gives_last_descriptor_at_offset() {
    // two EndLists at bytes 0 and 8 share unit 0 when a unit is 16 bytes
    let data = [0x1Fu8, 1, 0, 0, 0, 0, 0, 0, 0x1F, 2, 0, 0, 0, 0, 0, 0];
    let psd = PsdTable::parse(&data, 16).unwrap();
    assert_eq!(psd.descriptors.len(), 2);
    match psd.get_by_unit_offset(0) {
        Some(PsdDescriptor::EndList(e)) => {
            assert_eq!(e.next_disc, 2);
            assert_eq!(e.byte_offset, 8);
        }
        other => panic!("expected the second EndList, got {:?}", other),
    }
}

#[test]
fn test_pbc_waiting_delay_ticking_and_infinite_wait() {
    let mut raw_lot = vec![0u8; 16];
    raw_lot[2] = 0; raw_lot[3] = 0; // LID 1 -> unit 0
    raw_lot[4] = 0; raw_lot[5] = 2; // LID 2 -> unit 2
    let lot = LotTable::parse(&raw_lot, 8).unwrap();

    let mut raw_psd = Vec::new();
    // 1. PlayList LID 1 at unit 0 (byte 0) with wtime = 3 seconds, next = unit 2
    raw_psd.push(0x10);
    raw_psd.push(1);
    raw_psd.extend_from_slice(&1u16.to_be_bytes()); // lid 1
    raw_psd.extend_from_slice(&0xFFFFu16.to_be_bytes()); // prev
    raw_psd.extend_from_slice(&2u16.to_be_bytes()); // next = unit 2
    raw_psd.extend_from_slice(&0xFFFFu16.to_be_bytes()); // ret
    raw_psd.extend_from_slice(&0u16.to_be_bytes());
    raw_psd.push(3); // wtime = 3 seconds
    raw_psd.push(0);
    raw_psd.extend_from_slice(&2u16.to_be_bytes()); // track 2

    // 2. PlayList LID 2 at unit 2 (byte 16) with wtime = 255 (infinite wait), next = 0xFFFF
    raw_psd.push(0x10);
    raw_psd.push(1);
    raw_psd.extend_from_slice(&2u16.to_be_bytes()); // lid 2
    raw_psd.extend_from_slice(&0u16.to_be_bytes()); // prev = unit 0
    raw_psd.extend_from_slice(&0xFFFFu16.to_be_bytes()); // next = None
    raw_psd.extend_from_slice(&0u16.to_be_bytes()); // ret = unit 0
    raw_psd.extend_from_slice(&0u16.to_be_bytes());
    raw_psd.push(255); // wtime = 255 (infinite wait)
    raw_psd.push(0);
    raw_psd.extend_from_slice(&3u16.to_be_bytes()); // track 3

    let psd = PsdTable::parse(&raw_psd, 8).unwrap();
    let mut engine = PbcEngine::new(lot, psd);

    let act1 = engine.start().expect("start action");
    assert_eq!(act1, PbcAction::PlayTrack { track_number: 2, item_id: 2, ptime: 0, wtime: 3 });

    // Track 2 finishes playing -> enters WaitingDelay for 3 seconds
    let finish_act = engine.on_item_finished();
    assert!(finish_act.is_none(), "should wait for wtime instead of immediately transitioning");
    assert!(engine.has_active_timer(), "engine must have active timer during wtime delay");
    assert_eq!(engine.remaining_timer_ms(), Some(3000));

    // Step 1.0 second
    assert!(engine.tick(1000).is_none());
    assert!(engine.has_active_timer());
    assert_eq!(engine.remaining_timer_ms(), Some(2000));

    // Step 1.5 seconds (remaining 0.5s)
    assert!(engine.tick(1500).is_none());
    assert!(engine.has_active_timer());
    assert_eq!(engine.remaining_timer_ms(), Some(500));

    // Step 0.6 seconds (remaining <= 0) -> delay expires, advances to next descriptor (LID 2)!
    let act2 = engine.tick(600).expect("delay expiration triggers next descriptor");
    assert_eq!(act2, PbcAction::PlayTrack { track_number: 3, item_id: 3, ptime: 0, wtime: 255 });

    // Track 3 finishes playing -> wtime = 255 (infinite wait)
    let finish_act2 = engine.on_item_finished();
    assert!(finish_act2.is_none());
    assert!(!engine.has_active_timer(), "infinite wait delay (wtime=255) has no countdown timer");
    assert_eq!(engine.remaining_timer_ms(), None);

    // Ticking any amount of time during infinite wait should never fire
    assert!(engine.tick(100000).is_none());
    assert!(engine.tick(5000000).is_none());
    match &engine.state {
        PbcState::WaitingDelay { remaining_wait, .. } => {
            assert!(remaining_wait.is_none());
        }
        _ => panic!("state must remain WaitingDelay with infinite wait"),
    }
}

#[test]
fn test_pbc_selection_timeout_ticking_and_infinite_timeout() {
    let mut raw_lot = vec![0u8; 16];
    raw_lot[2] = 0; raw_lot[3] = 0; // LID 1 -> unit 0
    raw_lot[4] = 0; raw_lot[5] = 3; // LID 2 -> unit 3
    raw_lot[6] = 0; raw_lot[7] = 6; // LID 3 -> unit 6
    let lot = LotTable::parse(&raw_lot, 8).unwrap();

    let mut raw_psd = Vec::new();
    // 1. SelectionList LID 1 at unit 0 (byte 0): timeout_time = 4s, timeout_ofs = unit 3
    raw_psd.push(0x18);
    raw_psd.push(0);
    raw_psd.push(1); // nos = 1
    raw_psd.push(1); // bsn = 1
    raw_psd.extend_from_slice(&1u16.to_be_bytes()); // lid 1
    raw_psd.extend_from_slice(&0xFFFFu16.to_be_bytes()); // prev
    raw_psd.extend_from_slice(&0xFFFFu16.to_be_bytes()); // next
    raw_psd.extend_from_slice(&0xFFFFu16.to_be_bytes()); // ret
    raw_psd.extend_from_slice(&0xFFFFu16.to_be_bytes()); // def
    raw_psd.extend_from_slice(&3u16.to_be_bytes()); // timeout_ofs = unit 3
    raw_psd.push(4); // timeout_time = 4s
    raw_psd.push(1);
    raw_psd.extend_from_slice(&1000u16.to_be_bytes()); // ITEM0001.DAT
    raw_psd.extend_from_slice(&6u16.to_be_bytes()); // sel 1 -> unit 6
    while raw_psd.len() % 8 != 0 {
        raw_psd.push(0);
    }

    // 2. SelectionList LID 2 at unit 3 (byte 24): timeout_time = 2s, timeout_ofs = 0xFFFF (no timeout action)
    raw_psd.push(0x18);
    raw_psd.push(0);
    raw_psd.push(1);
    raw_psd.push(1);
    raw_psd.extend_from_slice(&2u16.to_be_bytes()); // lid 2
    raw_psd.extend_from_slice(&0u16.to_be_bytes()); // prev = unit 0
    raw_psd.extend_from_slice(&0xFFFFu16.to_be_bytes());
    raw_psd.extend_from_slice(&0u16.to_be_bytes());
    raw_psd.extend_from_slice(&0xFFFFu16.to_be_bytes());
    raw_psd.extend_from_slice(&0xFFFFu16.to_be_bytes()); // timeout_ofs = 0xFFFF!
    raw_psd.push(2); // timeout_time = 2s
    raw_psd.push(1);
    raw_psd.extend_from_slice(&1001u16.to_be_bytes()); // ITEM0002.DAT
    raw_psd.extend_from_slice(&6u16.to_be_bytes()); // sel 1 -> unit 6
    while raw_psd.len() % 8 != 0 {
        raw_psd.push(0);
    }

    // 3. PlayList LID 3 at unit 6 (byte 48)
    raw_psd.push(0x10);
    raw_psd.push(1);
    raw_psd.extend_from_slice(&3u16.to_be_bytes()); // lid 3
    raw_psd.extend_from_slice(&3u16.to_be_bytes());
    raw_psd.extend_from_slice(&0xFFFFu16.to_be_bytes());
    raw_psd.extend_from_slice(&0u16.to_be_bytes());
    raw_psd.extend_from_slice(&0u16.to_be_bytes());
    raw_psd.push(0);
    raw_psd.push(0);
    raw_psd.extend_from_slice(&2u16.to_be_bytes()); // track 2
    while raw_psd.len() % 8 != 0 {
        raw_psd.push(0);
    }

    let psd = PsdTable::parse(&raw_psd, 8).unwrap();
    let mut engine = PbcEngine::new(lot, psd);

    let act1 = engine.start().expect("start action");
    assert_eq!(act1, PbcAction::DisplayStillMenu { item_id: 1000, segment_index: 1, nos: 1, bsn: 1, timeout_sec: 4 });
    assert!(engine.has_active_timer());
    assert_eq!(engine.remaining_timer_ms(), Some(4000));

    // Tick 2.0s -> remaining 2.0s
    assert!(engine.tick(2000).is_none());
    assert!(engine.has_active_timer());
    assert_eq!(engine.remaining_timer_ms(), Some(2000));

    // Tick 2.1s -> fires timeout to unit 3 (LID 2)!
    let act2 = engine.tick(2100).expect("timeout fires action");
    assert_eq!(act2, PbcAction::DisplayStillMenu { item_id: 1001, segment_index: 2, nos: 1, bsn: 1, timeout_sec: 2 });
    assert!(engine.has_active_timer());
    assert_eq!(engine.remaining_timer_ms(), Some(2000));

    // LID 2 has timeout_ofs = 0xFFFF; when timeout expires, it should not jump and should stop the timer
    let act3 = engine.tick(2500);
    assert!(act3.is_none(), "timeout_ofs == 0xFFFF should not trigger action");
    assert!(!engine.has_active_timer(), "timer must be deactivated after expiring with 0xFFFF offset");
    assert_eq!(engine.remaining_timer_ms(), None);
}

#[test]
fn test_pbc_selection_list_loop_count_repetitions() {
    let mut raw_lot = vec![0u8; 16];
    raw_lot[2] = 0; raw_lot[3] = 0; // LID 1 -> unit 0
    raw_lot[4] = 0; raw_lot[5] = 3; // LID 2 -> unit 3
    let lot = LotTable::parse(&raw_lot, 8).unwrap();

    let mut raw_psd = Vec::new();
    // 1. SelectionList LID 1 at unit 0: motion menu (item_id = 2), loop_count = 3, timeout = 4s, timeout_ofs = unit 3
    raw_psd.push(0x18);
    raw_psd.push(0);
    raw_psd.push(1); // nos = 1
    raw_psd.push(1); // bsn = 1
    raw_psd.extend_from_slice(&1u16.to_be_bytes()); // lid 1
    raw_psd.extend_from_slice(&0xFFFFu16.to_be_bytes()); // prev
    raw_psd.extend_from_slice(&0xFFFFu16.to_be_bytes()); // next
    raw_psd.extend_from_slice(&0xFFFFu16.to_be_bytes()); // ret
    raw_psd.extend_from_slice(&0xFFFFu16.to_be_bytes()); // def
    raw_psd.extend_from_slice(&3u16.to_be_bytes()); // timeout_ofs = unit 3 (EndList)
    raw_psd.push(4); // timeout_time = 4s
    raw_psd.push(3); // loop_count = 3 (play 3 times)
    raw_psd.extend_from_slice(&2u16.to_be_bytes()); // item_id = 2 (motion menu track 2)
    raw_psd.extend_from_slice(&3u16.to_be_bytes()); // sel 1 -> unit 3
    while raw_psd.len() % 8 != 0 {
        raw_psd.push(0);
    }

    // 2. EndList at unit 3 (byte 24)
    raw_psd.push(0x1F);
    raw_psd.push(0);
    raw_psd.extend_from_slice(&0u16.to_be_bytes());
    raw_psd.extend_from_slice(&[0u8; 4]);
    while raw_psd.len() % 8 != 0 {
        raw_psd.push(0);
    }

    let psd = PsdTable::parse(&raw_psd, 8).unwrap();
    let mut engine = PbcEngine::new(lot, psd);

    // Initial start: begins 1st loop of motion menu
    let act1 = engine.start().expect("start action");
    assert_eq!(
        act1,
        PbcAction::PlayMotionMenu {
            track_number: 2,
            item_id: 2,
            nos: 1,
            bsn: 1,
            timeout_sec: 4,
        }
    );
    assert_eq!(engine.remaining_selection_loops(), Some(3));
    // Timeout timer is NOT active while video is looping
    assert!(!engine.has_active_timer());
    assert_eq!(engine.remaining_timer_ms(), None);

    // 1st play finishes -> repeats for 2nd loop
    let act2 = engine.on_item_finished().expect("repeat loop 2");
    assert_eq!(
        act2,
        PbcAction::PlayMotionMenu {
            track_number: 2,
            item_id: 2,
            nos: 1,
            bsn: 1,
            timeout_sec: 4,
        }
    );
    assert_eq!(engine.remaining_selection_loops(), Some(2));
    assert!(!engine.has_active_timer());

    // 2nd play finishes -> repeats for 3rd loop
    let act3 = engine.on_item_finished().expect("repeat loop 3");
    assert_eq!(
        act3,
        PbcAction::PlayMotionMenu {
            track_number: 2,
            item_id: 2,
            nos: 1,
            bsn: 1,
            timeout_sec: 4,
        }
    );
    assert_eq!(engine.remaining_selection_loops(), Some(1));
    assert!(!engine.has_active_timer());

    // 3rd play finishes -> all loops completed, enters timeout wait phase!
    let finish_act = engine.on_item_finished();
    assert!(finish_act.is_none(), "after loops are exhausted, no new video plays; wait timer starts");
    assert_eq!(engine.remaining_selection_loops(), Some(0));
    assert!(engine.has_active_timer(), "timeout timer must now be active");
    assert_eq!(engine.remaining_timer_ms(), Some(4000));

    // Tick 2.0s -> remaining 2.0s
    assert!(engine.tick(2000).is_none());
    assert!(engine.has_active_timer());
    assert_eq!(engine.remaining_timer_ms(), Some(2000));

    // Tick 2.1s -> timeout expires and jumps to unit 3 (EndList)!
    let timeout_act = engine.tick(2100).expect("timeout action");
    assert_eq!(timeout_act, PbcAction::End);
    assert!(!engine.has_active_timer());
}

#[test]
fn test_pbc_selection_list_loop_count_infinite() {
    let mut raw_lot = vec![0u8; 16];
    raw_lot[2] = 0; raw_lot[3] = 0; // LID 1 -> unit 0
    let lot = LotTable::parse(&raw_lot, 8).unwrap();

    let mut raw_psd = Vec::new();
    // SelectionList LID 1 at unit 0: motion menu (item_id = 2), loop_count = 0 (infinite), timeout = 5s
    raw_psd.push(0x18);
    raw_psd.push(0);
    raw_psd.push(1);
    raw_psd.push(1);
    raw_psd.extend_from_slice(&1u16.to_be_bytes());
    raw_psd.extend_from_slice(&0xFFFFu16.to_be_bytes());
    raw_psd.extend_from_slice(&0xFFFFu16.to_be_bytes());
    raw_psd.extend_from_slice(&0xFFFFu16.to_be_bytes());
    raw_psd.extend_from_slice(&0xFFFFu16.to_be_bytes());
    raw_psd.extend_from_slice(&0xFFFFu16.to_be_bytes());
    raw_psd.push(5);
    raw_psd.push(0x80); // bit 7 set, loop count bits 0..6 = 0 (infinite)
    raw_psd.extend_from_slice(&2u16.to_be_bytes());
    raw_psd.extend_from_slice(&0xFFFFu16.to_be_bytes());
    while raw_psd.len() % 8 != 0 {
        raw_psd.push(0);
    }

    let psd = PsdTable::parse(&raw_psd, 8).unwrap();
    let mut engine = PbcEngine::new(lot, psd);

    let act1 = engine.start().expect("start action");
    assert_eq!(
        act1,
        PbcAction::PlayMotionMenu {
            track_number: 2,
            item_id: 2,
            nos: 1,
            bsn: 1,
            timeout_sec: 5,
        }
    );

    // Loops repeatedly without entering timeout
    for _ in 0..10 {
        let repeat = engine.on_item_finished().expect("infinite loop repeat");
        assert_eq!(
            repeat,
            PbcAction::PlayMotionMenu {
                track_number: 2,
                item_id: 2,
                nos: 1,
                bsn: 1,
                timeout_sec: 5,
            }
        );
        assert!(!engine.has_active_timer(), "infinite loop never activates timeout countdown");
    }
}

#[test]
fn test_kernel_pbc_clock_driver_and_waiting_delay() {
    let mut raw_lot = vec![0u8; 16];
    raw_lot[2] = 0; raw_lot[3] = 0; // LID 1 -> unit 0
    raw_lot[4] = 0; raw_lot[5] = 2; // LID 2 -> unit 2
    let lot = LotTable::parse(&raw_lot, 8).unwrap();

    let mut raw_psd = Vec::new();
    // 1. PlayList LID 1 at unit 0: wtime = 2 seconds, next = unit 2 (EndList)
    raw_psd.push(0x10);
    raw_psd.push(1);
    raw_psd.extend_from_slice(&1u16.to_be_bytes());
    raw_psd.extend_from_slice(&0xFFFFu16.to_be_bytes());
    raw_psd.extend_from_slice(&2u16.to_be_bytes()); // next = unit 2
    raw_psd.extend_from_slice(&0xFFFFu16.to_be_bytes());
    raw_psd.extend_from_slice(&0u16.to_be_bytes());
    raw_psd.push(2); // wtime = 2 seconds
    raw_psd.push(0);
    raw_psd.extend_from_slice(&2u16.to_be_bytes());
    while raw_psd.len() % 8 != 0 {
        raw_psd.push(0);
    }

    // 2. EndList at unit 2 (byte 16)
    raw_psd.push(0x1F);
    raw_psd.push(0);
    raw_psd.extend_from_slice(&0u16.to_be_bytes());
    raw_psd.extend_from_slice(&[0u8; 4]); // pad to 8 bytes
    while raw_psd.len() % 8 != 0 {
        raw_psd.push(0);
    }

    let psd = PsdTable::parse(&raw_psd, 8).unwrap();

    let mut mode = ActiveDiscMode::Vcd20Classic;
    let mut pbc = PbcEngine::new(lot, psd);
    let _ = pbc.start();
    // Finish item to enter WaitingDelay
    assert!(pbc.on_item_finished().is_none());
    let mut kernel_pbc = Some(pbc);

    assert!(has_active_pbc_timer(mode, &kernel_pbc), "kernel must report active PBC timer");

    // Tick 1.0s -> does not expire yet
    let fired = tick_pbc(mode, &mut kernel_pbc, 1000).is_some();
    assert!(!fired);
    assert!(has_active_pbc_timer(mode, &kernel_pbc));

    // Tick 1.5s -> expires! Executes EndList and returns true
    let fired2 = tick_pbc(mode, &mut kernel_pbc, 1500).is_some();
    assert!(fired2, "waiting delay expiration must execute EndList action");
    assert!(!has_active_pbc_timer(mode, &kernel_pbc), "state after End must have no active timer");

    // In Vcd10Linear mode, tick_pbc is ignored
    mode = ActiveDiscMode::Vcd10Linear;
    assert!(!has_active_pbc_timer(mode, &kernel_pbc));
    assert_eq!(tick_pbc(mode, &mut kernel_pbc, 1000).is_some(), false);
}

#[test]
fn test_kernel_pbc_clock_driver_selection_timeout_to_end() {
    let mut raw_lot = vec![0u8; 16];
    raw_lot[2] = 0; raw_lot[3] = 0; // LID 1 -> unit 0
    raw_lot[4] = 0; raw_lot[5] = 3; // LID 2 -> unit 3
    let lot = LotTable::parse(&raw_lot, 8).unwrap();

    let mut raw_psd = Vec::new();
    // 1. SelectionList LID 1 at unit 0: timeout = 3s, timeout_ofs = unit 3 (EndList)
    raw_psd.push(0x18);
    raw_psd.push(0);
    raw_psd.push(1);
    raw_psd.push(1);
    raw_psd.extend_from_slice(&1u16.to_be_bytes());
    raw_psd.extend_from_slice(&0xFFFFu16.to_be_bytes());
    raw_psd.extend_from_slice(&0xFFFFu16.to_be_bytes());
    raw_psd.extend_from_slice(&0xFFFFu16.to_be_bytes());
    raw_psd.extend_from_slice(&0xFFFFu16.to_be_bytes());
    raw_psd.extend_from_slice(&3u16.to_be_bytes()); // timeout -> unit 3
    raw_psd.push(3); // 3s
    raw_psd.push(1);
    raw_psd.extend_from_slice(&1000u16.to_be_bytes());
    raw_psd.extend_from_slice(&3u16.to_be_bytes());
    while raw_psd.len() % 8 != 0 {
        raw_psd.push(0);
    }

    // 2. EndList at unit 3 (byte 24)
    raw_psd.push(0x1F);
    raw_psd.push(0);
    raw_psd.extend_from_slice(&0u16.to_be_bytes());
    raw_psd.extend_from_slice(&[0u8; 4]);
    while raw_psd.len() % 8 != 0 {
        raw_psd.push(0);
    }

    let psd = PsdTable::parse(&raw_psd, 8).unwrap();

    let mode = ActiveDiscMode::Vcd20Classic;
    let mut pbc = PbcEngine::new(lot, psd);
    let _ = pbc.start(); // starts LID 1
    let mut kernel_pbc = Some(pbc);

    assert!(has_active_pbc_timer(mode, &kernel_pbc), "kernel must report active SelectionList timeout");

    // Tick 1.5s
    let fired = tick_pbc(mode, &mut kernel_pbc, 1500).is_some();
    assert!(!fired);
    assert!(has_active_pbc_timer(mode, &kernel_pbc));

    // Tick 2.0s -> expires! Executes EndList and returns true
    let fired2 = tick_pbc(mode, &mut kernel_pbc, 2000).is_some();
    assert!(fired2, "timeout must trigger EndList action");
    assert!(!has_active_pbc_timer(mode, &kernel_pbc), "after End, timer is inactive");
}
