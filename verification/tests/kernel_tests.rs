use vcd30_player::assets::cls::AutoRunConfig;
use vcd30_player::vcd::detector::VcdDiscType;
use vcd30_player::interactive::kernel::{
    clear_canvas, draw_variable_texts, get_variable_by_name, set_variable_by_name, initial_mode, startup_plan, ActiveDiscMode,
    draw_char_on_canvas, draw_string_on_canvas, karaoke_candidates, next_track_index, prev_track_index, KaraokePlaylist, NextTrack,
    PageHistory, PlaybackMode, hotspot_action, HotspotAction, pbc_missing_message, pbc_page_name,
};
use vcd30_player::vcd::pbc::PbcAction;
use vcd30_player::assets::chm::MapArea;

#[test]
fn karaoke_get_after_set() {
    let mut p = KaraokePlaylist::new();
    // setting past the end appends at the next slot
    p.set(3, 42);
    assert_eq!(p.len(), 1);
    assert_eq!(p.get(1), 42);
    assert_eq!(p.get(3), -1);
    p.set(1, 5);
    assert_eq!(p.get(1), 5);
    assert_eq!(p.get(0), -1);
}

#[test]
fn karaoke_del_undoes_ins() {
    let mut p = KaraokePlaylist::new();
    p.set(1, 4);
    p.set(2, 8);
    p.ins(2, 6);
    assert_eq!((p.get(1), p.get(2), p.get(3)), (4, 6, 8));
    p.del(2);
    assert_eq!((p.get(1), p.get(2), p.get(3)), (4, 8, -1));
}

#[test]
fn karaoke_play_takes_songs_in_order() {
    let mut p = KaraokePlaylist::new();
    p.set(1, 7);
    p.set(2, 9);
    assert_eq!(p.play(), Some(7));
    assert_eq!(p.play(), Some(9));
    assert_eq!(p.play(), None);
    assert!(p.is_empty());
}

#[test]
fn karaoke_song_files() {
    let c = karaoke_candidates(7);
    assert_eq!(c.len(), 4);
    assert_eq!(c[0], "MPEGAV/MUSIC07.DAT");
    assert_eq!(karaoke_candidates(12)[0], "MPEGAV/MUSIC12.DAT");
}

#[test]
fn page_history_back_then_forward() {
    let mut h = PageHistory::new();
    h.visit("HOME.CHM");
    assert_eq!(h.go_back("PAGE2.CHM").as_deref(), Some("HOME.CHM"));
    assert_eq!(h.go_forward("HOME.CHM").as_deref(), Some("PAGE2.CHM"));
    assert_eq!(h.go_forward("PAGE2.CHM"), None);
}

#[test]
fn track_navigation() {
    assert_eq!(next_track_index(3, Some(0), false, PlaybackMode::Sequential), NextTrack::Play(1));
    assert_eq!(next_track_index(3, Some(2), false, PlaybackMode::Sequential), NextTrack::Stop);
    assert_eq!(next_track_index(3, Some(2), false, PlaybackMode::ListRepeat), NextTrack::Play(0));
    assert_eq!(next_track_index(0, None, true, PlaybackMode::Sequential), NextTrack::Nothing);
    assert_eq!(prev_track_index(3, Some(0), PlaybackMode::ListRepeat), Some(2));
}

#[test]
fn playback_mode_cycles_in_three() {
    for m in [PlaybackMode::Sequential, PlaybackMode::ListRepeat, PlaybackMode::SingleRepeat] {
        assert_eq!(m.cycle().cycle().cycle(), m);
    }
}

fn px(canvas: &[u8], x: usize, y: usize) -> [u8; 4] {
    let o = (y * 352 + x) * 4;
    [canvas[o], canvas[o + 1], canvas[o + 2], canvas[o + 3]]
}

#[test]
fn draws_digit_glyph() {
    let mut canvas = vec![0u8; 352 * 288 * 4];
    let red = [255, 0, 0, 255];
    draw_char_on_canvas(&mut canvas, 10, 20, '1', red);
    // row 1 of '1' is 0x18: columns 3 and 4
    assert_eq!(px(&canvas, 13, 21), red);
    assert_eq!(px(&canvas, 14, 21), red);
    assert_eq!(px(&canvas, 12, 21), [0, 0, 0, 0]);
    // row 0 is empty
    assert_eq!(px(&canvas, 13, 20), [0, 0, 0, 0]);
    // unknown characters draw nothing
    let mut other = vec![0u8; 352 * 288 * 4];
    draw_char_on_canvas(&mut other, 10, 20, 'x', red);
    assert!(other.iter().all(|b| *b == 0));
}

#[test]
fn draws_clipped_at_canvas_edge() {
    let mut canvas = vec![0u8; 352 * 288 * 4];
    let c = [1, 2, 3, 4];
    draw_char_on_canvas(&mut canvas, 348, 280, '8', c);
    // '8' row 1 is 0x3c: columns 2..=5, of which 348+2, 348+3 lie on the canvas
    assert_eq!(px(&canvas, 350, 281), c);
    assert_eq!(px(&canvas, 351, 281), c);
    assert_eq!(px(&canvas, 0, 282), [0, 0, 0, 0]);
}

#[test]
fn draws_strings_with_spacing() {
    let mut canvas = vec![0u8; 352 * 288 * 4];
    let c = [9, 9, 9, 255];
    draw_string_on_canvas(&mut canvas, 0, 0, "1 -", c);
    // '1' at x 0, the space moves to 9 + 8 = 17 where '-' (rows 6, 7: 0x7e) is drawn
    assert_eq!(px(&canvas, 3, 1), c);
    assert_eq!(px(&canvas, 17 + 1, 6), c);
    assert_eq!(px(&canvas, 17, 6), [0, 0, 0, 0]);
}

#[test]
fn opening_mode_and_page() {
    let v3 = VcdDiscType::Vcd30Interactive { version_str: "3.0".to_string(), has_vcd20_layer: false, entry_count: 0 };
    assert_eq!(initial_mode(&v3), ActiveDiscMode::Vcd30Interactive);
    assert_eq!(initial_mode(&VcdDiscType::Vcd20WithPbc { entry_count: 1, segment_count: 0 }), ActiveDiscMode::Vcd20Classic);
    assert_eq!(initial_mode(&VcdDiscType::Vcd20Linear { entry_count: 1 }), ActiveDiscMode::Vcd10Linear);

    assert_eq!(startup_plan(None), ("HOMEPAGE.CHM".to_string(), None));
    let cfg = AutoRunConfig {
        user_name: String::new(),
        title_name: String::new(),
        cover_ybm: "COVER.YBM".to_string(),
        license_signature: String::new(),
        opening_mpeg: Some("MUSIC01.DAT".to_string()),
        homepage_chm: "MAIN.CHM".to_string(),
    };
    assert_eq!(startup_plan(Some(&cfg)), ("MAIN.CHM".to_string(), Some("MUSIC01.DAT".to_string())));
    let quiet = AutoRunConfig { opening_mpeg: Some(String::new()), ..cfg };
    assert_eq!(startup_plan(Some(&quiet)), ("MAIN.CHM".to_string(), None));
}

#[test]
fn clearing_the_canvas() {
    let mut c = vec![7u8; 10];
    clear_canvas(&mut c);
    assert_eq!(c, vec![0, 0, 0, 255, 0, 0, 0, 255, 7, 7]);
}

#[test]
fn variables_by_name() {
    let mut vars = [0i32; 26];
    set_variable_by_name(&mut vars, "i_c", 7);
    assert_eq!(get_variable_by_name(&vars, "C"), 7);
    assert_eq!(get_variable_by_name(&vars, "i_c"), 7);
    set_variable_by_name(&mut vars, "12", 9);
    assert_eq!(vars.iter().sum::<i32>(), 7);
    assert_eq!(get_variable_by_name(&vars, "12"), 0);
}

#[test]
fn variable_texts_show_values() {
    let mut vars = [0i32; 26];
    vars[0] = -1;
    let mut canvas = vec![255u8; 352 * 288 * 4];
    let texts = vec![(0, 0, "i_a")];
    draw_variable_texts(&mut canvas, &texts, &vars);
    // "-1": '-' at x 0 (rows 6, 7 are 0x7e), then '1' at x 9 (row 1 is 0x18)
    assert_eq!(px(&canvas, 1, 6), [0, 0, 0, 255]);
    assert_eq!(px(&canvas, 12, 1), [0, 0, 0, 255]);
    assert_eq!(px(&canvas, 0, 6), [255, 255, 255, 255]);
}

fn area(target: &str, line: Option<u32>, overlay: bool) -> MapArea {
    MapArea {
        area_id: 1,
        x1: 0,
        y1: 0,
        x2: 10,
        y2: 10,
        target: target.to_string(),
        script_entry_line: line,
        is_overlay: overlay,
        micro_scripts: Vec::new(),
    }
}

#[test]
fn hotspot_actions_by_target() {
    assert_eq!(hotspot_action(&area("MENU.CHM", Some(12), false)), HotspotAction::RunScript(12));
    assert_eq!(
        hotspot_action(&area("  song01.dat ", None, false)),
        HotspotAction::PlayVideo("song01.dat".to_string())
    );
    assert_eq!(
        hotspot_action(&area("help.Chm", None, true)),
        HotspotAction::OpenPage("help.Chm".to_string(), true)
    );
    assert_eq!(hotspot_action(&area(".CHM", None, false)), HotspotAction::Ignore);
    assert_eq!(
        hotspot_action(&area(".chm", None, false)),
        HotspotAction::OpenPage(".chm".to_string(), false)
    );
    assert_eq!(
        hotspot_action(&area("DRUM.WAV\t", None, false)),
        HotspotAction::PlaySound("DRUM.WAV".to_string())
    );
    assert_eq!(hotspot_action(&area("PIC.YBM", None, false)), HotspotAction::Ignore);
    assert_eq!(hotspot_action(&area("", None, false)), HotspotAction::Ignore);
}

#[test]
fn pbc_page_names_and_errors() {
    let still = PbcAction::DisplayStillMenu { item_id: 1002, segment_index: 2, nos: 3, bsn: 1, timeout_sec: 0 };
    assert_eq!(pbc_page_name(&still), "PBC 菜单 (ITEM0002.DAT)");
    assert_eq!(pbc_missing_message(&still), "未找到段菜单文件: ITEM0002.DAT");
    let motion = PbcAction::PlayMotionMenu { track_number: 3, item_id: 3, nos: 2, bsn: 1, timeout_sec: 5 };
    assert_eq!(pbc_page_name(&motion), "PBC 动态选单 (3)");
    assert_eq!(pbc_missing_message(&motion), "未找到 PBC 动态选单轨道: 3");
    let track = PbcAction::PlayTrack { track_number: 12, item_id: 12, ptime: 0, wtime: 0 };
    assert_eq!(pbc_page_name(&track), "");
    assert_eq!(pbc_missing_message(&track), "未找到 PBC 轨道: 12");
    assert_eq!(pbc_page_name(&PbcAction::End), "");
}
