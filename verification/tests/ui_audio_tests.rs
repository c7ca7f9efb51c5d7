use vcd30_player::audio::channel::AudioChannelMode;
use vcd30_player::interactive::kernel::{ActiveDiscMode, PlaybackMode};
use vcd30_player::ui::app::{
    menu_remote_key, page_status, remote_status, video_key, window_title, DrawerTab, PressedKeys, VideoKey,
};
use vcd30_player::ui::osd::OsdMode;
use vcd30_player::video::player::VideoPlayState;

#[test]
fn test_channel_cycle() {
    assert_eq!(AudioChannelMode::Stereo.cycle(), AudioChannelMode::LeftOnly);
    assert_eq!(AudioChannelMode::LeftOnly.cycle(), AudioChannelMode::RightOnly);
    assert_eq!(AudioChannelMode::RightOnly.cycle(), AudioChannelMode::Stereo);
}

#[test]
fn test_apply_stereo() {
    let mut samples = vec![1.0f32, 2.0f32, 3.0f32, 4.0f32];
    AudioChannelMode::Stereo.apply_to_interleaved_samples(&mut samples);
    assert_eq!(samples, vec![1.0, 2.0, 3.0, 4.0]);
}

#[test]
fn test_apply_left_only() {
    let mut samples = vec![1.0f32, 2.0f32, 3.0f32, 4.0f32];
    AudioChannelMode::LeftOnly.apply_to_interleaved_samples(&mut samples);
    assert_eq!(samples, vec![1.0, 1.0, 3.0, 3.0]);
}

#[test]
fn test_apply_right_only() {
    let mut samples = vec![1.0f32, 2.0f32, 3.0f32, 4.0f32];
    AudioChannelMode::RightOnly.apply_to_interleaved_samples(&mut samples);
    assert_eq!(samples, vec![2.0, 2.0, 4.0, 4.0]);
}

#[test]
fn apply_odd_length_keeps_last_sample() {
    let mut samples = vec![1i16, 2, 3];
    AudioChannelMode::RightOnly.apply_to_interleaved_samples(&mut samples);
    assert_eq!(samples, vec![2, 2, 3]);
}

#[test]
fn test_audio_channel_mode_cycle_and_apply() {
    let mode = AudioChannelMode::Stereo;
    assert_eq!(mode.label(), "🔊 立体声");
    assert_eq!(mode.icon(), "🔊");
    assert_eq!(mode.cycle(), AudioChannelMode::LeftOnly);
    assert_eq!(mode.cycle().icon(), "🎤");
    assert_eq!(mode.cycle().cycle(), AudioChannelMode::RightOnly);
    assert_eq!(mode.cycle().cycle().icon(), "🎵");
    assert_eq!(mode.cycle().cycle().cycle(), AudioChannelMode::Stereo);

    let mut samples = vec![100i16, 200i16, 300i16, 400i16];
    AudioChannelMode::LeftOnly.apply_to_interleaved_samples(&mut samples);
    assert_eq!(samples, vec![100, 100, 300, 300], "Left channel must be copied to right channel");

    let mut samples2 = vec![100i16, 200i16, 300i16, 400i16];
    AudioChannelMode::RightOnly.apply_to_interleaved_samples(&mut samples2);
    assert_eq!(samples2, vec![200, 200, 400, 400], "Right channel must be copied to left channel");
}

#[test]
fn test_playback_mode_cycle() {
    let mode = PlaybackMode::Sequential;
    assert_eq!(mode.label(), "➡ 顺序播放");
    assert_eq!(mode.icon(), "➡");
    assert_eq!(mode.cycle(), PlaybackMode::ListRepeat);
    assert_eq!(mode.cycle().label(), "🔁 列表循环");
    assert_eq!(mode.cycle().icon(), "🔁");
    assert_eq!(mode.cycle().cycle(), PlaybackMode::SingleRepeat);
    assert_eq!(mode.cycle().cycle().label(), "🔂 单曲循环");
    assert_eq!(mode.cycle().cycle().icon(), "🔂");
    assert_eq!(mode.cycle().cycle().cycle(), PlaybackMode::Sequential);
}

#[test]
fn test_osd_mode_cycle() {
    assert_eq!(OsdMode::Auto.cycle(), OsdMode::AlwaysInfo);
    assert_eq!(OsdMode::AlwaysInfo.cycle(), OsdMode::Disabled);
    assert_eq!(OsdMode::Disabled.cycle(), OsdMode::Auto);
}

#[test]
fn test_osd_mode_icons_and_labels() {
    assert_eq!(OsdMode::Auto.icon(), "📺");
    assert_eq!(OsdMode::AlwaysInfo.icon(), "⏱");
    assert_eq!(OsdMode::Disabled.icon(), "🚫");
    assert_eq!(OsdMode::Auto.osd_label(), "OSD: AUTO");
    assert_eq!(OsdMode::AlwaysInfo.osd_label(), "OSD: INFO");
    assert_eq!(OsdMode::Disabled.osd_label(), "OSD: OFF");
}

#[test]
fn cycles_return_after_three_steps() {
    for m in [OsdMode::Auto, OsdMode::AlwaysInfo, OsdMode::Disabled] {
        assert_eq!(m.cycle().cycle().cycle(), m);
    }
    for m in [AudioChannelMode::Stereo, AudioChannelMode::LeftOnly, AudioChannelMode::RightOnly] {
        assert_eq!(m.cycle().cycle().cycle(), m);
    }
}

#[test]
fn drawer_tab_defaults_to_remote() {
    assert_eq!(DrawerTab::default(), DrawerTab::Remote);
    assert_ne!(VideoPlayState::Playing, VideoPlayState::Paused);
}

#[test]
fn menu_keys_follow_priority() {
    let none = PressedKeys::default();
    assert_eq!(menu_remote_key(&none), None);
    let mut k = PressedKeys::default();
    k.space = true;
    k.escape = true;
    assert_eq!(menu_remote_key(&k), Some(31));
    let mut k = PressedKeys::default();
    k.backspace = true;
    k.up = true;
    assert_eq!(menu_remote_key(&k), Some(32));
    let mut k = PressedKeys::default();
    k.down = true;
    assert_eq!(menu_remote_key(&k), Some(35));
    let mut k = PressedKeys::default();
    k.right = true;
    k.digits[4] = true;
    assert_eq!(menu_remote_key(&k), Some(37));
    let mut k = PressedKeys::default();
    k.digits[7] = true;
    k.digits[2] = true;
    assert_eq!(menu_remote_key(&k), Some(2));
}

#[test]
fn video_keys_by_mode() {
    let mut k = PressedKeys::default();
    k.escape = true;
    assert_eq!(video_key(&k, ActiveDiscMode::Vcd20Classic, true), VideoKey::PbcReturn);
    assert_eq!(video_key(&k, ActiveDiscMode::Vcd20Classic, false), VideoKey::StopVideo);
    assert_eq!(video_key(&k, ActiveDiscMode::Vcd30Interactive, true), VideoKey::StopVideo);
    let mut k = PressedKeys::default();
    k.left = true;
    assert_eq!(video_key(&k, ActiveDiscMode::Vcd10Linear, false), VideoKey::Seek(-5));
    let mut k = PressedKeys::default();
    k.space = true;
    k.right = true;
    assert_eq!(video_key(&k, ActiveDiscMode::Vcd10Linear, false), VideoKey::TogglePause);
    let mut k = PressedKeys::default();
    k.enter = true;
    assert_eq!(video_key(&k, ActiveDiscMode::Vcd10Linear, false), VideoKey::Remote(31));
    assert_eq!(video_key(&k, ActiveDiscMode::Vcd30Interactive, false), VideoKey::Nothing);
    let mut k = PressedKeys::default();
    k.digits[9] = true;
    assert_eq!(video_key(&k, ActiveDiscMode::Vcd20Classic, true), VideoKey::Remote(9));
}

#[test]
fn captions_of_page_and_track() {
    assert_eq!(window_title("MENU.CHM", "", None), "vcd30player - MENU.CHM");
    assert_eq!(window_title("MENU.CHM", "Main", Some((2, "x"))), "vcd30player - MENU.CHM (Main)");
    assert_eq!(window_title("", "", Some((3, "Song"))), "vcd30player - 轨道 03 (Song)");
    assert_eq!(window_title("", "", None), "vcd30player");
    assert_eq!(page_status("A.CHM", "T", None), "📄 A.CHM (T)");
    assert_eq!(page_status("", "", Some((12, "AVSEQ12.DAT"))), "🎵 轨道 12 (AVSEQ12.DAT)");
    assert_eq!(page_status("", "", None), "未载入页面");
}

#[test]
fn status_after_remote_key() {
    assert_eq!(
        remote_status(&vec![1, 2], None, None, None, "", ""),
        Some("输入曲目: 12 (按 Enter 确认或等待)".to_string())
    );
    assert_eq!(
        remote_status(&vec![], Some(0), Some(1), Some((2, "AVSEQ02.DAT")), "", ""),
        Some("正在播放: 轨道 02 (AVSEQ02.DAT)".to_string())
    );
    assert_eq!(remote_status(&vec![], Some(0), Some(1), None, "", "B.CHM"), None);
    assert_eq!(
        remote_status(&vec![], None, None, None, "A.CHM", "B.CHM"),
        Some("已切换至: B.CHM".to_string())
    );
    assert_eq!(remote_status(&vec![], None, None, None, "A.CHM", ""), None);
    assert_eq!(remote_status(&vec![], None, None, None, "A.CHM", "A.CHM"), None);
}
