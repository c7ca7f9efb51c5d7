use vcd30_player::i18n::{
    default_language, locale_for_tag, AppSettings, I18nManager, LocaleData, LocaleMeta,
};

fn locale(id: &str, name: &str, entries: &[(&str, &str)]) -> LocaleData {
    LocaleData {
        meta: LocaleMeta { locale: id.to_string(), name: name.to_string(), author: String::new() },
        entries: entries.iter().map(|(k, v)| (k.to_string(), v.to_string())).collect(),
    }
}

/// The two built-in locales, with the texts the player ships for these keys.
fn builtin() -> Vec<LocaleData> {
    vec![
        locale(
            "zh-CN",
            "简体中文",
            &[
                ("controls.play", "播放 (Space)"),
                ("titlebar.close", "关闭 (Alt+F4)"),
                ("status.playing_track", "正在播放: 轨道 {0} ({1})"),
            ],
        ),
        locale(
            "en-US",
            "English",
            &[
                ("controls.play", "Play (Space)"),
                ("titlebar.close", "Close (Alt+F4)"),
                ("status.playing_track", "Now Playing: Track {0} ({1})"),
            ],
        ),
    ]
}

fn manager() -> I18nManager {
    I18nManager::new(builtin(), AppSettings { language: default_language() })
}

#[test]
fn test_builtin_locales_loaded() {
    let i18n = manager();
    assert!(i18n.has_locale("zh-CN"));
    assert!(i18n.has_locale("en-US"));
    assert!(i18n.available_locales().len() >= 2);
}

#[test]
fn test_translation_and_fallbacks() {
    let mut i18n = manager();

    i18n.set_language("en-US".to_string());
    assert_eq!(i18n.active_locale(), "en-US");
    assert_eq!(i18n.t("controls.play"), "Play (Space)");
    assert_eq!(i18n.t("titlebar.close"), "Close (Alt+F4)");

    i18n.set_language("zh-CN".to_string());
    assert_eq!(i18n.active_locale(), "zh-CN");
    assert_eq!(i18n.t("controls.play"), "播放 (Space)");
    assert_eq!(i18n.t("titlebar.close"), "关闭 (Alt+F4)");

    assert_eq!(i18n.t("non_existent_key_12345"), "non_existent_key_12345");
}

#[test]
fn test_placeholder_formatting() {
    let mut i18n = manager();
    i18n.set_language("en-US".to_string());
    let formatted = i18n.t_fmt("status.playing_track", &["02", "Track Title"]);
    assert_eq!(formatted, "Now Playing: Track 02 (Track Title)");

    i18n.set_language("zh-CN".to_string());
    let formatted_cn = i18n.t_fmt("status.playing_track", &["02", "歌曲名称"]);
    assert_eq!(formatted_cn, "正在播放: 轨道 02 (歌曲名称)");
}

#[test]
fn test_auto_resolution() {
    let mut i18n = manager();
    i18n.set_language("auto".to_string());
    assert_eq!(i18n.selected_language(), "auto");
    assert!(i18n.active_locale() == "zh-CN" || i18n.active_locale() == "en-US");
}

#[test]
fn unknown_language_falls_back_to_english() {
    let mut i18n = manager();
    i18n.set_language("xx-YY".to_string());
    assert_eq!(i18n.selected_language(), "xx-YY");
    assert_eq!(i18n.active_locale(), "en-US");
    assert_eq!(i18n.resolved_locale_name(), "English");
    assert_eq!(i18n.settings().language, "xx-YY");
}

#[test]
fn missing_key_falls_back_through_english_then_chinese() {
    let mut ls = builtin();
    ls[1].entries.push(("only.en".to_string(), "EN".to_string()));
    ls[0].entries.push(("only.zh".to_string(), "中".to_string()));
    ls.push(locale("ja-JP", "日本語", &[("controls.play", "再生")]));
    let mut i18n = I18nManager::new(ls, AppSettings { language: "ja-JP".to_string() });
    assert_eq!(i18n.active_locale(), "ja-JP");
    assert_eq!(i18n.t("controls.play"), "再生");
    assert_eq!(i18n.t("only.en"), "EN");
    assert_eq!(i18n.t("only.zh"), "中");
    i18n.set_language("en-US".to_string());
    assert_eq!(i18n.t("only.zh"), "中");
}

#[test]
fn language_list_puts_builtins_first_then_sorts_by_name() {
    let mut ls = vec![locale("fr-FR", "Français", &[]), locale("de-DE", "Deutsch", &[])];
    ls.extend(builtin());
    let mut i18n = I18nManager::new(ls, AppSettings::with_default_language());
    let ids: Vec<&str> = i18n.available_locales().iter().map(|(id, _)| id.as_str()).collect();
    assert_eq!(ids, vec!["zh-CN", "en-US", "de-DE", "fr-FR"]);

    // a later pack replaces the one with the same id, and the list follows
    i18n.reload_locales(vec![locale("fr-FR", "Aaa", &[]), locale("es-ES", "Español", &[])]);
    let list: Vec<(String, String)> = i18n.available_locales().to_vec();
    assert_eq!(list[2], ("fr-FR".to_string(), "Aaa".to_string()));
    assert_eq!(list[3].0, "de-DE");
    assert_eq!(list[4].0, "es-ES");
}

#[test]
fn placeholders_are_replaced_everywhere_and_in_turn() {
    let ls = vec![locale("en-US", "English", &[("k", "{0}-{0}-{1}")])];
    let i18n = I18nManager::new(ls, AppSettings { language: "en-US".to_string() });
    assert_eq!(i18n.t_fmt("k", &["a", "b"]), "a-a-b");
    // an argument that itself holds a later placeholder is replaced again
    assert_eq!(i18n.t_fmt("k", &["{1}", "z"]), "z-z-z");
}

#[test]
fn system_locale_tags() {
    assert_eq!(locale_for_tag(Some("zh_TW")), "zh-CN");
    assert_eq!(locale_for_tag(Some("ZH-cn")), "zh-CN");
    assert_eq!(locale_for_tag(Some("en-GB")), "en-US");
    assert_eq!(locale_for_tag(Some("z")), "en-US");
    assert_eq!(locale_for_tag(None), "en-US");
    assert_eq!(default_language(), "auto");
}
