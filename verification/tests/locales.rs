use growth_companion::locales::{
    app_name, diary_window_title, main_window_title, pinboard_window_title, tray_quick_entry_label,
    tray_quit_label, tray_show_main_label, tray_toggle_autostart_label,
    tray_toggle_close_to_tray_label, tray_tooltip, Locale,
};

#[test]
fn parses_every_locale_tag_as_source_locale() {
    assert_eq!(Locale::from_tag("zh-CN"), Locale::ZhCn);
    assert_eq!(Locale::from_tag("en-US"), Locale::ZhCn);
    assert_eq!(Locale::from_tag("zh-HK"), Locale::ZhCn);
    assert_eq!(Locale::from_tag("zh-TW"), Locale::ZhCn);
    assert_eq!(Locale::from_tag("fr-FR"), Locale::ZhCn);
}

#[test]
fn native_shell_strings_use_simplified_chinese_only() {
    assert_eq!(app_name(Locale::ZhCn), "槿年");
    assert_eq!(diary_window_title(Locale::ZhCn), "快速记录");
    assert_eq!(pinboard_window_title(Locale::ZhCn), "槿年 置顶");
    assert_eq!(tray_tooltip(Locale::ZhCn), "槿年");
    assert_eq!(tray_show_main_label(Locale::ZhCn), "打开主窗口");
    assert_eq!(tray_quick_entry_label(Locale::ZhCn), "快速记录");
    assert_eq!(tray_toggle_close_to_tray_label(Locale::ZhCn), "关闭到托盘");
    assert_eq!(tray_toggle_autostart_label(Locale::ZhCn), "开机自启动");
    assert_eq!(tray_quit_label(Locale::ZhCn), "退出");
}

#[test]
fn main_window_title_is_the_app_name() {
    assert_eq!(main_window_title(Locale::default()), "槿年");
}
