//! The strings of the native shell (window titles and tray menu).
use vstd::prelude::*;

verus! {

pub const APP_NAME: &'static str = "槿年";
pub const DIARY_WINDOW_TITLE: &'static str = "快速记录";
pub const PINBOARD_WINDOW_TITLE: &'static str = "槿年 置顶";
pub const TRAY_SHOW_MAIN_LABEL: &'static str = "打开主窗口";
pub const TRAY_QUICK_ENTRY_LABEL: &'static str = "快速记录";
pub const TRAY_TOGGLE_CLOSE_TO_TRAY_LABEL: &'static str = "关闭到托盘";
pub const TRAY_TOGGLE_AUTOSTART_LABEL: &'static str = "开机自启动";
pub const TRAY_QUIT_LABEL: &'static str = "退出";

/// The display locale of the native shell. Simplified Chinese is the only one.
#[derive(Debug, Clone, Copy, PartialEq, Eq)]
pub enum Locale {
    ZhCn,
}

impl Default for Locale {
    fn default() -> (r: Locale)
        ensures
            r == Locale::ZhCn,
    {
        Locale::ZhCn
    }
}

impl Locale {
    /// Every language tag maps to the one supported locale.
    pub fn from_tag(_value: &str) -> (r: Locale)
        ensures
            r == Locale::ZhCn,
    {
        Locale::ZhCn
    }
}

pub fn app_name(_locale: Locale) -> (r: &'static str)
    ensures
        r@ == APP_NAME@,
{
    APP_NAME
}

pub fn main_window_title(locale: Locale) -> (r: &'static str)
    ensures
        r@ == APP_NAME@,
{
    app_name(locale)
}

pub fn diary_window_title(_locale: Locale) -> (r: &'static str)
    ensures
        r@ == DIARY_WINDOW_TITLE@,
{
    DIARY_WINDOW_TITLE
}

pub fn pinboard_window_title(_locale: Locale) -> (r: &'static str)
    ensures
        r@ == PINBOARD_WINDOW_TITLE@,
{
    PINBOARD_WINDOW_TITLE
}

pub fn tray_tooltip(locale: Locale) -> (r: &'static str)
    ensures
        r@ == APP_NAME@,
{
    app_name(locale)
}

pub fn tray_show_main_label(_locale: Locale) -> (r: &'static str)
    ensures
        r@ == TRAY_SHOW_MAIN_LABEL@,
{
    TRAY_SHOW_MAIN_LABEL
}

pub fn tray_quick_entry_label(_locale: Locale) -> (r: &'static str)
    ensures
        r@ == TRAY_QUICK_ENTRY_LABEL@,
{
    TRAY_QUICK_ENTRY_LABEL
}

pub fn tray_toggle_close_to_tray_label(_locale: Locale) -> (r: &'static str)
    ensures
        r@ == TRAY_TOGGLE_CLOSE_TO_TRAY_LABEL@,
{
    TRAY_TOGGLE_CLOSE_TO_TRAY_LABEL
}

pub fn tray_toggle_autostart_label(_locale: Locale) -> (r: &'static str)
    ensures
        r@ == TRAY_TOGGLE_AUTOSTART_LABEL@,
{
    TRAY_TOGGLE_AUTOSTART_LABEL
}

pub fn tray_quit_label(_locale: Locale) -> (r: &'static str)
    ensures
        r@ == TRAY_QUIT_LABEL@,
{
    TRAY_QUIT_LABEL
}

} // verus!
