//! On-screen display modes.

use vstd::prelude::*;

verus! {

/// How the on-screen display behaves.
#[derive(Debug, Clone, Copy, PartialEq, Eq, Structural, Default)]
pub enum OsdMode {
    /// Messages fade after a moment.
    #[default]
    Auto,
    /// The track and time code stay on screen.
    AlwaysInfo,
    /// Nothing is shown.
    Disabled,
}

/// The mode after `m` in the cycle Auto, AlwaysInfo, Disabled.
pub open spec fn next_osd_mode(m: OsdMode) -> OsdMode {
    match m {
        OsdMode::Auto => OsdMode::AlwaysInfo,
        OsdMode::AlwaysInfo => OsdMode::Disabled,
        OsdMode::Disabled => OsdMode::Auto,
    }
}

impl OsdMode {
    /// The next mode: Auto, AlwaysInfo, Disabled, then Auto again.
    pub fn cycle(self) -> (r: Self)
        ensures
            r == next_osd_mode(self),
    {
        match self {
            OsdMode::Auto => OsdMode::AlwaysInfo,
            OsdMode::AlwaysInfo => OsdMode::Disabled,
            OsdMode::Disabled => OsdMode::Auto,
        }
    }

    /// The toolbar icon.
    pub fn icon(self) -> (r: &'static str)
        ensures
            r@ == (match self {
                OsdMode::Auto => "📺"@,
                OsdMode::AlwaysInfo => "⏱"@,
                OsdMode::Disabled => "🚫"@,
            }),
    {
        match self {
            OsdMode::Auto => "📺",
            OsdMode::AlwaysInfo => "⏱",
            OsdMode::Disabled => "🚫",
        }
    }

    /// The tooltip.
    pub fn tooltip(self) -> (r: &'static str)
        ensures
            r@ == (match self {
                OsdMode::Auto => "OSD 屏幕提示: 自动隐藏 (点击切换，快捷键 O)"@,
                OsdMode::AlwaysInfo => "OSD 屏幕提示: 常驻时间码 (点击切换，快捷键 O)"@,
                OsdMode::Disabled => "OSD 屏幕提示: 已关闭 (点击切换，快捷键 O)"@,
            }),
    {
        match self {
            OsdMode::Auto => "OSD 屏幕提示: 自动隐藏 (点击切换，快捷键 O)",
            OsdMode::AlwaysInfo => "OSD 屏幕提示: 常驻时间码 (点击切换，快捷键 O)",
            OsdMode::Disabled => "OSD 屏幕提示: 已关闭 (点击切换，快捷键 O)",
        }
    }

    /// The text shown on screen when the mode changes.
    pub fn osd_label(self) -> (r: &'static str)
        ensures
            r@ == (match self {
                OsdMode::Auto => "OSD: AUTO"@,
                OsdMode::AlwaysInfo => "OSD: INFO"@,
                OsdMode::Disabled => "OSD: OFF"@,
            }),
    {
        match self {
            OsdMode::Auto => "OSD: AUTO",
            OsdMode::AlwaysInfo => "OSD: INFO",
            OsdMode::Disabled => "OSD: OFF",
        }
    }
}

/// Three presses of the OSD button return to the mode one started from.
pub proof fn lemma_osd_cycle_period(m: OsdMode)
    ensures
        next_osd_mode(next_osd_mode(next_osd_mode(m))) == m,
        next_osd_mode(m) != m,
{
}

} // verus!
