//! The tray's texts, in Chinese and in English.

use crate::i18n::{in_lang, Lang};
use vstd::prelude::*;

verus! {

/// A text.
#[derive(Clone, Copy, Debug, PartialEq, Eq, Structural)]
pub enum K {
    OpenControlPanel,
    ReloadConfig,
    StartAll,
    StopAll,
    StartRelay,
    StopRelay,
    StartWatch,
    StopWatch,
    StartApply,
    StopApply,
    Quit,
    TooltipTitle,
    TooltipStatusLine,
    TooltipHint,
    StartX11Sync,
    StopX11Sync,
}

/// A text in Chinese and in English.
pub open spec fn texts(k: K) -> (Seq<char>, Seq<char>) {
    match k {
        K::OpenControlPanel => ("打开控制面板"@, "Open Control Panel"@),
        K::ReloadConfig => ("重载配置"@, "Reload config"@),
        K::StartAll => ("一键启动（全部）"@, "Start all"@),
        K::StopAll => ("一键停止（全部）"@, "Stop all"@),
        K::StartRelay => ("启动 relay"@, "Start relay"@),
        K::StopRelay => ("停止 relay"@, "Stop relay"@),
        K::StartWatch => ("启动 wl-watch"@, "Start wl-watch"@),
        K::StopWatch => ("停止 wl-watch"@, "Stop wl-watch"@),
        K::StartApply => ("启动 wl-apply"@, "Start wl-apply"@),
        K::StopApply => ("停止 wl-apply"@, "Stop wl-apply"@),
        K::Quit => ("退出"@, "Quit"@),
        K::TooltipTitle => ("ClipRelay"@, "ClipRelay"@),
        K::TooltipStatusLine => ("状态"@, "Status"@),
        K::TooltipHint => ("提示：GNOME 可能需要 AppIndicator 扩展才能显示托盘。"@, "Note: GNOME may require an AppIndicator extension to show the tray."@),
        K::StartX11Sync => ("启动 x11-sync"@, "Start x11-sync"@),
        K::StopX11Sync => ("停止 x11-sync"@, "Stop x11-sync"@),
    }
}

/// A text in a language.
pub fn t(lang: Lang, k: K) -> (res: &'static str)
    ensures
        res@ == in_lang(lang, texts(k)),
{
    let (zh, en): (&'static str, &'static str) = match k {
        K::OpenControlPanel => ("打开控制面板", "Open Control Panel"),
        K::ReloadConfig => ("重载配置", "Reload config"),
        K::StartAll => ("一键启动（全部）", "Start all"),
        K::StopAll => ("一键停止（全部）", "Stop all"),
        K::StartRelay => ("启动 relay", "Start relay"),
        K::StopRelay => ("停止 relay", "Stop relay"),
        K::StartWatch => ("启动 wl-watch", "Start wl-watch"),
        K::StopWatch => ("停止 wl-watch", "Stop wl-watch"),
        K::StartApply => ("启动 wl-apply", "Start wl-apply"),
        K::StopApply => ("停止 wl-apply", "Stop wl-apply"),
        K::Quit => ("退出", "Quit"),
        K::TooltipTitle => ("ClipRelay", "ClipRelay"),
        K::TooltipStatusLine => ("状态", "Status"),
        K::TooltipHint => ("提示：GNOME 可能需要 AppIndicator 扩展才能显示托盘。", "Note: GNOME may require an AppIndicator extension to show the tray."),
        K::StartX11Sync => ("启动 x11-sync", "Start x11-sync"),
        K::StopX11Sync => ("停止 x11-sync", "Stop x11-sync"),
    };
    match lang {
        Lang::ZhCn => zh,
        Lang::En => en,
    }
}

/// The tray and the panel call starting and stopping the services by the same words.
pub proof fn law_tray_and_panel_use_the_same_words()
    ensures
        texts(K::StartRelay) == crate::i18n::texts(crate::i18n::K::BtnStartRelay),
        texts(K::StopRelay) == crate::i18n::texts(crate::i18n::K::BtnStopRelay),
        texts(K::StartWatch) == crate::i18n::texts(crate::i18n::K::BtnStartWatch),
        texts(K::StopWatch) == crate::i18n::texts(crate::i18n::K::BtnStopWatch),
        texts(K::StartApply) == crate::i18n::texts(crate::i18n::K::BtnStartApply),
        texts(K::StopApply) == crate::i18n::texts(crate::i18n::K::BtnStopApply),
        texts(K::StartX11Sync) == crate::i18n::texts(crate::i18n::K::BtnStartX11Sync),
        texts(K::StopX11Sync) == crate::i18n::texts(crate::i18n::K::BtnStopX11Sync),
        texts(K::StartAll).1 == crate::i18n::texts(crate::i18n::K::BtnStartAll).1,
        texts(K::StopAll).1 == crate::i18n::texts(crate::i18n::K::BtnStopAll).1,
{
}

} // verus!
