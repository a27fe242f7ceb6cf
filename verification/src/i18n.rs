//! The control panel's texts, in Chinese and in English.

use crate::apply::opt_str;
use crate::config::LANG_AUTO_ID;
use crate::text::{lowered, same, starts_with, to_lower};
use vstd::prelude::*;

verus! {

/// A language.
#[derive(Clone, Copy, Debug, PartialEq, Eq, Structural)]
pub enum Lang {
    ZhCn,
    En,
}

/// The text in a language, of a text in Chinese and in English.
pub open spec fn in_lang(lang: Lang, texts: (Seq<char>, Seq<char>)) -> Seq<char> {
    match lang {
        Lang::ZhCn => texts.0,
        Lang::En => texts.1,
    }
}

/// The language that the environment asks for: that of the first variable that is set.
pub open spec fn env_lang(
    all: Option<Seq<char>>,
    messages: Option<Seq<char>>,
    lang: Option<Seq<char>>,
) -> Lang {
    let v = match all {
        Some(v) => v,
        None => match messages {
            Some(v) => v,
            None => match lang {
                Some(v) => v,
                None => Seq::empty(),
            },
        },
    };
    if "zh"@.is_prefix_of(lowered(v)) {
        Lang::ZhCn
    } else {
        Lang::En
    }
}

/// The language that the environment asks for, given `LC_ALL`, `LC_MESSAGES` and `LANG`.
pub fn detect_lang_from_env(all: Option<&str>, messages: Option<&str>, lang: Option<&str>) -> (res:
    Lang)
    ensures
        res == env_lang(opt_str(all), opt_str(messages), opt_str(lang)),
{
    let v: &str = match all {
        Some(v) => v,
        None => match messages {
            Some(v) => v,
            None => match lang {
                Some(v) => v,
                None => "",
            },
        },
    };
    proof {
        reveal_strlit("");
        assert(""@ =~= Seq::<char>::empty());
    }
    let low = to_lower(v);
    if starts_with(low.as_str(), "zh") {
        Lang::ZhCn
    } else {
        Lang::En
    }
}

/// The language that an id names.
pub open spec fn lang_named(id: Seq<char>) -> Option<Lang> {
    if id == "zh-cn"@ || id == "zh_cn"@ || id == "zh"@ {
        Some(Lang::ZhCn)
    } else if id == "en"@ || id == "en-us"@ || id == "en_us"@ {
        Some(Lang::En)
    } else {
        None
    }
}

/// The language that an id names.
pub fn parse_lang_id(id: &str) -> (res: Option<Lang>)
    ensures
        res == lang_named(id@),
{
    if same(id, "zh-cn") || same(id, "zh_cn") || same(id, "zh") {
        Some(Lang::ZhCn)
    } else if same(id, "en") || same(id, "en-us") || same(id, "en_us") {
        Some(Lang::En)
    } else {
        None
    }
}

/// The language of a configuration: the one that it names, else the environment's.
pub fn config_lang(id: &str, from_env: Lang) -> (res: Lang)
    ensures
        res == if id@ == LANG_AUTO_ID@ || lang_named(id@) is None {
            from_env
        } else {
            lang_named(id@)->0
        },
{
    if same(id, LANG_AUTO_ID) {
        return from_env;
    }
    match parse_lang_id(id) {
        Some(l) => l,
        None => from_env,
    }
}

/// A text.
#[derive(Clone, Copy, Debug, PartialEq, Eq, Structural)]
pub enum K {
    WindowTitle,
    TabControl,
    TabLogs,
    TabHelp,
    TabHistory,
    SectionConfig,
    SectionServices,
    SectionTest,
    LabelRelay,
    LabelRoom,
    LabelMaxTextBytes,
    LabelMaxImageBytes,
    LabelMaxFileBytes,
    LabelX11PollIntervalMs,
    LabelImageMode,
    LabelLanguage,
    BtnStartRelay,
    BtnStopRelay,
    BtnStartWatch,
    BtnStopWatch,
    BtnStartApply,
    BtnStopApply,
    BtnStartX11Sync,
    BtnStopX11Sync,
    BtnSendTestText,
    BtnSendTestImage,
    BtnSendTestFile,
    BtnShowClipTypes,
    BtnWlClipboardLogs,
    BtnClearLogs,
    BtnClearHistory,
    ChooseImageTitle,
    ImageFilterName,
    ChooseFileTitle,
    FileFilterName,
    LangAuto,
    LangZhCn,
    LangEn,
    ModeForcePng,
    ModeMulti,
    ModePassthrough,
    ModeSpoofPng,
    BtnStartAll,
    BtnStopAll,
    BtnReloadConfig,
    StatusRunning,
    StatusStopped,
    StatusConnected,
    StatusDisconnected,
    StatusChecking,
    LabelRelayTcp,
    WindowWlClipboardLogs,
    HistoryEmptyHint,
}

/// A text in Chinese and in English.
pub open spec fn texts(k: K) -> (Seq<char>, Seq<char>) {
    match k {
        K::WindowTitle => ("MultiClipRelay（控制面板）"@, "MultiClipRelay (Control Panel)"@),
        K::TabControl => ("控制"@, "Control"@),
        K::TabLogs => ("日志"@, "Logs"@),
        K::TabHelp => ("说明"@, "Help"@),
        K::TabHistory => ("历史"@, "History"@),
        K::SectionConfig => ("配置"@, "Config"@),
        K::SectionServices => ("服务"@, "Services"@),
        K::SectionTest => ("测试 / 诊断"@, "Test / Diagnostics"@),
        K::LabelRelay => ("Relay"@, "Relay"@),
        K::LabelRoom => ("房间"@, "Room"@),
        K::LabelMaxTextBytes => ("文本大小上限（bytes）"@, "Max text bytes"@),
        K::LabelMaxImageBytes => ("图片大小上限（bytes）"@, "Max image bytes"@),
        K::LabelMaxFileBytes => ("文件大小上限（bytes）"@, "Max file bytes"@),
        K::LabelX11PollIntervalMs => ("X11 轮询间隔（ms）"@, "X11 poll interval (ms)"@),
        K::LabelImageMode => ("图片模式"@, "Image mode"@),
        K::LabelLanguage => ("语言"@, "Language"@),
        K::BtnStartRelay => ("启动 relay"@, "Start relay"@),
        K::BtnStopRelay => ("停止 relay"@, "Stop relay"@),
        K::BtnStartWatch => ("启动 wl-watch"@, "Start wl-watch"@),
        K::BtnStopWatch => ("停止 wl-watch"@, "Stop wl-watch"@),
        K::BtnStartApply => ("启动 wl-apply"@, "Start wl-apply"@),
        K::BtnStopApply => ("停止 wl-apply"@, "Stop wl-apply"@),
        K::BtnStartX11Sync => ("启动 x11-sync"@, "Start x11-sync"@),
        K::BtnStopX11Sync => ("停止 x11-sync"@, "Stop x11-sync"@),
        K::BtnSendTestText => ("发送测试文本"@, "Send test text"@),
        K::BtnSendTestImage => ("发送测试图片"@, "Send test image"@),
        K::BtnSendTestFile => ("发送测试文件"@, "Send test file"@),
        K::BtnShowClipTypes => ("查看剪贴板类型"@, "Show clipboard types"@),
        K::BtnWlClipboardLogs => ("wl-clipboard 日志"@, "wl-clipboard logs"@),
        K::BtnClearLogs => ("清空日志"@, "Clear logs"@),
        K::BtnClearHistory => ("清空历史"@, "Clear history"@),
        K::ChooseImageTitle => ("选择图片文件"@, "Choose an image file"@),
        K::ImageFilterName => ("图片（png/jpg/webp/gif）"@, "Images (png/jpg/webp/gif)"@),
        K::ChooseFileTitle => ("选择文件"@, "Choose a file"@),
        K::FileFilterName => ("任意文件"@, "Any file"@),
        K::LangAuto => ("自动（跟随系统）"@, "Auto (system)"@),
        K::LangZhCn => ("中文（简体）"@, "Chinese (Simplified)"@),
        K::LangEn => ("English"@, "English"@),
        K::ModeForcePng => ("强制 PNG（推荐）"@, "Force PNG (recommended)"@),
        K::ModeMulti => ("多 MIME（原格式 + PNG 兜底）"@, "Multi-MIME (original + png)"@),
        K::ModePassthrough => ("直通（仅原格式）"@, "Passthrough (original only)"@),
        K::ModeSpoofPng => ("伪装 PNG（实验/高风险）"@, "Spoof PNG (experimental / risky)"@),
        K::BtnStartAll => ("全部启动"@, "Start all"@),
        K::BtnStopAll => ("全部停止"@, "Stop all"@),
        K::BtnReloadConfig => ("重新加载配置"@, "Reload config"@),
        K::StatusRunning => ("运行中"@, "Running"@),
        K::StatusStopped => ("已停止"@, "Stopped"@),
        K::StatusConnected => ("已连接"@, "Connected"@),
        K::StatusDisconnected => ("未连接"@, "Disconnected"@),
        K::StatusChecking => ("检测中…"@, "Checking…"@),
        K::LabelRelayTcp => ("Relay 连接（TCP）"@, "Relay TCP"@),
        K::WindowWlClipboardLogs => ("wl-clipboard 日志（systemd）"@, "wl-clipboard logs (systemd)"@),
        K::HistoryEmptyHint => ("（暂无同步记录：开始 wl-watch / wl-apply 后，这里会显示最近的发送/接收历史）"@, "(No history yet. Start wl-watch / wl-apply to see recent send/receive events.)"@),
    }
}

/// A text in a language.
pub fn t(lang: Lang, k: K) -> (res: &'static str)
    ensures
        res@ == in_lang(lang, texts(k)),
{
    let (zh, en): (&'static str, &'static str) = match k {
        K::WindowTitle => ("MultiClipRelay（控制面板）", "MultiClipRelay (Control Panel)"),
        K::TabControl => ("控制", "Control"),
        K::TabLogs => ("日志", "Logs"),
        K::TabHelp => ("说明", "Help"),
        K::TabHistory => ("历史", "History"),
        K::SectionConfig => ("配置", "Config"),
        K::SectionServices => ("服务", "Services"),
        K::SectionTest => ("测试 / 诊断", "Test / Diagnostics"),
        K::LabelRelay => ("Relay", "Relay"),
        K::LabelRoom => ("房间", "Room"),
        K::LabelMaxTextBytes => ("文本大小上限（bytes）", "Max text bytes"),
        K::LabelMaxImageBytes => ("图片大小上限（bytes）", "Max image bytes"),
        K::LabelMaxFileBytes => ("文件大小上限（bytes）", "Max file bytes"),
        K::LabelX11PollIntervalMs => ("X11 轮询间隔（ms）", "X11 poll interval (ms)"),
        K::LabelImageMode => ("图片模式", "Image mode"),
        K::LabelLanguage => ("语言", "Language"),
        K::BtnStartRelay => ("启动 relay", "Start relay"),
        K::BtnStopRelay => ("停止 relay", "Stop relay"),
        K::BtnStartWatch => ("启动 wl-watch", "Start wl-watch"),
        K::BtnStopWatch => ("停止 wl-watch", "Stop wl-watch"),
        K::BtnStartApply => ("启动 wl-apply", "Start wl-apply"),
        K::BtnStopApply => ("停止 wl-apply", "Stop wl-apply"),
        K::BtnStartX11Sync => ("启动 x11-sync", "Start x11-sync"),
        K::BtnStopX11Sync => ("停止 x11-sync", "Stop x11-sync"),
        K::BtnSendTestText => ("发送测试文本", "Send test text"),
        K::BtnSendTestImage => ("发送测试图片", "Send test image"),
        K::BtnSendTestFile => ("发送测试文件", "Send test file"),
        K::BtnShowClipTypes => ("查看剪贴板类型", "Show clipboard types"),
        K::BtnWlClipboardLogs => ("wl-clipboard 日志", "wl-clipboard logs"),
        K::BtnClearLogs => ("清空日志", "Clear logs"),
        K::BtnClearHistory => ("清空历史", "Clear history"),
        K::ChooseImageTitle => ("选择图片文件", "Choose an image file"),
        K::ImageFilterName => ("图片（png/jpg/webp/gif）", "Images (png/jpg/webp/gif)"),
        K::ChooseFileTitle => ("选择文件", "Choose a file"),
        K::FileFilterName => ("任意文件", "Any file"),
        K::LangAuto => ("自动（跟随系统）", "Auto (system)"),
        K::LangZhCn => ("中文（简体）", "Chinese (Simplified)"),
        K::LangEn => ("English", "English"),
        K::ModeForcePng => ("强制 PNG（推荐）", "Force PNG (recommended)"),
        K::ModeMulti => ("多 MIME（原格式 + PNG 兜底）", "Multi-MIME (original + png)"),
        K::ModePassthrough => ("直通（仅原格式）", "Passthrough (original only)"),
        K::ModeSpoofPng => ("伪装 PNG（实验/高风险）", "Spoof PNG (experimental / risky)"),
        K::BtnStartAll => ("全部启动", "Start all"),
        K::BtnStopAll => ("全部停止", "Stop all"),
        K::BtnReloadConfig => ("重新加载配置", "Reload config"),
        K::StatusRunning => ("运行中", "Running"),
        K::StatusStopped => ("已停止", "Stopped"),
        K::StatusConnected => ("已连接", "Connected"),
        K::StatusDisconnected => ("未连接", "Disconnected"),
        K::StatusChecking => ("检测中…", "Checking…"),
        K::LabelRelayTcp => ("Relay 连接（TCP）", "Relay TCP"),
        K::WindowWlClipboardLogs => ("wl-clipboard 日志（systemd）", "wl-clipboard logs (systemd)"),
        K::HistoryEmptyHint => ("（暂无同步记录：开始 wl-watch / wl-apply 后，这里会显示最近的发送/接收历史）", "(No history yet. Start wl-watch / wl-apply to see recent send/receive events.)"),
    };
    match lang {
        Lang::ZhCn => zh,
        Lang::En => en,
    }
}

/// What is said of an image mode in Chinese and in English.
pub open spec fn mode_hints(mode: Seq<char>) -> (Seq<char>, Seq<char>) {
    if mode == "force-png"@ {
        (
            "最稳的兼容模式：无论收到/发送什么图片，最终都按 image/png 提供。适合 Electron/Qt 等粘贴兼容性优先的场景。"@,
            "Most compatible: always provide images as image/png. Recommended for Electron/Qt and general paste reliability."@,
        )
    } else if mode == "multi"@ {
        (
            "提供“原始 MIME + PNG 兜底”两种表示，理论上最佳。但已知某些 Electron 应用在遇到 image/jpeg 等 offer 时可能卡死（尤其是跨设备传来的 jpeg）。如遇卡死请改用 force-png 或 spoof-png。"@,
            "Offer original MIME plus a PNG fallback. In theory best-of-both. Known issue: some Electron apps may freeze when image/jpeg offers exist (especially relayed JPEG). Use force-png or spoof-png if that happens."@,
        )
    } else if mode == "passthrough"@ {
        (
            "保持原始 MIME（jpeg/webp/gif/png）。对支持这些格式的应用更“原汁原味”，但粘贴兼容性不如 PNG。"@,
            "Keep original MIME (jpeg/webp/gif/png). More faithful for apps that support it, but paste compatibility may be worse than PNG."@,
        )
    } else if mode == "spoof-png"@ {
        (
            "实验性绕过：对外宣称 image/png，但实际字节仍是原格式。已知对 jpg 在某些应用里能避免卡死，但这是“骗过客户端”的做法，可能导致崩溃/花屏/安全风险，请谨慎。"@,
            "Experimental workaround: claim image/png but serve original bytes. Can avoid freezes for some apps with JPG, but it is intentionally lying and may cause crashes/garbled images/security issues."@,
        )
    } else {
        (""@, ""@)
    }
}

/// What is said of an image mode.
pub fn image_mode_hint_text(lang: Lang, mode: &str) -> (res: &'static str)
    ensures
        res@ == in_lang(lang, mode_hints(mode@)),
{
    let (zh, en): (&'static str, &'static str) = if same(mode, "force-png") {
        (
            "最稳的兼容模式：无论收到/发送什么图片，最终都按 image/png 提供。适合 Electron/Qt 等粘贴兼容性优先的场景。",
            "Most compatible: always provide images as image/png. Recommended for Electron/Qt and general paste reliability.",
        )
    } else if same(mode, "multi") {
        (
            "提供“原始 MIME + PNG 兜底”两种表示，理论上最佳。但已知某些 Electron 应用在遇到 image/jpeg 等 offer 时可能卡死（尤其是跨设备传来的 jpeg）。如遇卡死请改用 force-png 或 spoof-png。",
            "Offer original MIME plus a PNG fallback. In theory best-of-both. Known issue: some Electron apps may freeze when image/jpeg offers exist (especially relayed JPEG). Use force-png or spoof-png if that happens.",
        )
    } else if same(mode, "passthrough") {
        (
            "保持原始 MIME（jpeg/webp/gif/png）。对支持这些格式的应用更“原汁原味”，但粘贴兼容性不如 PNG。",
            "Keep original MIME (jpeg/webp/gif/png). More faithful for apps that support it, but paste compatibility may be worse than PNG.",
        )
    } else if same(mode, "spoof-png") {
        (
            "实验性绕过：对外宣称 image/png，但实际字节仍是原格式。已知对 jpg 在某些应用里能避免卡死，但这是“骗过客户端”的做法，可能导致崩溃/花屏/安全风险，请谨慎。",
            "Experimental workaround: claim image/png but serve original bytes. Can avoid freezes for some apps with JPG, but it is intentionally lying and may cause crashes/garbled images/security issues.",
        )
    } else {
        ("", "")
    };
    match lang {
        Lang::ZhCn => zh,
        Lang::En => en,
    }
}

/// The image modes that can be chosen, each with its name.
pub open spec fn mode_choices(lang: Lang) -> Seq<(Seq<char>, Seq<char>)> {
    seq![
        ("force-png"@, in_lang(lang, texts(K::ModeForcePng))),
        ("multi"@, in_lang(lang, texts(K::ModeMulti))),
        ("passthrough"@, in_lang(lang, texts(K::ModePassthrough))),
        ("spoof-png"@, in_lang(lang, texts(K::ModeSpoofPng))),
    ]
}

/// The image modes that can be chosen, each with its name.
pub fn image_mode_choices(lang: Lang) -> (res: [(&'static str, &'static str); 4])
    ensures
        forall|i: int|
            0 <= i < 4 ==> (#[trigger] res@[i]).0@ == mode_choices(lang)[i].0 && res@[i].1@
                == mode_choices(lang)[i].1,
{
    [
        ("force-png", t(lang, K::ModeForcePng)),
        ("multi", t(lang, K::ModeMulti)),
        ("passthrough", t(lang, K::ModePassthrough)),
        ("spoof-png", t(lang, K::ModeSpoofPng)),
    ]
}

/// Every image mode that can be chosen is one that a node knows.
pub proof fn law_choices_are_modes(lang: Lang, i: int)
    requires
        0 <= i < mode_choices(lang).len(),
    ensures
        crate::image_mode::mode_named(mode_choices(lang)[i].0) is Some,
{
}

/// The help in Chinese and in English.
pub open spec fn help_texts() -> (Seq<char>, Seq<char>) {
    (
        "图片模式说明（重要）：\n\n1) 强制 PNG（force-png，推荐）\n- 收到/发送图片时都转换成 image/png。\n- 这是目前日用兼容性最好的模式。\n\n2) 多 MIME（multi）\n- 尝试同时提供“原始格式（如 image/jpeg）”和“PNG 兜底”。\n- 理论上最优，但已知：通过本工具转发的 jpeg MIME 可能会导致部分 Electron 应用在粘贴时卡死。\n- 如果你遇到卡死：请切回 force-png，或尝试 spoof-png。\n\n3) 直通（passthrough）\n- 不做转换，保持原始 MIME（jpeg/webp/gif/png）。\n- 适合你明确知道目标应用支持该格式的场景。\n\n4) 伪装 PNG（spoof-png，实验/高风险）\n- 对外宣称是 image/png，但实际 payload 仍是原始 bytes。\n- 已知对 jpg 在一些 Electron 场景可作为“卡死绕过”。\n- 风险：客户端可能按 PNG 解码导致异常/崩溃/花屏；也可能触发潜在安全问题。\n\n建议默认使用 force-png；遇到 Electron 粘贴卡死时，优先用 force-png 或 spoof-png（临时绕过）。\n\n提示：本地化是轻量实现（中/英）；切换语言会立即刷新大部分界面文本。\n"@,
        "Image modes (important):\n\n1) Force PNG (force-png, recommended)\n- Always convert and provide images as image/png.\n- Best day-to-day compatibility today.\n\n2) Multi-MIME (multi)\n- Offer both the original format (e.g. image/jpeg) and a PNG fallback.\n- In theory best-of-both, but known issue: some Electron apps may freeze on paste when relayed JPEG MIME offers exist.\n- If you hit freezes: switch to force-png, or try spoof-png as a workaround.\n\n3) Passthrough (passthrough)\n- Keep original MIME (jpeg/webp/gif/png), no conversion.\n- Useful when you know the target apps support those formats.\n\n4) Spoof PNG (spoof-png, experimental / risky)\n- Claim image/png but serve original bytes.\n- Can avoid freezes for some Electron+JPG cases.\n- Risk: clients may decode as PNG and crash/garble; also a potential security footgun.\n\nRecommendation: use force-png by default. For Electron paste freezes, prefer force-png or (temporarily) spoof-png.\n\nNote: localization is intentionally lightweight (ZH/EN). Switching language updates most UI texts immediately.\n"@,
    )
}

/// The help.
pub fn help_text(lang: Lang) -> (res: String)
    ensures
        res@ == in_lang(lang, help_texts()),
{
    let text: &'static str = match lang {
        Lang::ZhCn => "图片模式说明（重要）：\n\n1) 强制 PNG（force-png，推荐）\n- 收到/发送图片时都转换成 image/png。\n- 这是目前日用兼容性最好的模式。\n\n2) 多 MIME（multi）\n- 尝试同时提供“原始格式（如 image/jpeg）”和“PNG 兜底”。\n- 理论上最优，但已知：通过本工具转发的 jpeg MIME 可能会导致部分 Electron 应用在粘贴时卡死。\n- 如果你遇到卡死：请切回 force-png，或尝试 spoof-png。\n\n3) 直通（passthrough）\n- 不做转换，保持原始 MIME（jpeg/webp/gif/png）。\n- 适合你明确知道目标应用支持该格式的场景。\n\n4) 伪装 PNG（spoof-png，实验/高风险）\n- 对外宣称是 image/png，但实际 payload 仍是原始 bytes。\n- 已知对 jpg 在一些 Electron 场景可作为“卡死绕过”。\n- 风险：客户端可能按 PNG 解码导致异常/崩溃/花屏；也可能触发潜在安全问题。\n\n建议默认使用 force-png；遇到 Electron 粘贴卡死时，优先用 force-png 或 spoof-png（临时绕过）。\n\n提示：本地化是轻量实现（中/英）；切换语言会立即刷新大部分界面文本。\n",
        Lang::En => "Image modes (important):\n\n1) Force PNG (force-png, recommended)\n- Always convert and provide images as image/png.\n- Best day-to-day compatibility today.\n\n2) Multi-MIME (multi)\n- Offer both the original format (e.g. image/jpeg) and a PNG fallback.\n- In theory best-of-both, but known issue: some Electron apps may freeze on paste when relayed JPEG MIME offers exist.\n- If you hit freezes: switch to force-png, or try spoof-png as a workaround.\n\n3) Passthrough (passthrough)\n- Keep original MIME (jpeg/webp/gif/png), no conversion.\n- Useful when you know the target apps support those formats.\n\n4) Spoof PNG (spoof-png, experimental / risky)\n- Claim image/png but serve original bytes.\n- Can avoid freezes for some Electron+JPG cases.\n- Risk: clients may decode as PNG and crash/garble; also a potential security footgun.\n\nRecommendation: use force-png by default. For Electron paste freezes, prefer force-png or (temporarily) spoof-png.\n\nNote: localization is intentionally lightweight (ZH/EN). Switching language updates most UI texts immediately.\n",
    };
    text.to_string()
}

/// The first variable that is set decides the language, by its start, in small letters or
/// capitals.
pub proof fn law_which_variable_decides(
    v: Seq<char>,
    messages: Option<Seq<char>>,
    lang: Option<Seq<char>>,
)
    ensures
        env_lang(Some(v), messages, lang) == env_lang(None, Some(v), None),
        env_lang(None, Some(v), lang) == env_lang(None, None, Some(v)),
        env_lang(None, None, None) == Lang::En,
        v.len() >= 2 && (v[0] == 'z' || v[0] == 'Z') && (v[1] == 'h' || v[1] == 'H') <==> env_lang(
            None,
            None,
            Some(v),
        ) == Lang::ZhCn,
{
    reveal_strlit("zh");
    let z = "zh"@;
    assert(z.len() == 2 && z[0] == 'z' && z[1] == 'h');
    let l = lowered(v);
    assert(lowered(Seq::<char>::empty()).len() == 0);
    if v.len() >= 2 {
        assert(l[0] == crate::text::lower(v[0]) && l[1] == crate::text::lower(v[1]));
        if l[0] == 'z' && l[1] == 'h' {
            assert(z =~= l.take(2));
        }
        if z.is_prefix_of(l) {
            assert(l.take(2)[0] == 'z' && l.take(2)[1] == 'h');
        }
    }
}

/// Six ids name a language, and nothing else does.
pub proof fn law_which_ids_name_a_language(id: Seq<char>)
    ensures
        lang_named(id) == Some(Lang::ZhCn) <==> id == "zh-cn"@ || id == "zh_cn"@ || id == "zh"@,
        lang_named(id) == Some(Lang::En) <==> id == "en"@ || id == "en-us"@ || id == "en_us"@,
{
    reveal_strlit("zh-cn");
    reveal_strlit("zh_cn");
    reveal_strlit("zh");
    reveal_strlit("en");
    reveal_strlit("en-us");
    reveal_strlit("en_us");
    assert("zh-cn"@[0] == 'z' && "zh_cn"@[0] == 'z' && "zh"@[0] == 'z');
    assert("en-us"@[0] == 'e' && "en_us"@[0] == 'e' && "en"@[0] == 'e');
}

/// Every image mode can be chosen, by its own argument.
pub proof fn law_every_mode_can_be_chosen(lang: Lang, m: crate::image_mode::ImageMode)
    ensures
        exists|i: int|
            0 <= i < mode_choices(lang).len() && (#[trigger] mode_choices(lang)[i]).0
                == crate::image_mode::mode_arg(m),
{
    let c = mode_choices(lang);
    assert(c[0].0 == "force-png"@);
    assert(c[1].0 == "multi"@);
    assert(c[2].0 == "passthrough"@);
    assert(c[3].0 == "spoof-png"@);
}

/// A text in a language is the one of that language.
pub proof fn law_text_of_a_language(zh: Seq<char>, en: Seq<char>)
    ensures
        in_lang(Lang::ZhCn, (zh, en)) == zh,
        in_lang(Lang::En, (zh, en)) == en,
{
}

} // verus!
