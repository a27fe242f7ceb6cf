//! The tray: its menu and its tooltip.

use crate::i18n::{in_lang, Lang};
use crate::services::{all_buttons, runs, service_runs, Service};
use crate::systemd::ServiceStatus;
use crate::tray_i18n::{t, texts, K};
use vstd::prelude::*;

verus! {

/// What an entry of the menu does.
#[derive(Clone, Copy, Debug, PartialEq, Eq, Structural)]
pub enum TrayAction {
    OpenPanel,
    ReloadConfig,
    StartAll,
    StopAll,
    Start(Service),
    Stop(Service),
    Quit,
}

/// An entry of the menu.
#[verifier::ext_equal]
pub enum EntryView {
    Separator,
    Item { label: Seq<char>, enabled: bool, action: TrayAction },
}

/// An entry of the menu.
#[derive(Debug)]
pub enum MenuEntry {
    Separator,
    Item { label: &'static str, enabled: bool, action: TrayAction },
}

impl View for MenuEntry {
    type V = EntryView;

    open spec fn view(&self) -> EntryView {
        match self {
            MenuEntry::Separator => EntryView::Separator,
            MenuEntry::Item { label, enabled, action } => EntryView::Item {
                label: label@,
                enabled: *enabled,
                action: *action,
            },
        }
    }
}

impl DeepView for MenuEntry {
    type V = EntryView;

    open spec fn deep_view(&self) -> EntryView {
        self@
    }
}

/// An entry with a text.
pub open spec fn entry(lang: Lang, k: K, enabled: bool, action: TrayAction) -> EntryView {
    EntryView::Item { label: in_lang(lang, texts(k)), enabled, action }
}

fn entry_of(lang: Lang, k: K, enabled: bool, action: TrayAction) -> (res: MenuEntry)
    ensures
        res@ == entry(lang, k, enabled, action),
{
    MenuEntry::Item { label: t(lang, k), enabled, action }
}

/// Some service runs.
pub open spec fn any_runs(st: ServiceStatus) -> bool {
    exists|s: Service| runs(st, s)
}

/// All services run that the tray can start.
pub open spec fn all_run(st: ServiceStatus, systemd: bool) -> bool {
    &&& runs(st, Service::Relay)
    &&& runs(st, Service::Watch)
    &&& runs(st, Service::Apply)
    &&& systemd ==> runs(st, Service::X11)
}

/// The menu. A service that runs can be stopped, one that does not can be started; the
/// sync with X11 only where systemd runs it.
pub open spec fn menu(lang: Lang, st: ServiceStatus, systemd: bool) -> Seq<EntryView> {
    seq![
        entry(lang, K::OpenControlPanel, true, TrayAction::OpenPanel),
        entry(lang, K::ReloadConfig, true, TrayAction::ReloadConfig),
        EntryView::Separator,
        entry(lang, K::StartAll, !all_run(st, systemd), TrayAction::StartAll),
        entry(lang, K::StopAll, any_runs(st), TrayAction::StopAll),
        EntryView::Separator,
        entry(lang, K::StartRelay, !runs(st, Service::Relay), TrayAction::Start(Service::Relay)),
        entry(lang, K::StopRelay, runs(st, Service::Relay), TrayAction::Stop(Service::Relay)),
        entry(lang, K::StartWatch, !runs(st, Service::Watch), TrayAction::Start(Service::Watch)),
        entry(lang, K::StopWatch, runs(st, Service::Watch), TrayAction::Stop(Service::Watch)),
        entry(lang, K::StartApply, !runs(st, Service::Apply), TrayAction::Start(Service::Apply)),
        entry(lang, K::StopApply, runs(st, Service::Apply), TrayAction::Stop(Service::Apply)),
        entry(
            lang,
            K::StartX11Sync,
            systemd && !runs(st, Service::X11),
            TrayAction::Start(Service::X11),
        ),
        entry(
            lang,
            K::StopX11Sync,
            systemd && runs(st, Service::X11),
            TrayAction::Stop(Service::X11),
        ),
        EntryView::Separator,
        entry(lang, K::Quit, true, TrayAction::Quit),
    ]
}

/// The menu.
pub fn menu_of(lang: Lang, st: ServiceStatus, systemd: bool) -> (res: Vec<MenuEntry>)
    ensures
        res.deep_view() == menu(lang, st, systemd),
{
    let all = all_buttons(st, systemd);
    let relay = service_runs(st, Service::Relay);
    let watch = service_runs(st, Service::Watch);
    let apply = service_runs(st, Service::Apply);
    let x11 = service_runs(st, Service::X11);
    let mut out: Vec<MenuEntry> = Vec::new();
    out.push(entry_of(lang, K::OpenControlPanel, true, TrayAction::OpenPanel));
    out.push(entry_of(lang, K::ReloadConfig, true, TrayAction::ReloadConfig));
    out.push(MenuEntry::Separator);
    out.push(entry_of(lang, K::StartAll, all.start, TrayAction::StartAll));
    out.push(entry_of(lang, K::StopAll, all.stop, TrayAction::StopAll));
    out.push(MenuEntry::Separator);
    out.push(entry_of(lang, K::StartRelay, !relay, TrayAction::Start(Service::Relay)));
    out.push(entry_of(lang, K::StopRelay, relay, TrayAction::Stop(Service::Relay)));
    out.push(entry_of(lang, K::StartWatch, !watch, TrayAction::Start(Service::Watch)));
    out.push(entry_of(lang, K::StopWatch, watch, TrayAction::Stop(Service::Watch)));
    out.push(entry_of(lang, K::StartApply, !apply, TrayAction::Start(Service::Apply)));
    out.push(entry_of(lang, K::StopApply, apply, TrayAction::Stop(Service::Apply)));
    out.push(entry_of(lang, K::StartX11Sync, systemd && !x11, TrayAction::Start(Service::X11)));
    out.push(entry_of(lang, K::StopX11Sync, systemd && x11, TrayAction::Stop(Service::X11)));
    out.push(MenuEntry::Separator);
    out.push(entry_of(lang, K::Quit, true, TrayAction::Quit));
    assert(out.deep_view() =~= menu(lang, st, systemd));
    out
}

/// Of a service's two entries, one can be chosen and the other cannot, unless it is the
/// sync with X11 without systemd, of which neither can.
pub proof fn law_one_entry_of_a_service_is_open(
    lang: Lang,
    st: ServiceStatus,
    systemd: bool,
    s: Service,
    i: int,
    j: int,
)
    requires
        0 <= i < menu(lang, st, systemd).len(),
        0 <= j < menu(lang, st, systemd).len(),
        menu(lang, st, systemd)[i] is Item,
        menu(lang, st, systemd)[j] is Item,
        menu(lang, st, systemd)[i]->action == TrayAction::Start(s),
        menu(lang, st, systemd)[j]->action == TrayAction::Stop(s),
    ensures
        if s == Service::X11 && !systemd {
            !menu(lang, st, systemd)[i]->enabled && !menu(lang, st, systemd)[j]->enabled
        } else {
            menu(lang, st, systemd)[i]->enabled != menu(lang, st, systemd)[j]->enabled
        },
{
}

/// On or off, in a language.
pub open spec fn on_off(lang: Lang, on: bool) -> Seq<char> {
    if on {
        in_lang(lang, ("开"@, "on"@))
    } else {
        in_lang(lang, ("关"@, "off"@))
    }
}

fn on_off_of(lang: Lang, on: bool) -> (res: &'static str)
    ensures
        res@ == on_off(lang, on),
{
    match (lang, on) {
        (Lang::ZhCn, true) => "开",
        (Lang::ZhCn, false) => "关",
        (Lang::En, true) => "on",
        (Lang::En, false) => "off",
    }
}

/// What the tooltip says: which services run.
pub open spec fn tooltip(lang: Lang, st: ServiceStatus) -> Seq<char> {
    in_lang(lang, texts(K::TooltipStatusLine)) + in_lang(lang, ("：\nrelay: "@, ":\nrelay: "@))
        + on_off(lang, st.relay) + "\nwl-watch: "@ + on_off(lang, st.watch) + "\nwl-apply: "@
        + on_off(lang, st.apply) + "\nx11-sync: "@ + on_off(lang, st.x11) + "\n\n"@ + in_lang(
        lang,
        texts(K::TooltipHint),
    ) + "\n"@
}

/// What the tooltip says.
pub fn tooltip_of(lang: Lang, st: ServiceStatus) -> (res: String)
    ensures
        res@ == tooltip(lang, st),
{
    let mut out = t(lang, K::TooltipStatusLine).to_string();
    match lang {
        Lang::ZhCn => out.append("：\nrelay: "),
        Lang::En => out.append(":\nrelay: "),
    }
    out.append(on_off_of(lang, st.relay));
    out.append("\nwl-watch: ");
    out.append(on_off_of(lang, st.watch));
    out.append("\nwl-apply: ");
    out.append(on_off_of(lang, st.apply));
    out.append("\nx11-sync: ");
    out.append(on_off_of(lang, st.x11));
    out.append("\n\n");
    out.append(t(lang, K::TooltipHint));
    out.append("\n");
    out
}

/// The menu has an entry that does this.
pub open spec fn has_entry(m: Seq<EntryView>, action: TrayAction, enabled: bool) -> bool {
    exists|i: int|
        0 <= i < m.len() && #[trigger] m[i] is Item && m[i]->action == action && m[i]->enabled
            == enabled
}

/// The menu has an entry to start and one to stop each service: the first can be chosen where
/// the service does not run, the second where it does, and neither for the sync with X11
/// without systemd.
pub proof fn law_each_service_can_be_started_or_stopped(
    lang: Lang,
    st: ServiceStatus,
    systemd: bool,
    s: Service,
)
    ensures
        ({
            let m = menu(lang, st, systemd);
            let usable = s != Service::X11 || systemd;
            &&& has_entry(m, TrayAction::Start(s), usable && !runs(st, s))
            &&& has_entry(m, TrayAction::Stop(s), usable && runs(st, s))
        }),
{
    let m = menu(lang, st, systemd);
    assert(m[6] is Item && m[6]->action == TrayAction::Start(Service::Relay));
    assert(m[7] is Item && m[7]->action == TrayAction::Stop(Service::Relay));
    assert(m[8] is Item && m[8]->action == TrayAction::Start(Service::Watch));
    assert(m[9] is Item && m[9]->action == TrayAction::Stop(Service::Watch));
    assert(m[10] is Item && m[10]->action == TrayAction::Start(Service::Apply));
    assert(m[11] is Item && m[11]->action == TrayAction::Stop(Service::Apply));
    assert(m[12] is Item && m[12]->action == TrayAction::Start(Service::X11));
    assert(m[13] is Item && m[13]->action == TrayAction::Stop(Service::X11));
}

/// All services can be started from the menu unless all run, and stopped where one runs; the
/// panel can be opened, the configuration read again and the tray ended at any time.
pub proof fn law_what_the_menu_always_offers(lang: Lang, st: ServiceStatus, systemd: bool)
    ensures
        ({
            let m = menu(lang, st, systemd);
            &&& has_entry(m, TrayAction::OpenPanel, true)
            &&& has_entry(m, TrayAction::ReloadConfig, true)
            &&& has_entry(m, TrayAction::Quit, true)
            &&& has_entry(
                m,
                TrayAction::StartAll,
                !(st.relay && st.watch && st.apply && (st.x11 || !systemd)),
            )
            &&& has_entry(m, TrayAction::StopAll, st.relay || st.watch || st.apply || st.x11)
        }),
{
    let m = menu(lang, st, systemd);
    assert(m[0] is Item && m[0]->action == TrayAction::OpenPanel);
    assert(m[1] is Item && m[1]->action == TrayAction::ReloadConfig);
    assert(m[3] is Item && m[3]->action == TrayAction::StartAll);
    assert(m[4] is Item && m[4]->action == TrayAction::StopAll);
    assert(m[15] is Item && m[15]->action == TrayAction::Quit);
    if st.relay {
        assert(runs(st, Service::Relay));
    }
    if st.watch {
        assert(runs(st, Service::Watch));
    }
    if st.apply {
        assert(runs(st, Service::Apply));
    }
    if st.x11 {
        assert(runs(st, Service::X11));
    }
}

/// The tooltip tells of each service whether it runs: tooltips that agree tell of services that
/// run alike.
pub proof fn law_tooltip_tells_what_runs(lang: Lang, a: ServiceStatus, b: ServiceStatus)
    requires
        tooltip(lang, a) == tooltip(lang, b),
    ensures
        a == b,
{
    lemma_tooltip(lang, a);
    lemma_tooltip(lang, b);
    lemma_line_starts(lang);
    let w = "\nwl-watch: "@;
    let p = "\nwl-apply: "@;
    let x = "\nx11-sync: "@;
    lemma_behind(tooltip_head(lang), from_relay(lang, a), from_relay(lang, b));
    lemma_same(lang, a.relay, b.relay, w + from_watch(lang, a), w + from_watch(lang, b));
    lemma_behind(w, from_watch(lang, a), from_watch(lang, b));
    lemma_same(lang, a.watch, b.watch, p + from_apply(lang, a), p + from_apply(lang, b));
    lemma_behind(p, from_apply(lang, a), from_apply(lang, b));
    lemma_same(lang, a.apply, b.apply, x + from_x11(lang, a), x + from_x11(lang, b));
    lemma_behind(x, from_x11(lang, a), from_x11(lang, b));
    lemma_same(lang, a.x11, b.x11, tooltip_end(lang), tooltip_end(lang));
}

spec fn tooltip_head(lang: Lang) -> Seq<char> {
    in_lang(lang, texts(K::TooltipStatusLine)) + in_lang(lang, ("：\nrelay: "@, ":\nrelay: "@))
}

spec fn tooltip_end(lang: Lang) -> Seq<char> {
    "\n\n"@ + in_lang(lang, texts(K::TooltipHint)) + "\n"@
}

spec fn from_x11(lang: Lang, st: ServiceStatus) -> Seq<char> {
    on_off(lang, st.x11) + tooltip_end(lang)
}

spec fn from_apply(lang: Lang, st: ServiceStatus) -> Seq<char> {
    on_off(lang, st.apply) + ("\nx11-sync: "@ + from_x11(lang, st))
}

spec fn from_watch(lang: Lang, st: ServiceStatus) -> Seq<char> {
    on_off(lang, st.watch) + ("\nwl-apply: "@ + from_apply(lang, st))
}

spec fn from_relay(lang: Lang, st: ServiceStatus) -> Seq<char> {
    on_off(lang, st.relay) + ("\nwl-watch: "@ + from_watch(lang, st))
}

proof fn lemma_tooltip(lang: Lang, st: ServiceStatus)
    ensures
        tooltip(lang, st) == tooltip_head(lang) + from_relay(lang, st),
{
    let l1 = tooltip_head(lang) + on_off(lang, st.relay);
    let l2 = l1 + "\nwl-watch: "@;
    let l3 = l2 + on_off(lang, st.watch);
    let l4 = l3 + "\nwl-apply: "@;
    let l5 = l4 + on_off(lang, st.apply);
    let l6 = l5 + "\nx11-sync: "@;
    let l7 = l6 + on_off(lang, st.x11);
    let hint = in_lang(lang, texts(K::TooltipHint));
    assert(tooltip(lang, st) == l7 + "\n\n"@ + hint + "\n"@);
    lemma_grouped(l7, "\n\n"@, hint);
    lemma_grouped(l7, "\n\n"@ + hint, "\n"@);
    lemma_grouped(l6, on_off(lang, st.x11), tooltip_end(lang));
    lemma_grouped(l5, "\nx11-sync: "@, from_x11(lang, st));
    lemma_grouped(l4, on_off(lang, st.apply), "\nx11-sync: "@ + from_x11(lang, st));
    lemma_grouped(l3, "\nwl-apply: "@, from_apply(lang, st));
    lemma_grouped(l2, on_off(lang, st.watch), "\nwl-apply: "@ + from_apply(lang, st));
    lemma_grouped(l1, "\nwl-watch: "@, from_watch(lang, st));
    lemma_grouped(
        tooltip_head(lang),
        on_off(lang, st.relay),
        "\nwl-watch: "@ + from_watch(lang, st),
    );
}

proof fn lemma_grouped(a: Seq<char>, b: Seq<char>, c: Seq<char>)
    ensures
        a + b + c == a + (b + c),
{
    assert(a + b + c =~= a + (b + c));
}

proof fn lemma_line_starts(lang: Lang)
    ensures
        "\nwl-watch: "@.len() > 0 && "\nwl-watch: "@[0] == '\n',
        "\nwl-apply: "@.len() > 0 && "\nwl-apply: "@[0] == '\n',
        "\nx11-sync: "@.len() > 0 && "\nx11-sync: "@[0] == '\n',
        tooltip_end(lang).len() > 0 && tooltip_end(lang)[0] == '\n',
{
    reveal_strlit("\nwl-watch: ");
    reveal_strlit("\nwl-apply: ");
    reveal_strlit("\nx11-sync: ");
    reveal_strlit("\n\n");
}

proof fn lemma_behind(h: Seq<char>, a: Seq<char>, b: Seq<char>)
    requires
        h + a == h + b,
    ensures
        a == b,
{
    assert((h + a).skip(h.len() as int) =~= a);
    assert((h + b).skip(h.len() as int) =~= b);
}

proof fn lemma_same(lang: Lang, x: bool, y: bool, a: Seq<char>, b: Seq<char>)
    requires
        a.len() > 0,
        b.len() > 0,
        a[0] == '\n',
        b[0] == '\n',
        on_off(lang, x) + a == on_off(lang, y) + b,
    ensures
        x == y,
        a == b,
{
    if x != y {
        lemma_differ(lang, x, a, b);
    }
    lemma_behind(on_off(lang, x), a, b);
}

proof fn lemma_differ(lang: Lang, on: bool, a: Seq<char>, b: Seq<char>)
    requires
        a.len() > 0,
        b.len() > 0,
        a[0] == '\n',
        b[0] == '\n',
    ensures
        on_off(lang, on) + a != on_off(lang, !on) + b,
{
    reveal_strlit("开");
    reveal_strlit("关");
    reveal_strlit("on");
    reveal_strlit("off");
    let x = on_off(lang, on) + a;
    let y = on_off(lang, !on) + b;
    if lang == Lang::ZhCn {
        assert(x[0] != y[0]);
    } else {
        assert("on"@[1] == 'n' && "off"@[1] == 'f');
        assert(x[1] != y[1]);
    }
}

/// The entries for a service are called after it.
pub proof fn law_entries_are_called_after_their_service(
    lang: Lang,
    st: ServiceStatus,
    systemd: bool,
    s: Service,
    i: int,
)
    requires
        0 <= i < menu(lang, st, systemd).len(),
        menu(lang, st, systemd)[i] is Item,
    ensures
        ({
            let e = menu(lang, st, systemd)[i];
            let name = crate::services::service_name(s);
            &&& e->action == TrayAction::Start(s) ==> e->label == in_lang(
                lang,
                ("启动 "@, "Start "@),
            ) + name
            &&& e->action == TrayAction::Stop(s) ==> e->label == in_lang(
                lang,
                ("停止 "@, "Stop "@),
            ) + name
        }),
{
    let m = menu(lang, st, systemd);
    let e = m[i];
    if e->action == TrayAction::Start(s) {
        lemma_start_label(lang, s);
        assert(e->label == in_lang(
            lang,
            texts(
                match s {
                    Service::Relay => K::StartRelay,
                    Service::Watch => K::StartWatch,
                    Service::Apply => K::StartApply,
                    Service::X11 => K::StartX11Sync,
                },
            ),
        ));
    }
    if e->action == TrayAction::Stop(s) {
        lemma_stop_label(lang, s);
        assert(e->label == in_lang(
            lang,
            texts(
                match s {
                    Service::Relay => K::StopRelay,
                    Service::Watch => K::StopWatch,
                    Service::Apply => K::StopApply,
                    Service::X11 => K::StopX11Sync,
                },
            ),
        ));
    }
}

proof fn lemma_start_label(lang: Lang, s: Service)
    ensures
        ({
            let k = match s {
                Service::Relay => K::StartRelay,
                Service::Watch => K::StartWatch,
                Service::Apply => K::StartApply,
                Service::X11 => K::StartX11Sync,
            };
            in_lang(lang, texts(k)) == in_lang(lang, ("启动 "@, "Start "@))
                + crate::services::service_name(s)
        }),
{
    reveal_strlit("启动 ");
    reveal_strlit("Start ");
    match s {
        Service::Relay => {
            reveal_strlit("relay");
            reveal_strlit("启动 relay");
            reveal_strlit("Start relay");
            assert("启动 relay"@ =~= "启动 "@ + "relay"@);
            assert("Start relay"@ =~= "Start "@ + "relay"@);
        },
        Service::Watch => {
            reveal_strlit("wl-watch");
            reveal_strlit("启动 wl-watch");
            reveal_strlit("Start wl-watch");
            assert("启动 wl-watch"@ =~= "启动 "@ + "wl-watch"@);
            assert("Start wl-watch"@ =~= "Start "@ + "wl-watch"@);
        },
        Service::Apply => {
            reveal_strlit("wl-apply");
            reveal_strlit("启动 wl-apply");
            reveal_strlit("Start wl-apply");
            assert("启动 wl-apply"@ =~= "启动 "@ + "wl-apply"@);
            assert("Start wl-apply"@ =~= "Start "@ + "wl-apply"@);
        },
        Service::X11 => {
            reveal_strlit("x11-sync");
            reveal_strlit("启动 x11-sync");
            reveal_strlit("Start x11-sync");
            assert("启动 x11-sync"@ =~= "启动 "@ + "x11-sync"@);
            assert("Start x11-sync"@ =~= "Start "@ + "x11-sync"@);
        },
    }
}

proof fn lemma_stop_label(lang: Lang, s: Service)
    ensures
        ({
            let k = match s {
                Service::Relay => K::StopRelay,
                Service::Watch => K::StopWatch,
                Service::Apply => K::StopApply,
                Service::X11 => K::StopX11Sync,
            };
            in_lang(lang, texts(k)) == in_lang(lang, ("停止 "@, "Stop "@))
                + crate::services::service_name(s)
        }),
{
    reveal_strlit("停止 ");
    reveal_strlit("Stop ");
    match s {
        Service::Relay => {
            reveal_strlit("relay");
            reveal_strlit("停止 relay");
            reveal_strlit("Stop relay");
            assert("停止 relay"@ =~= "停止 "@ + "relay"@);
            assert("Stop relay"@ =~= "Stop "@ + "relay"@);
        },
        Service::Watch => {
            reveal_strlit("wl-watch");
            reveal_strlit("停止 wl-watch");
            reveal_strlit("Stop wl-watch");
            assert("停止 wl-watch"@ =~= "停止 "@ + "wl-watch"@);
            assert("Stop wl-watch"@ =~= "Stop "@ + "wl-watch"@);
        },
        Service::Apply => {
            reveal_strlit("wl-apply");
            reveal_strlit("停止 wl-apply");
            reveal_strlit("Stop wl-apply");
            assert("停止 wl-apply"@ =~= "停止 "@ + "wl-apply"@);
            assert("Stop wl-apply"@ =~= "Stop "@ + "wl-apply"@);
        },
        Service::X11 => {
            reveal_strlit("x11-sync");
            reveal_strlit("停止 x11-sync");
            reveal_strlit("Stop x11-sync");
            assert("停止 x11-sync"@ =~= "停止 "@ + "x11-sync"@);
            assert("Stop x11-sync"@ =~= "Stop "@ + "x11-sync"@);
        },
    }
}

} // verus!
