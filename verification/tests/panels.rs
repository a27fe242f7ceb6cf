use multicliprelay::config::{bind_hint_of, config_path, Form, UiConfig};
use multicliprelay::i18n::{
    config_lang, detect_lang_from_env, help_text, image_mode_choices, image_mode_hint_text,
    parse_lang_id, t, Lang, K,
};
use multicliprelay::image_mode::parse_image_mode;
use multicliprelay::panel::{
    chrono_like_timestamp, clock_text_of, column_label, fake_remote_device_id, fmt_ts,
    format_event_as_row, format_journal_as_columns, history_path, log_row, parse_cols, probe_line,
    rows_or_hint, rows_to_drop, split_prefix, tail_lines, tail_start, LogBuffer, Probe, ReadEvent,
};
use multicliprelay::procs::{
    all_places_of, apply_args_of, ending_of, installed_places_of, is_dev_exe_location,
    is_dev_exe_location_any, newest_of, relay_args_of, resolve_near, send_file_args_of,
    send_image_args_of, send_text_args_of, tagged_line, tray_places_of, ui_egui_exe, ui_egui_names,
    watch_args_of, win_apply_args_of, win_watch_args_of, x11_args_of, Ending, Looked, NodeSettings,
    Place,
};
use multicliprelay::services::{
    all_buttons, current_status, exited_line, outcome_line_of, panel_close_of, panel_start_all_of,
    panel_start_of, panel_stop_all_of, panel_stop_of, service_runs, tray_start_of,
    tray_start_order, tray_stop_of, tray_stop_order, Service, ServiceStep,
};
use multicliprelay::systemd::{
    enabled_from_env_or_auto, env_path, env_source, env_text, maybe_rewrite_execstart_line,
    program_names_of, programs_of, repaired_unit, status_snapshot, tray_env_source,
    tray_uses_systemd, unit_file_path, ServiceStatus,
};
use multicliprelay::tray::{menu_of, tooltip_of, MenuEntry, TrayAction};
use multicliprelay::tray_config::UiConfig as TrayConfig;
use multicliprelay::tray_i18n::{t as tray_t, K as TrayK};

#[test]
fn configurations_have_defaults() {
    let c = UiConfig::default();
    assert_eq!(c.relay_addr, "127.0.0.1:8080");
    assert_eq!(c.room, "default");
    assert_eq!(c.max_text_bytes, 1024 * 1024);
    assert_eq!(c.max_image_bytes, 20 * 1024 * 1024);
    assert_eq!(c.image_mode, "force-png");
    assert_eq!(c.x11_poll_interval_ms, 200);
    assert_eq!(c.language, "auto");
    assert_eq!(c.history_columns.len(), 0);
    let t = TrayConfig::default();
    assert_eq!(t.max_file_bytes, 20 * 1024 * 1024);
    assert_eq!(config_path(None), b".config/multicliprelay/ui.toml");
    assert_eq!(config_path(Some(b"/c")), b"/c/multicliprelay/ui.toml");
}

#[test]
fn old_configurations_are_migrated() {
    let mut c = UiConfig::default();
    c.image_mode = "spoof-png".to_string();
    c.force_png = Some(false);
    let m = c.migrated();
    assert_eq!(m.image_mode, "multi");
    assert_eq!(m.force_png, None);
    assert_eq!(m.migrated().image_mode, "multi");
    let mut t = TrayConfig::default();
    t.force_png = Some(true);
    t.image_mode = "multi".to_string();
    assert_eq!(t.migrated().image_mode, "force-png");
}

#[test]
fn relays_listen_on_this_machine_only() {
    for a in ["127.0.0.1:1", " localhost:2 ", "[::1]:3", "0.0.0.0:4"] {
        assert_eq!(bind_hint_of(a).as_deref(), Some(a.trim()));
    }
    assert_eq!(bind_hint_of("10.0.0.1:1"), None);
    let mut c = UiConfig::default();
    assert_eq!(c.relay_bind_hint().as_deref(), Some("127.0.0.1:8080"));
    c.relay_addr = "host:1".to_string();
    assert_eq!(c.relay_bind_hint(), None);
    assert_eq!(TrayConfig::default().relay_bind_hint().as_deref(), Some("127.0.0.1:8080"));
}

#[test]
fn the_form_leaves_the_rest_alone() {
    let mut c = UiConfig::default();
    c.set_column("peer", false);
    c.set_column("kind", true);
    c.set_column("peer", true);
    c.take_form(Form {
        relay_addr: "h:1".to_string(),
        room: "r".to_string(),
        max_text_bytes: 1,
        max_image_bytes: 2,
        max_file_bytes: 3,
        x11_poll_interval_ms: 4,
        image_mode: None,
        language: Some("en".to_string()),
    });
    assert_eq!(c.relay_addr, "h:1");
    assert_eq!(c.image_mode, "force-png");
    assert_eq!(c.language, "en");
    assert_eq!(c.history_columns.len(), 2);
    assert_eq!(c.history_columns.get("peer"), Some(&true));
    assert_eq!(c.history_columns.key(1), "kind");
    assert_eq!(c.history_columns.get("time"), None);
}

#[test]
fn fields_are_trimmed_and_read() {
    let mut c = UiConfig::default();
    let mut i = c.inputs();
    assert_eq!(i.max_text_bytes, "1048576");
    i.room = " x ".to_string();
    i.max_text_bytes = " 7 ".to_string();
    i.max_image_bytes = "many".to_string();
    c.take_inputs(&i);
    assert_eq!(c.room, "x");
    assert_eq!(c.max_text_bytes, 7);
    assert_eq!(c.max_image_bytes, 20 * 1024 * 1024);
}

#[test]
fn the_environment_chooses_systemd() {
    assert!(enabled_from_env_or_auto(Some("1"), false));
    assert!(!enabled_from_env_or_auto(Some("0"), true));
    assert!(enabled_from_env_or_auto(Some("x"), true));
    assert!(!enabled_from_env_or_auto(None, false));
    assert!(!tray_uses_systemd(Some("0"), true));
    assert!(!tray_uses_systemd(Some("1"), false));
    assert!(tray_uses_systemd(None, true));
    assert_eq!(
        status_snapshot(true, false, true, false),
        ServiceStatus { relay: true, watch: false, apply: true, x11: false }
    );
}

#[test]
fn services_get_their_environment() {
    let mut c = UiConfig::default();
    c.room = " r ".to_string();
    assert_eq!(
        env_text(&env_source(&c)),
        "MULTICLIPRELAY_RELAY=127.0.0.1:8080\n\
         MULTICLIPRELAY_BIND=127.0.0.1:8080\n\
         MULTICLIPRELAY_ROOM=r\n\
         MULTICLIPRELAY_MAX_TEXT_BYTES=1048576\n\
         MULTICLIPRELAY_MAX_IMAGE_BYTES=20971520\n\
         MULTICLIPRELAY_MAX_FILE_BYTES=20971520\n\
         MULTICLIPRELAY_IMAGE_MODE=force-png\n\
         MULTICLIPRELAY_WATCH_MODE=watch\n\
         MULTICLIPRELAY_POLL_INTERVAL_MS=200\n\
         MULTICLIPRELAY_X11_POLL_INTERVAL_MS=200\n"
    );
    c.relay_addr = "far:1".to_string();
    assert!(!env_text(&env_source(&c)).contains("BIND"));
    c.relay_addr = " ".to_string();
    assert!(env_text(&env_source(&c)).starts_with("MULTICLIPRELAY_ROOM="));
    assert!(env_text(&tray_env_source(&TrayConfig::default())).contains("X11_POLL_INTERVAL_MS=200"));
    assert_eq!(env_path(Some(b"/c")), b"/c/multicliprelay/multicliprelay.env");
    assert_eq!(unit_file_path(None, "u.service"), b".config/systemd/user/u.service");
}

#[test]
fn units_with_a_missing_program_are_repaired() {
    let unit = "[Service]\nExecStart= /old/multicliprelay-node wl-watch  --x\nExecStartPre=/old/node\nExecStart=relative\nExecStart=/else/other a\n";
    assert_eq!(programs_of(unit), vec!["/old/multicliprelay-node", "/else/other"]);
    let names = program_names_of("multicliprelay-wl-watch.service");
    assert_eq!(names, vec!["multicliprelay-node", "node"]);
    assert_eq!(
        program_names_of("multicliprelay-relay.service"),
        vec!["multicliprelay-relay", "relay"]
    );
    let fixed = repaired_unit(unit, "/usr/bin/multicliprelay-node", &names, &vec![]).expect("new");
    assert_eq!(
        fixed,
        "[Service]\nExecStart=/usr/bin/multicliprelay-node wl-watch  --x\nExecStartPre=/old/node\nExecStart=relative\nExecStart=/else/other a\n"
    );
    let there = vec!["/usr/bin/multicliprelay-node".to_string()];
    assert_eq!(repaired_unit(&fixed, "/usr/bin/multicliprelay-node", &names, &there), None);
    let old = vec!["/old/multicliprelay-node".to_string()];
    assert_eq!(repaired_unit(unit, "/usr/bin/x", &names, &old), None);
    assert_eq!(maybe_rewrite_execstart_line("ExecStart=/gone/x", "/y", &names, &vec![]), None);
}

#[test]
fn programs_are_looked_for_in_order() {
    assert!(is_dev_exe_location(Some("/w/target/debug/ui")));
    assert!(!is_dev_exe_location(Some("C:\\w\\target\\debug\\ui.exe")));
    assert!(is_dev_exe_location_any(Some("C:\\w\\target\\debug\\ui.exe")));
    assert!(!is_dev_exe_location(None));
    assert_eq!(
        all_places_of(1),
        vec![Place::Sibling(0), Place::OnPath(0), Place::UsrBin(0), Place::UsrLocalBin(0)]
    );
    assert_eq!(
        installed_places_of(2),
        vec![
            Place::UsrBin(0),
            Place::UsrLocalBin(0),
            Place::UsrBin(1),
            Place::UsrLocalBin(1),
            Place::OnPath(0),
            Place::OnPath(1),
        ]
    );
    assert_eq!(
        tray_places_of(2),
        vec![Place::Sibling(0), Place::Sibling(1), Place::OnPath(0), Place::OnPath(1)]
    );
    let f = false;
    let y = true;
    assert_eq!(resolve_near(f, &vec![f, y], &vec![y, y]), Some(Place::OnPath(0)));
    assert_eq!(resolve_near(y, &vec![f, y], &vec![y, y]), Some(Place::Sibling(1)));
    assert_eq!(resolve_near(f, &vec![y, y], &vec![y, y]), Some(Place::Sibling(0)));
    assert_eq!(resolve_near(f, &vec![f, f], &vec![f, f]), None);
    assert_eq!(ui_egui_names()[0], "multicliprelay-ui-egui");
    assert_eq!(ui_egui_exe(f, &vec![f, f, f, y], &vec![f, f, f, f]), Some(Place::Sibling(3)));
}

#[test]
fn the_newest_program_is_taken() {
    assert_eq!(newest_of(&vec![]), None);
    assert_eq!(newest_of(&vec![Some(5), Some(9), Some(9), Some(1)]), Some(1));
    assert_eq!(newest_of(&vec![None, Some(0)]), Some(0));
    assert_eq!(newest_of(&vec![None, Some(1)]), Some(1));
    assert_eq!(newest_of(&vec![Some(1), None]), Some(0));
}

fn settings() -> NodeSettings<'static> {
    NodeSettings {
        room: "r",
        relay: "h:1",
        max_text_bytes: 1,
        max_image_bytes: 2,
        max_file_bytes: 3,
        image_mode: "multi",
        x11_poll_interval_ms: 4,
    }
}

#[test]
fn programs_get_their_arguments() {
    assert_eq!(relay_args_of(Some(" h:1 ")), vec!["--bind", "h:1"]);
    assert!(relay_args_of(Some(" ")).is_empty());
    assert!(relay_args_of(None).is_empty());
    assert_eq!(
        watch_args_of(&settings()).join(" "),
        "wl-watch --room r --relay h:1 --mode watch --max-text-bytes 1 --max-image-bytes 2 --max-file-bytes 3 --image-mode multi"
    );
    assert_eq!(
        apply_args_of(&settings()).join(" "),
        "wl-apply --room r --relay h:1 --image-mode multi"
    );
    assert_eq!(
        x11_args_of(&settings()).join(" "),
        "x11-sync --x11-poll-interval-ms 4 --max-text-bytes 1 --max-image-bytes 2"
    );
    assert_eq!(
        win_watch_args_of(&settings()).join(" "),
        "win-watch --room r --relay h:1 --max-text-bytes 1 --max-image-bytes 2 --max-file-bytes 3"
    );
    assert_eq!(win_apply_args_of(&settings()).join(" "), "win-apply --room r --relay h:1");
    assert_eq!(
        send_text_args_of("d", "r", "h", "hi you").join("|"),
        "--device-id|d|send-text|--room|r|--relay|h|--text|hi you"
    );
    assert_eq!(
        send_image_args_of("d", "r", "h", "/f", 5, "multi").join("|"),
        "--device-id|d|send-image|--room|r|--relay|h|--file|/f|--max-bytes|5|--image-mode|multi"
    );
    assert_eq!(
        send_file_args_of("d", "r", "h", "/f", 5).join("|"),
        "--device-id|d|send-file|--room|r|--relay|h|--file|/f|--max-file-bytes|5"
    );
    assert_eq!(tagged_line("node", "stdout", "x"), "[node:stdout] x");
}

#[test]
fn programs_end_in_time() {
    assert_eq!(ending_of(Looked::Ended, 0, 800), Ending::Gone);
    assert_eq!(ending_of(Looked::Runs, 799, 800), Ending::LookAgain);
    assert_eq!(ending_of(Looked::Runs, 800, 800), Ending::Kill);
    assert_eq!(ending_of(Looked::Failed, 900, 800), Ending::LeaveAlone);
}

fn steps(s: &[ServiceStep]) -> Vec<String> {
    s.iter()
        .map(|s| match s {
            ServiceStep::WriteEnv => "env".to_string(),
            ServiceStep::StartUnit(s, r) => format!("start {} {r}", s.unit()),
            ServiceStep::StopUnit(s, r) => format!("stop {} {r}", s.unit()),
            ServiceStep::Spawn(s) => format!("spawn {}", s.name()),
            ServiceStep::Terminate(s) => format!("end {}", s.process()),
            ServiceStep::Say(l) => l.clone(),
        })
        .collect()
}

const OFF: ServiceStatus = ServiceStatus { relay: false, watch: false, apply: false, x11: false };

#[test]
fn buttons_start_and_stop_services() {
    assert_eq!(
        steps(&panel_start_of(Service::Watch, true, false, false)),
        vec!["env", "start multicliprelay-wl-watch.service true"]
    );
    assert_eq!(
        steps(&panel_start_of(Service::X11, true, false, false))[0].contains("does not support x11-sync"),
        true
    );
    assert_eq!(
        steps(&panel_start_of(Service::Apply, false, true, true)),
        vec!["wl-apply already running"]
    );
    assert_eq!(steps(&panel_start_of(Service::X11, false, false, false)), vec!["spawn x11-sync"]);
    assert_eq!(
        steps(&panel_stop_of(Service::Relay, true, false)),
        vec!["stop multicliprelay-relay.service true"]
    );
    assert_eq!(
        steps(&panel_stop_of(Service::Watch, false, true)),
        vec!["end node wl-watch", "stopping wl-watch"]
    );
    assert_eq!(steps(&panel_stop_of(Service::Watch, false, false)), vec!["wl-watch not running"]);
}

#[test]
fn buttons_start_and_stop_all_services() {
    assert_eq!(
        steps(&panel_start_all_of(OFF, false, true)),
        vec!["spawn relay", "spawn wl-watch", "spawn wl-apply"]
    );
    assert_eq!(steps(&panel_start_all_of(OFF, true, true)).len(), 6);
    assert_eq!(steps(&panel_start_all_of(OFF, true, false)).len(), 1);
    let some = ServiceStatus { relay: true, x11: true, ..OFF };
    assert_eq!(
        steps(&panel_stop_all_of(some, false)),
        vec!["end node x11-sync", "stopping x11-sync", "end relay", "stopping relay"]
    );
    assert_eq!(
        steps(&panel_stop_all_of(some, true)).last().map(|s| s.as_str()),
        Some("stopping all (systemd)")
    );
    assert_eq!(steps(&panel_close_of(some, false)), vec!["end node x11-sync", "end relay"]);
    assert!(panel_close_of(some, true).is_empty());
    let all = all_buttons(some, false);
    assert!(all.start && all.stop);
    let most = ServiceStatus { relay: true, watch: true, apply: true, x11: false };
    assert!(!all_buttons(most, false).start);
    assert!(all_buttons(most, true).start);
    assert!(!all_buttons(OFF, true).stop);
}

#[test]
fn the_tray_starts_and_stops_services() {
    assert!(tray_start_of(Service::Watch, true, true, false, true).is_empty());
    assert_eq!(steps(&tray_start_of(Service::Relay, true, true, false, true)).len(), 2);
    assert!(tray_start_of(Service::X11, false, false, false, true).is_empty());
    assert!(tray_start_of(Service::Apply, false, false, true, true).is_empty());
    assert_eq!(
        steps(&tray_start_of(Service::Apply, false, true, false, true)),
        vec!["spawn wl-apply"]
    );
    assert_eq!(steps(&tray_stop_of(Service::Apply, false, true)), vec!["end node wl-apply"]);
    assert!(tray_stop_of(Service::X11, false, true).is_empty());
    assert_eq!(tray_start_order()[1], Service::Apply);
    assert_eq!(tray_stop_order()[0], Service::X11);
    assert_eq!(current_status(true, OFF, ServiceStatus { relay: true, ..OFF }), OFF);
    assert!(service_runs(ServiceStatus { x11: true, ..OFF }, Service::X11));
}

#[test]
fn the_log_tells_how_it_went() {
    assert_eq!(outcome_line_of(true, Service::Relay, false, None), "started relay");
    assert_eq!(outcome_line_of(true, Service::X11, true, None), "started x11-sync (systemd)");
    assert_eq!(outcome_line_of(false, Service::Watch, true, None), "stopping wl-watch (systemd)");
    assert_eq!(
        outcome_line_of(true, Service::Apply, false, Some("no")),
        "failed to start wl-apply: no"
    );
    assert_eq!(
        outcome_line_of(false, Service::Apply, true, Some("no")),
        "failed to stop wl-apply (systemd): no"
    );
    assert_eq!(exited_line(Service::X11), "x11-sync exited");
}

#[test]
fn languages_are_chosen() {
    assert_eq!(detect_lang_from_env(None, None, Some("zh_CN.UTF-8")), Lang::ZhCn);
    assert_eq!(detect_lang_from_env(Some("en_US"), Some("zh"), Some("zh")), Lang::En);
    assert_eq!(detect_lang_from_env(None, Some("ZH"), None), Lang::ZhCn);
    assert_eq!(detect_lang_from_env(None, None, None), Lang::En);
    assert_eq!(parse_lang_id("zh_cn"), Some(Lang::ZhCn));
    assert_eq!(parse_lang_id("en-us"), Some(Lang::En));
    assert_eq!(parse_lang_id("fr"), None);
    assert_eq!(config_lang("auto", Lang::ZhCn), Lang::ZhCn);
    assert_eq!(config_lang("fr", Lang::ZhCn), Lang::ZhCn);
    assert_eq!(config_lang("en", Lang::ZhCn), Lang::En);
}

#[test]
fn texts_are_in_both_languages() {
    assert_eq!(t(Lang::En, K::WindowTitle), "MultiClipRelay (Control Panel)");
    assert_eq!(t(Lang::ZhCn, K::StatusRunning), "运行中");
    assert_eq!(tray_t(Lang::En, TrayK::Quit), "Quit");
    assert_eq!(tray_t(Lang::ZhCn, TrayK::Quit), "退出");
    assert!(help_text(Lang::En).starts_with("Image modes (important):\n\n1) Force PNG"));
    assert!(help_text(Lang::ZhCn).contains("spoof-png"));
    assert!(image_mode_hint_text(Lang::En, "multi").starts_with("Offer original MIME"));
    assert_eq!(image_mode_hint_text(Lang::ZhCn, "x"), "");
    for (id, _) in image_mode_choices(Lang::En) {
        assert!(parse_image_mode(id).is_ok());
    }
}

#[test]
fn the_menu_follows_the_services() {
    let on = ServiceStatus { relay: true, ..OFF };
    let m = menu_of(Lang::En, on, false);
    assert_eq!(m.len(), 16);
    let open: Vec<TrayAction> = m
        .iter()
        .filter_map(|e| match e {
            MenuEntry::Item { enabled: true, action, .. } => Some(*action),
            _ => None,
        })
        .collect();
    assert_eq!(
        open,
        vec![
            TrayAction::OpenPanel,
            TrayAction::ReloadConfig,
            TrayAction::StartAll,
            TrayAction::StopAll,
            TrayAction::Stop(Service::Relay),
            TrayAction::Start(Service::Watch),
            TrayAction::Start(Service::Apply),
            TrayAction::Quit,
        ]
    );
    assert_eq!(
        tooltip_of(Lang::En, on),
        "Status:\nrelay: on\nwl-watch: off\nwl-apply: off\nx11-sync: off\n\nNote: GNOME may require an AppIndicator extension to show the tray.\n"
    );
    assert!(tooltip_of(Lang::ZhCn, on).starts_with("状态：\nrelay: 开\n"));
}

#[test]
fn log_lines_tell_their_source() {
    assert_eq!(split_prefix("[node:stdout] hello"), ("node:stdout".to_string(), "hello".to_string()));
    assert_eq!(split_prefix("[a]  b"), ("a".to_string(), " b".to_string()));
    assert_eq!(split_prefix("[a]b ] c"), ("a]b ".to_string(), "c".to_string()));
    assert_eq!(split_prefix("[a]b"), ("a".to_string(), "b".to_string()));
    assert_eq!(split_prefix("[a"), ("ui".to_string(), "[a".to_string()));
    assert_eq!(split_prefix("started"), ("ui".to_string(), "started".to_string()));
    assert_eq!(log_row("12:00:00", "[n:s] x"), "12:00:00\tn:s\tx");
    assert_eq!(rows_to_drop(5000), 0);
    assert_eq!(rows_to_drop(5003), 3);
    assert_eq!(parse_cols("a\tb\tc", 1), "b");
    assert_eq!(parse_cols("a", 3), "");
}

#[test]
fn journals_become_columns() {
    let text = "2026-01-26T17:52:56+08:00 host unit[1]:  message here\n\nshort line\n";
    assert_eq!(
        format_journal_as_columns(text),
        "2026-01-26T17:52:56+08:00\tunit[1]\tmessage here\n\t\tshort line\n"
    );
}

#[test]
fn the_end_of_the_history_is_shown() {
    assert_eq!(tail_start(100, 30), 70);
    assert_eq!(tail_start(10, 30), 0);
    assert_eq!(tail_lines(0, b"a\nb\n \nc", 9), vec!["a", "b", "c"]);
    assert_eq!(tail_lines(5, b"rt\nb\nc\n", 9), vec!["b", "c"]);
    assert_eq!(tail_lines(0, b"a\nb\nc\n", 2), vec!["b", "c"]);
    assert_eq!(
        history_path(None, Some(b"/h")),
        b"/h/.local/share/multicliprelay/history.jsonl"
    );
    assert_eq!(history_path(Some(b"/d"), None), b"/d/multicliprelay/history.jsonl");
    assert_eq!(history_path(None, None), b"/tmp/multicliprelay/history.jsonl");
    assert_eq!(rows_or_hint(vec![], "none"), vec!["\t\t\t\t\tnone"]);
    assert_eq!(rows_or_hint(vec!["x".to_string()], "none"), vec!["x"]);
}

fn event() -> ReadEvent {
    ReadEvent {
        dir: Some("recv".to_string()),
        room: Some("r".to_string()),
        relay: Some("h:1".to_string()),
        local_device_id: Some("me".to_string()),
        remote_device_id: Some("you".to_string()),
        kind: Some("text".to_string()),
        mime: Some("m".to_string()),
        name: None,
        bytes: Some(5),
        sha256: Some("0123456789".to_string()),
    }
}

#[test]
fn events_become_rows() {
    assert_eq!(
        format_event_as_row(&event(), "T"),
        "T\trecv\tyou\ttext\t5\troom=r mime=m sha=01234567 relay=h:1"
    );
    let mut e = event();
    e.dir = None;
    e.room = Some(String::new());
    e.relay = None;
    e.remote_device_id = None;
    e.mime = Some(String::new());
    e.bytes = None;
    e.sha256 = None;
    assert_eq!(format_event_as_row(&e, "T"), "T\t?\tme\ttext\t?\t");
    assert_eq!(fmt_ts(Some(1_700_000_000_007), Some("2023-11-14 22:13:20")), "2023-11-14 22:13:20.007");
    assert_eq!(fmt_ts(Some(12), None), "12");
    assert_eq!(fmt_ts(None, Some("x")), "?");
    assert_eq!(column_label(Lang::ZhCn, "bytes"), "大小");
    assert_eq!(column_label(Lang::En, "bytes"), "bytes");
}

#[test]
fn times_are_in_milliseconds() {
    assert_eq!(clock_text_of(Some(1_234_567_890)), "1234");
    assert_eq!(clock_text_of(None), "0");
    assert!(chrono_like_timestamp().parse::<u64>().is_ok());
    let d = fake_remote_device_id(42);
    assert!(d.starts_with("ui-test-42-"));
}

#[test]
fn probes_report_changes() {
    let mut p = Probe::new();
    assert!(p.on_result(true, "a"));
    assert!(!p.on_result(true, "a"));
    assert!(p.on_result(false, "a"));
    assert_eq!(probe_line(false, "x").as_deref(), Some("relay probe: x"));
    assert_eq!(probe_line(true, "x"), None);
    assert_eq!(probe_line(false, " "), None);
}

#[test]
fn logs_keep_their_last_lines() {
    let mut l = LogBuffer::new();
    for i in 0..805 {
        l.log(i.to_string());
    }
    let text = l.text();
    assert_eq!(text.lines().count(), 800);
    assert!(text.starts_with("5\n6\n"));
    l.clear();
    assert_eq!(l.text(), "");
}

#[test]
fn blank_variables_are_set_by_the_panel_and_left_out_by_the_tray() {
    let mut c = UiConfig::default();
    c.room = " \t".to_string();
    c.image_mode = String::new();
    c.relay_addr = String::new();
    assert_eq!(
        env_text(&env_source(&c)),
        "MULTICLIPRELAY_ROOM=\n\
         MULTICLIPRELAY_MAX_TEXT_BYTES=1048576\n\
         MULTICLIPRELAY_MAX_IMAGE_BYTES=20971520\n\
         MULTICLIPRELAY_MAX_FILE_BYTES=20971520\n\
         MULTICLIPRELAY_IMAGE_MODE=\n\
         MULTICLIPRELAY_WATCH_MODE=watch\n\
         MULTICLIPRELAY_POLL_INTERVAL_MS=200\n\
         MULTICLIPRELAY_X11_POLL_INTERVAL_MS=200\n"
    );
    let mut t = TrayConfig::default();
    t.room = "  ".to_string();
    t.image_mode = String::new();
    t.relay_addr = "far:1".to_string();
    assert_eq!(
        env_text(&tray_env_source(&t)),
        "MULTICLIPRELAY_RELAY=far:1\n\
         MULTICLIPRELAY_MAX_TEXT_BYTES=1048576\n\
         MULTICLIPRELAY_MAX_IMAGE_BYTES=20971520\n\
         MULTICLIPRELAY_MAX_FILE_BYTES=20971520\n\
         MULTICLIPRELAY_WATCH_MODE=watch\n\
         MULTICLIPRELAY_POLL_INTERVAL_MS=200\n\
         MULTICLIPRELAY_X11_POLL_INTERVAL_MS=200\n"
    );
}

#[test]
fn running_services_are_not_started_again() {
    for s in [Service::Relay, Service::Watch, Service::Apply, Service::X11] {
        let st = status_snapshot(
            s == Service::Relay,
            s == Service::Watch,
            s == Service::Apply,
            s == Service::X11,
        );
        let mut steps = panel_start_of(s, false, true, true);
        steps.extend(panel_start_all_of(st, false, true));
        steps.extend(tray_start_of(s, false, true, true, true));
        assert!(!steps.iter().any(|step| matches!(step, ServiceStep::Spawn(x) if *x == s)));
    }
}
