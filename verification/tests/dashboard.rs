use lion::monitor::{IN_ACCESS, IN_CREATE, IN_DELETE, IN_DELETE_SELF, IN_MODIFY};
use lion::tui::app::{App, Key, Tab, MAX_LOG_ENTRIES, MAX_OUTPUT_LINES, OUTPUT_PAGE, SPARKLINE_LEN};
use lion::tui::events::{
    extract_proxy_target, inotify_event, parse_monitor_line, EventKind, PerfSnapshot, SandboxEvent,
    SandboxInfo, TuiMsg,
};
use lion::tui::layout::{inner_margin, Area};
use lion::tui::perf::{io_figures, parse_stat, pick_state, status_figures, PerfTotals};
use lion::tui::view::{self, Tone};

fn snapshot(rss: u64) -> PerfSnapshot {
    PerfSnapshot {
        rss_kb: rss,
        vmsz_kb: 0,
        threads: 1,
        io_read_kb: 0,
        io_write_kb: 0,
        state: 'S',
        processes: vec![],
    }
}

#[test]
fn tabs_cycle() {
    assert_eq!(Tab::Events.title(), " Events ");
    assert_eq!(Tab::Perf.title(), " Perf   ");
    assert!(matches!(Tab::Events.next(), Tab::Perf));
    assert!(matches!(Tab::Status.next(), Tab::Events));
    assert!(matches!(Tab::Events.prev(), Tab::Status));
    for t in [Tab::Events, Tab::Perf, Tab::Status] {
        assert_eq!(t.next().prev().title(), t.title());
        assert_eq!(t.next().next().next().title(), t.title());
    }
}

#[test]
fn event_labels() {
    assert_eq!(EventKind::Read.label(), "READ   ");
    assert_eq!(EventKind::ProxyAllow.label(), "NET-OK ");
    assert_eq!(EventKind::ProxyBlock.label(), "NET-BL ");
    assert_eq!(EventKind::Info.label(), "INFO   ");
}

#[test]
fn new_event_carries_its_timestamp() {
    let ev = SandboxEvent::new(EventKind::Read, None, "x".to_string(), 1_700_000_000_123);
    assert_eq!(ev.timestamp, 1_700_000_000_123);
    let info = SandboxEvent::info("hello".to_string(), 42);
    assert_eq!(info.kind, EventKind::Info);
    assert_eq!(info.raw, "hello");
    assert_eq!(info.path, None);
    assert_eq!(info.timestamp, 42);
    assert_eq!(parse_monitor_line("x", 7).timestamp, 7);
    assert_eq!(inotify_event(IN_ACCESS, "/a".into(), 9).timestamp, 9);
}

#[test]
fn proxy_lines() {
    let ev = parse_monitor_line("  [LION-PROXY] ALLOWED api.example.com:443  ", 0);
    assert_eq!(ev.kind, EventKind::ProxyAllow);
    assert_eq!(ev.path, Some("api.example.com:443".to_string()));
    assert_eq!(ev.raw, "[LION-PROXY] ALLOWED api.example.com:443");
    let ev = parse_monitor_line("[LION-PROXY] BLOCKED (evil.com)", 0);
    assert_eq!(ev.kind, EventKind::ProxyBlock);
    assert_eq!(ev.path, Some("evil.com".to_string()));
    assert_eq!(extract_proxy_target("[LION-PROXY] ALLOWED"), None);
    assert_eq!(extract_proxy_target("a 'b' \x1b[0m"), Some("b".to_string()));
}

#[test]
fn monitor_lines() {
    let ev = parse_monitor_line("cat: /etc/shadow: Permission denied", 0);
    assert_eq!(ev.kind, EventKind::Blocked);
    // every whitespace-separated token is looked at, the program name too
    assert_eq!(ev.path, Some("/etc/shadow".to_string()));
    let ev = parse_monitor_line("/bin/sh: /x: No such file or directory", 0);
    assert_eq!(ev.kind, EventKind::Missing);
    assert_eq!(ev.path, Some("/bin/sh".to_string()));
    let ev = parse_monitor_line("[LION-PROXY] started", 0);
    assert_eq!(ev.kind, EventKind::Info);
    assert_eq!(ev.raw, "[LION-PROXY] started");
}

#[test]
fn inotify_kinds() {
    assert_eq!(inotify_event(IN_DELETE_SELF | IN_CREATE, "/a".into(), 0).kind, EventKind::Delete);
    assert_eq!(inotify_event(IN_DELETE, "/a".into(), 0).kind, EventKind::Delete);
    assert_eq!(inotify_event(IN_CREATE | IN_MODIFY, "/a".into(), 0).kind, EventKind::Create);
    assert_eq!(inotify_event(IN_MODIFY | IN_ACCESS, "/a".into(), 0).kind, EventKind::Write);
    let ev = inotify_event(IN_ACCESS, "/a".into(), 0);
    assert_eq!(ev.kind, EventKind::Read);
    assert_eq!(ev.path, Some("/a".to_string()));
    assert_eq!(ev.raw, "/a");
    assert_eq!(inotify_event(0, "/a".into(), 0).kind, EventKind::Info);
}

#[test]
fn app_counts_and_bounds_log() {
    let mut app = App::new();
    assert!(app.log_follow);
    assert!(!app.handle_msg(TuiMsg::Log(SandboxEvent::new(EventKind::Blocked, None, "b".into(), 0))));
    assert!(!app.handle_msg(TuiMsg::Log(SandboxEvent::new(EventKind::Read, None, "r".into(), 0))));
    assert!(!app.handle_msg(TuiMsg::Log(SandboxEvent::new(EventKind::ProxyAllow, None, "p".into(), 0))));
    assert_eq!(app.count_blocked, 1);
    assert_eq!(app.count_read, 1);
    assert_eq!(app.count_net_allow, 1);
    assert_eq!(app.log.len(), 3);
    for i in 0..(MAX_LOG_ENTRIES + 5) {
        app.handle_msg(TuiMsg::Log(SandboxEvent::new(EventKind::Write, None, format!("{i}"), 0)));
    }
    assert_eq!(app.log.len(), MAX_LOG_ENTRIES);
    assert_eq!(app.log.back().unwrap().raw, format!("{}", MAX_LOG_ENTRIES + 4));
    assert!(app.handle_msg(TuiMsg::Shutdown));
}

#[test]
fn app_ram_history_and_percentages() {
    let mut app = App::new();
    assert_eq!(app.ram_pct_u64(), 0);
    app.handle_msg(TuiMsg::Perf(snapshot(200)));
    app.handle_msg(TuiMsg::Perf(snapshot(50)));
    assert_eq!(app.ram_spark_data_absolute(), vec![200, 50]);
    assert_eq!(app.ram_spark_data(), vec![100, 25]);
    assert_eq!(app.ram_pct_u64(), 25);
    for _ in 0..(SPARKLINE_LEN + 3) {
        app.handle_msg(TuiMsg::Perf(snapshot(10)));
    }
    assert_eq!(app.ram_history.len(), SPARKLINE_LEN);
}

#[test]
fn app_keys() {
    let mut app = App::new();
    assert!(!app.on_key(Key::Char('f')));
    assert!(!app.log_follow);
    assert!(!app.on_key(Key::Char('f')));
    assert!(app.log_follow);
    assert!(!app.on_key(Key::Char('F')));
    assert!(!app.log_follow);
    assert!(!app.on_key(Key::Char('F')));
    assert!(app.log_follow);
    app.on_key(Key::Tab);
    assert!(matches!(app.current_tab, Tab::Perf));
    app.on_key(Key::BackTab);
    assert!(matches!(app.current_tab, Tab::Events));
    assert!(!app.should_quit);
    app.on_key(Key::Char('q'));
    assert!(app.should_quit);
    let mut app = App::new();
    assert!(app.on_key(Key::Char('K')));
    assert!(!app.on_key(Key::Char('k')));
    assert!(!app.log_follow);
    assert!(!app.handle_msg(TuiMsg::KillRequested));
    assert!(app.force_kill_requested);
}

#[test]
fn app_elapsed_and_info() {
    let mut app = App::new();
    app.elapsed_secs = 3 * 3600 + 7 * 60 + 9;
    assert_eq!(app.elapsed_str(), "03:07:09");
    app.elapsed_secs = 100 * 3600;
    assert_eq!(app.elapsed_str(), "100:00:00");
    let mut info = SandboxInfo::default();
    info.command = vec!["npm".to_string(), "run".to_string(), "dev".to_string()];
    assert_eq!(info.command_str(), "npm run dev");
    app.handle_msg(TuiMsg::SandboxInfo(info));
    assert_eq!(app.sandbox_info.command_str(), "npm run dev");
}

#[test]
fn log_window_follow_and_scroll() {
    let mut app = App::new();
    for i in 0..10 {
        app.handle_msg(TuiMsg::Log(SandboxEvent::new(EventKind::Read, None, format!("{i}"), 0)));
    }
    assert_eq!(app.log_window(4), (6, 4));
    assert_eq!(app.log_window(20), (0, 10));
    app.log_follow = false;
    app.log_scroll = 8;
    assert_eq!(app.log_window(4), (8, 2));
    app.log_scroll = 12;
    assert_eq!(app.log_window(4), (12, 0));
}

#[test]
fn margins() {
    let a = inner_margin(Area { x: 2, y: 3, width: 10, height: 1 }, 1, 1);
    assert_eq!(a, Area { x: 3, y: 4, width: 8, height: 0 });
}

#[test]
fn perf_parsing() {
    let stat = "1234 (my (odd) prog) S 1 1234 1234 0 -1 4194304 100 0 0 0 25 7 0 0 20 0 1 0";
    let (comm, times) = parse_stat(stat).unwrap();
    assert_eq!(comm, "my (odd) prog");
    assert_eq!(times, Some((25, 7, 'S')));
    assert_eq!(parse_stat("1 (short) R 1 2"), Some(("short".to_string(), None)));
    assert_eq!(parse_stat("no parens at all"), Some((String::new(), None)));
    assert_eq!(parse_stat("1 ) weird ("), None);

    let status = "Name:\tbash\nVmSize:\t  10000 kB\nVmRSS:\t  2048 kB\r\nThreads:\tx\nVmRSS:\t 4096 kB\n";
    assert_eq!(status_figures(status), Some((4096, 2048 + 4096, 10000, 1)));
    assert_eq!(status_figures(""), Some((0, 0, 0, 0)));
    assert_eq!(status_figures("VmRSS: 18446744073709551615 kB\nVmRSS: 1 kB"), None);

    let io = "rchar: 5\nread_bytes: 4096\nwrite_bytes:  2047 \nread_bytes: bad\n";
    assert_eq!(io_figures(io), Some((4, 1)));
}

#[test]
fn perf_totals() {
    let mut t = PerfTotals::new();
    let stat = "10 (sh) R 1 10 10 0 -1 0 0 0 0 0 3 4 0 0 20 0 1 0";
    assert!(t.add_process(10, Some(stat), Some("VmRSS: 100 kB\nVmSize: 300 kB\nThreads: 2\n"), Some("read_bytes: 2048\n")));
    assert!(t.add_process(11, None, Some("VmRSS: 50 kB\n"), None));
    assert_eq!((t.utime, t.stime, t.rss_kb, t.vmsz_kb, t.threads, t.io_read_kb), (3, 4, 150, 300, 2, 2));
    assert_eq!(t.ticks(), Some(7));
    // a stat text cut the wrong way round is refused and changes nothing
    assert!(!t.add_process(12, Some("12 ) x ("), None, None));
    assert_eq!(t.processes.len(), 2);
    let snap = t.into_snapshot();
    assert_eq!(snap.state, 'R');
    assert_eq!(snap.rss_kb, 150);
    assert_eq!(snap.processes[0].comm, "sh");
    assert_eq!(snap.processes[1].mem, 50);
    assert_eq!(snap.processes[1].comm, "");
    assert_eq!(pick_state(&vec!['S', 'D']), 'D');
    assert_eq!(pick_state(&vec!['Z', 'S']), 'S');
    assert_eq!(pick_state(&vec!['Z']), 'Z');
    assert_eq!(pick_state(&vec![]), '?');
}

#[test]
fn view_cells() {
    assert_eq!(view::kind_cell(EventKind::Read), "READ     ");
    assert_eq!(view::pid_cell(42), "42     ");
    assert_eq!(view::pid_cell(1234567), "1234567 ");
    assert_eq!(view::mem_cell(5 * 1024 + 3), "    5MB");
    assert_eq!(view::mem_cell(123456 * 1024), " 123456MB");
    assert_eq!(view::mem_cell(0), "    0MB");
    assert_eq!(view::follow_badge(true), "● LIVE");
    assert_eq!(view::follow_badge(false), "◌ PAUSED");
    assert_eq!(view::path_tone(&"/a (ro)".to_string()), Tone::Dim);
    assert_eq!(view::path_tone(&"/a (rw)".to_string()), Tone::Warn);
    assert_eq!(view::event_tone(EventKind::Blocked), Tone::Bad);
    assert_eq!(view::event_tone(EventKind::Delete), Tone::Warn);
    assert_eq!(view::event_tone(EventKind::Read), Tone::Dim);
    let ev = SandboxEvent::new(EventKind::Read, None, "raw line".into(), 0);
    assert_eq!(view::event_target(&ev), "raw line");
    let ev = SandboxEvent::new(EventKind::Read, Some("/p".into()), "raw line".into(), 0);
    assert_eq!(view::event_target(&ev), "/p");
    let paths: Vec<String> = (0..9).map(|i| format!("/p{i}")).collect();
    assert_eq!(view::shown_paths(&paths), paths[..6].to_vec());
    assert_eq!(view::shown_paths(&paths[..2].to_vec()), paths[..2].to_vec());
    let mut info = SandboxInfo::default();
    assert_eq!(view::command_display(&info), "waiting...");
    info.command = vec!["ls".to_string(), "-la".to_string()];
    assert_eq!(view::command_display(&info), "ls -la");
}

fn output_line(app: &mut App, text: String) -> bool {
    app.handle_msg(TuiMsg::Output(text))
}

#[test]
fn output_panel_keeps_lines_and_follows() {
    let mut app = App::new();
    assert!(app.output_follow);
    assert!(!output_line(&mut app, "compiling...".into()));
    assert!(!output_line(&mut app, "done".into()));
    assert_eq!(app.output.len(), 2);
    assert_eq!(app.output_scroll, 1);
    assert_eq!(app.output_window(1), (1, 1));
    for i in 0..(MAX_OUTPUT_LINES + 3) {
        output_line(&mut app, format!("{i}"));
    }
    assert_eq!(app.output.len(), MAX_OUTPUT_LINES);
    assert_eq!(app.output.back().unwrap(), &format!("{}", MAX_OUTPUT_LINES + 2));
    assert_eq!(app.output_scroll, MAX_OUTPUT_LINES - 1);
    // the log is untouched by output lines
    assert_eq!(app.log.len(), 0);
}

#[test]
fn output_panel_keys() {
    let mut app = App::new();
    for i in 0..30 {
        output_line(&mut app, format!("{i}"));
    }
    assert_eq!(app.output_scroll, 29);
    assert!(!app.on_key(Key::PageUp));
    assert!(!app.output_follow);
    assert_eq!(app.output_scroll, 29 - OUTPUT_PAGE);
    app.on_key(Key::PageUp);
    app.on_key(Key::PageUp);
    assert_eq!(app.output_scroll, 0);
    app.on_key(Key::PageDown);
    assert_eq!(app.output_scroll, OUTPUT_PAGE);
    app.on_key(Key::PageDown);
    app.on_key(Key::PageDown);
    assert_eq!(app.output_scroll, 29);
    // not following: a new line keeps the view where it is
    app.output_scroll = 5;
    output_line(&mut app, "more".into());
    assert_eq!(app.output_scroll, 5);
    assert_eq!(app.output_window(3), (5, 3));
    // `O` turns following back on and jumps to the newest line
    assert!(!app.on_key(Key::Char('O')));
    assert!(app.output_follow);
    assert_eq!(app.output_scroll, 30);
    assert!(!app.on_key(Key::Char('O')));
    assert!(!app.output_follow);
    assert_eq!(app.output_scroll, 30);
    assert!(!app.on_key(Key::Char('o')));
    assert!(app.output_follow);
    // the access log is not moved by these keys
    assert!(app.log_follow);
    assert_eq!(app.log_scroll, 0);
}

#[test]
fn bounds_hold_over_a_mixed_run() {
    let mut app = App::new();
    let keys = [Key::Char('f'), Key::PageDown, Key::Down, Key::Char('O'), Key::End, Key::PageUp, Key::Up, Key::Char('g')];
    for i in 0..(MAX_LOG_ENTRIES + MAX_OUTPUT_LINES + 50) {
        match i % 4 {
            0 => {
                app.handle_msg(TuiMsg::Log(SandboxEvent::new(EventKind::Read, None, format!("{i}"), 0)));
            }
            1 => {
                app.handle_msg(TuiMsg::Output(format!("{i}")));
            }
            2 => {
                app.handle_msg(TuiMsg::Perf(snapshot(i as u64)));
            }
            _ => {
                app.on_key(keys[(i / 4) % keys.len()]);
                app.tick();
            }
        }
        assert!(app.log.len() <= MAX_LOG_ENTRIES);
        assert!(app.output.len() <= MAX_OUTPUT_LINES);
        assert!(app.ram_history.len() <= SPARKLINE_LEN);
        assert!(app.log_scroll <= app.log.len().saturating_sub(1));
        assert!(app.output_scroll <= app.output.len().saturating_sub(1));
    }
}
