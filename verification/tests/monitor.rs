use lion::monitor::{
    banner_lines, classify, classify_event, event_line, extract_path, extract_reason, inotify_line,
    watch_buffered, IN_ACCESS, IN_CREATE, IN_DELETE, IN_ISDIR, IN_MODIFY, IN_OPEN,
};

#[test]
fn classify_lines() {
    assert_eq!(classify("cat: /etc/shadow: Permission denied"), ("BLOCKED", "\x1b[1m\x1b[31m"));
    assert_eq!(classify("touch: /usr/x: Read-only file system"), ("BLOCKED", "\x1b[1m\x1b[31m"));
    assert_eq!(classify("x: Operation not permitted"), ("BLOCKED", "\x1b[1m\x1b[31m"));
    assert_eq!(classify("ls: /nope: No such file or directory"), ("MISSING", "\x1b[1m\x1b[33m"));
    assert_eq!(classify("hello"), ("info   ", "\x1b[90m"));
}

#[test]
fn extract_path_skips_program_name() {
    assert_eq!(extract_path("bash: /etc/shadow: Permission denied"), Some("/etc/shadow".to_string()));
    assert_eq!(
        extract_path("cp: cannot create regular file '/usr/bin/x': Read-only file system"),
        Some("/usr/bin/x".to_string())
    );
    assert_eq!(extract_path("/bin/sh: oops"), None);
    assert_eq!(extract_path("no path here"), None);
}

#[test]
fn extract_reason_last_segment() {
    assert_eq!(extract_reason("bash: /etc/shadow: Permission denied "), "Permission denied");
    assert_eq!(extract_reason("  plain  "), "plain");
    assert_eq!(extract_reason("ends with:"), "");
}

#[test]
fn watch_buffered_skips_blank_lines() {
    let lines = vec![
        "cat: /etc/shadow: Permission denied".to_string(),
        "   ".to_string(),
        "".to_string(),
        "hello".to_string(),
    ];
    let evs = watch_buffered(&lines);
    assert_eq!(evs.len(), 2);
    assert_eq!(evs[0].tag, "BLOCKED");
    assert_eq!(evs[0].path, Some("/etc/shadow".to_string()));
    assert_eq!(evs[0].reason, "Permission denied");
    assert_eq!(evs[1].tag, "info   ");
    assert_eq!(evs[1].path, None);
    assert_eq!(evs[1].line, "hello");
    assert_eq!(
        event_line("12:00:01", &evs[0]),
        "[LION] 12:00:01  \x1b[1m\x1b[31mBLOCKED\x1b[0m  \x1b[1m/etc/shadow\x1b[0m  \x1b[90m(Permission denied)\x1b[0m"
    );
    assert_eq!(event_line("12:00:01", &evs[1]), "[LION] 12:00:01  \x1b[90minfo   \x1b[0m  \x1b[90mhello\x1b[0m");
}

#[test]
fn banner_lists_paths() {
    let b = banner_lines(&vec![]);
    assert_eq!(b.len(), 4);
    assert!(b[2].contains("no read-only paths configured"));
    let b = banner_lines(&vec!["/data".to_string(), "/x".to_string()]);
    assert_eq!(b.len(), 5);
    assert_eq!(
        b[2],
        format!("\x1b[1m\x1b[34m║  \x1b[33mRO\x1b[34m  \x1b[0m{:<44}\x1b[1m\x1b[34m║\x1b[0m", "/data")
    );
}

#[test]
fn inotify_classes() {
    assert_eq!(classify_event(IN_ACCESS).0, "READ   ");
    assert_eq!(classify_event(IN_OPEN | IN_MODIFY).0, "READ   ");
    assert_eq!(classify_event(IN_MODIFY).0, "WRITE  ");
    assert_eq!(classify_event(IN_CREATE).0, "CREATE ");
    assert_eq!(classify_event(IN_DELETE).0, "DELETE ");
    assert_eq!(classify_event(0), ("EVENT  ", "\x1b[90m", ""));
    assert_eq!(inotify_line("t", "/d", IN_ISDIR | IN_OPEN), None);
    assert_eq!(
        inotify_line("t", "/f", IN_CREATE),
        Some("[LION] t  \x1b[1m\x1b[34mCREATE   📄 \x1b[0m\x1b[0m  \x1b[36m/f\x1b[0m".to_string())
    );
}
