//! The messages and events the dashboard receives.

use vstd::prelude::*;
use crate::monitor::{IN_ACCESS, IN_CREATE, IN_DELETE, IN_DELETE_SELF, IN_MODIFY, IN_OPEN, first_path_token, first_path_token_exec, has_flag, is_blocked, is_blocked_line, is_missing_line, mask_has};
use crate::text::{chars_eq_str, chars_of, contains_str, has_sub, join_seqs, join_strings, seq_views, split_whitespace, string_of, string_views, trim, trim_chars, trim_set, trim_set_chars, words};

verus! {

/// The kind of activity being reported.
#[derive(Clone, Copy, PartialEq, Eq, Structural, Debug)]
pub enum EventKind {
    Read,
    Write,
    Create,
    Delete,
    Blocked,
    Missing,
    ProxyAllow,
    ProxyBlock,
    Info,
}

pub open spec fn kind_label(k: EventKind) -> Seq<char> {
    match k {
        EventKind::Read => "READ   "@,
        EventKind::Write => "WRITE  "@,
        EventKind::Create => "CREATE "@,
        EventKind::Delete => "DELETE "@,
        EventKind::Blocked => "BLOCKED"@,
        EventKind::Missing => "MISSING"@,
        EventKind::ProxyAllow => "NET-OK "@,
        EventKind::ProxyBlock => "NET-BL "@,
        EventKind::Info => "INFO   "@,
    }
}

impl EventKind {
    /// The seven-character tag of the kind.
    pub fn label(self) -> (r: &'static str)
        ensures
            r@ == kind_label(self),
    {
        match self {
            EventKind::Read => "READ   ",
            EventKind::Write => "WRITE  ",
            EventKind::Create => "CREATE ",
            EventKind::Delete => "DELETE ",
            EventKind::Blocked => "BLOCKED",
            EventKind::Missing => "MISSING",
            EventKind::ProxyAllow => "NET-OK ",
            EventKind::ProxyBlock => "NET-BL ",
            EventKind::Info => "INFO   ",
        }
    }
}

/// A single log entry of the dashboard.
pub struct SandboxEvent {
    /// When it was recorded, in milliseconds since the Unix epoch.
    pub timestamp: i64,
    pub kind: EventKind,
    pub path: Option<String>,
    pub raw: String,
}

impl SandboxEvent {
    /// An event recorded at `timestamp` (milliseconds since the Unix epoch,
    /// read from the clock by the caller).
    pub fn new(kind: EventKind, path: Option<String>, raw: String, timestamp: i64) -> (r: SandboxEvent)
        ensures
            r.kind == kind,
            r.path == path,
            r.raw == raw,
            r.timestamp == timestamp,
    {
        SandboxEvent { timestamp, kind, path, raw }
    }

    /// An information event with no path, recorded at `timestamp`.
    pub fn info(msg: String, timestamp: i64) -> (r: SandboxEvent)
        ensures
            r.kind == EventKind::Info,
            r.path is None,
            r.raw == msg,
            r.timestamp == timestamp,
    {
        SandboxEvent::new(EventKind::Info, None, msg, timestamp)
    }
}

/// One process of the sandbox's tree.
pub struct ProcessInfo {
    pub pid: u32,
    /// Its command name.
    pub comm: String,
    /// Its resident memory, in kB.
    pub mem: u64,
}

/// Memory, thread and I/O figures aggregated across the sandbox's process
/// tree.  (The CPU share, a floating-point figure, travels beside it.)
pub struct PerfSnapshot {
    pub rss_kb: u64,
    pub vmsz_kb: u64,
    pub threads: u32,
    pub io_read_kb: u64,
    pub io_write_kb: u64,
    /// R, S, D, etc.
    pub state: char,
    pub processes: Vec<ProcessInfo>,
}

/// Static metadata about the running sandbox.
pub struct SandboxInfo {
    pub command: Vec<String>,
    pub network_mode: String,
    pub pid: u32,
    /// When the sandbox started, in milliseconds since the Unix epoch.
    pub started_at: Option<i64>,
    pub project_access: String,
    pub exposed_paths: Vec<String>,
    pub active_modules: Vec<String>,
    pub is_home_exposed: bool,
}

impl SandboxInfo {
    /// Nothing known yet.
    pub fn default() -> (r: SandboxInfo)
        ensures
            r.command@.len() == 0,
            r.network_mode@.len() == 0,
            r.pid == 0,
            r.started_at is None,
            r.project_access@.len() == 0,
            r.exposed_paths@.len() == 0,
            r.active_modules@.len() == 0,
            !r.is_home_exposed,
    {
        SandboxInfo {
            command: Vec::new(),
            network_mode: String::new(),
            pid: 0,
            started_at: None,
            project_access: String::new(),
            exposed_paths: Vec::new(),
            active_modules: Vec::new(),
            is_home_exposed: false,
        }
    }

    /// The command, its words joined with spaces.
    pub fn command_str(&self) -> (r: String)
        ensures
            r@ == join_seqs(string_views(self.command@), " "@),
    {
        let v = join_strings(&self.command, " ");
        string_of(v.as_slice())
    }
}

/// High-level message types sent to the dashboard.
pub enum TuiMsg {
    /// A new sandbox event (log entry).
    Log(SandboxEvent),
    /// A performance snapshot.
    Perf(PerfSnapshot),
    /// Update the sandbox metadata.
    SandboxInfo(SandboxInfo),
    /// A line the sandboxed command wrote on its standard output.
    Output(String),
    /// The user asked for the sandbox to be killed.
    KillRequested,
    /// Signal the dashboard to shut down.
    Shutdown,
}

impl TuiMsg {
    /// Whether this message kills the sandbox: none does by itself.
    pub fn is_kill(&self) -> (r: bool)
        ensures
            !r,
    {
        false
    }
}

// ── Lines into events ───────────────────────────────────────────────────────

/// The characters stripped from around a proxy log token.
pub open spec fn proxy_punct() -> Seq<char> {
    seq!['\'', '"', ':', ')', '(']
}

/// Whether a stripped token can be the target of a proxy log line.
pub open spec fn is_target_token(s: Seq<char>) -> bool {
    s.len() > 0 && !has_sub(s, "[LION-PROXY]"@) && s != "ALLOWED"@ && s != "BLOCKED"@ && !has_sub(
        s,
        "\u{1b}"@,
    )
}

/// The last token of a proxy log line that, stripped, is a target.
pub open spec fn last_target(tokens: Seq<Seq<char>>) -> Option<Seq<char>>
    decreases tokens.len(),
{
    if tokens.len() == 0 {
        None
    } else if is_target_token(trim_set(tokens.last(), proxy_punct())) {
        Some(trim_set(tokens.last(), proxy_punct()))
    } else {
        last_target(tokens.drop_last())
    }
}

/// The domain or address of a `[LION-PROXY]` log line: its last token that
/// is not a tag, a colour code or the proxy's marker.
pub fn extract_proxy_target(line: &str) -> (r: Option<String>)
    ensures
        match r {
            Some(t) => last_target(words(line@)) == Some(t@),
            None => last_target(words(line@)) is None,
        },
{
    let v = chars_of(line);
    let tokens = split_whitespace(&v);
    let mut punct: Vec<char> = Vec::new();
    punct.push('\'');
    punct.push('"');
    punct.push(':');
    punct.push(')');
    punct.push('(');
    assert(punct@ =~= proxy_punct());
    let ghost tv = seq_views(tokens@);
    let mut j = tokens.len();
    assert(tv.subrange(0, j as int) =~= tv);
    while j > 0
        invariant
            j <= tokens.len(),
            tv == seq_views(tokens@),
            tv == words(line@),
            punct@ == proxy_punct(),
            last_target(tv) == last_target(tv.subrange(0, j as int)),
        decreases j,
    {
        let s = trim_set_chars(&tokens[j - 1], &punct);
        proof {
            assert(tv.subrange(0, j as int).last() == tokens@[j - 1]@);
            assert(tv.subrange(0, j as int).drop_last() =~= tv.subrange(0, j - 1));
        }
        if s.len() > 0 && !contains_str(&s, "[LION-PROXY]") && !chars_eq_str(&s, "ALLOWED")
            && !chars_eq_str(&s, "BLOCKED") && !contains_str(&s, "\u{1b}") {
            return Some(string_of(s.as_slice()));
        }
        j -= 1;
    }
    None
}

/// The quote and colon characters stripped from a token.
fn path_punct() -> (r: Vec<char>)
    ensures
        r@ == crate::monitor::token_punct(),
{
    let mut p: Vec<char> = Vec::new();
    p.push('\'');
    p.push('"');
    p.push(':');
    assert(p@ =~= crate::monitor::token_punct());
    p
}

/// The first token of a line that, stripped of quotes and colons, starts
/// with `/`.
pub fn extract_path(line: &str) -> (r: Option<String>)
    ensures
        match r {
            Some(p) => first_path_token(words(line@), crate::monitor::token_punct()) == Some(p@),
            None => first_path_token(words(line@), crate::monitor::token_punct()) is None,
        },
{
    let v = chars_of(line);
    let tokens = split_whitespace(&v);
    let punct = path_punct();
    first_path_token_exec(&tokens, &punct)
}

/// The kind, path and text of the event a monitor line stands for.
pub open spec fn monitor_event(line: Seq<char>) -> (EventKind, Option<Seq<char>>, Seq<char>) {
    let t = trim(line);
    if has_sub(t, "[LION-PROXY]"@) && has_sub(t, "ALLOWED"@) {
        (EventKind::ProxyAllow, last_target(words(t)), t)
    } else if has_sub(t, "[LION-PROXY]"@) && has_sub(t, "BLOCKED"@) {
        (EventKind::ProxyBlock, last_target(words(t)), t)
    } else if is_blocked_line(t) {
        (EventKind::Blocked, first_path_token(words(t), crate::monitor::token_punct()), t)
    } else if is_missing_line(t) {
        (EventKind::Missing, first_path_token(words(t), crate::monitor::token_punct()), t)
    } else {
        (EventKind::Info, None, t)
    }
}

/// Whether a line reports an access the sandbox refused: a read-only
/// file system, a denied permission or an operation not permitted.
pub open spec fn reports_denial(t: Seq<char>) -> bool {
    has_sub(t, "Read-only file system"@) || has_sub(t, "Permission denied"@) || has_sub(
        t,
        "Operation not permitted"@,
    )
}

/// A line that is not a proxy verdict is a dashboard `Blocked` event exactly
/// when, trimmed, it reports a refused access (a write into the read-only
/// project included), and then carries the first path it names; else a
/// `Missing` event exactly when it reports a missing file; else an `Info`
/// event.  Monitor mode tags the same lines `BLOCKED`.  The event's text is
/// the trimmed line.
pub proof fn law_denied_lines_are_blocked(line: Seq<char>)
    ensures
        ({
            let t = trim(line);
            let proxy = has_sub(t, "[LION-PROXY]"@) && (has_sub(t, "ALLOWED"@) || has_sub(t, "BLOCKED"@));
            let ev = monitor_event(line);
            &&& ev.2 == t
            &&& !proxy ==> ((ev.0 == EventKind::Blocked) <==> reports_denial(t))
            &&& !proxy && reports_denial(t) ==> ev.1 == first_path_token(words(t), crate::monitor::token_punct())
            &&& !proxy && !reports_denial(t) ==> ((ev.0 == EventKind::Missing) <==> has_sub(
                t,
                "No such file or directory"@,
            ))
            &&& !proxy && !reports_denial(t) && !has_sub(t, "No such file or directory"@) ==> ev == (
                EventKind::Info,
                None::<Seq<char>>,
                t,
            )
            &&& (crate::monitor::classify_spec(line).0 == "BLOCKED"@ <==> reports_denial(line))
        }),
{
    reveal_strlit("BLOCKED");
    reveal_strlit("MISSING");
    reveal_strlit("info   ");
    assert("BLOCKED"@[0] != "MISSING"@[0]);
    assert("BLOCKED"@[0] != "info   "@[0]);
}

pub open spec fn opt_view(o: Option<String>) -> Option<Seq<char>> {
    match o {
        Some(s) => Some(s@),
        None => None,
    }
}

/// The dashboard event of a line of the sandbox's stderr or of the proxy's
/// log, recorded at `timestamp`.
pub fn parse_monitor_line(line: &str, timestamp: i64) -> (r: SandboxEvent)
    ensures
        (r.kind, opt_view(r.path), r.raw@) == monitor_event(line@),
        r.timestamp == timestamp,
{
    let v = chars_of(line);
    let tv = trim_chars(&v);
    let t = string_of(tv.as_slice());
    if contains_str(&tv, "[LION-PROXY]") {
        if contains_str(&tv, "ALLOWED") {
            let target = extract_proxy_target(t.as_str());
            return SandboxEvent::new(EventKind::ProxyAllow, target, t, timestamp);
        }
        if contains_str(&tv, "BLOCKED") {
            let target = extract_proxy_target(t.as_str());
            return SandboxEvent::new(EventKind::ProxyBlock, target, t, timestamp);
        }
    }
    if is_blocked(&tv) {
        let p = extract_path(t.as_str());
        SandboxEvent::new(EventKind::Blocked, p, t, timestamp)
    } else if contains_str(&tv, "No such file or directory") {
        let p = extract_path(t.as_str());
        SandboxEvent::new(EventKind::Missing, p, t, timestamp)
    } else {
        SandboxEvent::info(t, timestamp)
    }
}

/// The kind of an inotify event.
pub open spec fn inotify_kind(mask: u32) -> EventKind {
    if has_flag(mask, IN_DELETE) || has_flag(mask, IN_DELETE_SELF) {
        EventKind::Delete
    } else if has_flag(mask, IN_CREATE) {
        EventKind::Create
    } else if has_flag(mask, IN_MODIFY) {
        EventKind::Write
    } else if has_flag(mask, IN_ACCESS) || has_flag(mask, IN_OPEN) {
        EventKind::Read
    } else {
        EventKind::Info
    }
}

/// The dashboard event of an inotify event on `path`, recorded at
/// `timestamp`.
pub fn inotify_event(mask: u32, path: String, timestamp: i64) -> (r: SandboxEvent)
    ensures
        r.kind == inotify_kind(mask),
        r.path == Some(path),
        r.raw == path,
        r.timestamp == timestamp,
{
    let kind = if mask_has(mask, IN_DELETE) || mask_has(mask, IN_DELETE_SELF) {
        EventKind::Delete
    } else if mask_has(mask, IN_CREATE) {
        EventKind::Create
    } else if mask_has(mask, IN_MODIFY) {
        EventKind::Write
    } else if mask_has(mask, IN_ACCESS) || mask_has(mask, IN_OPEN) {
        EventKind::Read
    } else {
        EventKind::Info
    };
    SandboxEvent::new(kind, Some(path.clone()), path, timestamp)
}

} // verus!
