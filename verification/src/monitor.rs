//! The live event monitor: classifies the lines the sandbox writes on
//! stderr (blocked, missing, other) and the inotify events on the exposed
//! paths (read, write, create, delete), and writes the lines printed for
//! them.  Reading the stream, the clock and printing are the caller's work.

use vstd::prelude::*;
use crate::text::{chars_of, contains_str, has_sub, is_ws, pad_right, pad_right_chars, push_all, push_str, seq_views, slice_chars, split_whitespace, starts_with, starts_with_str, string_of, trim, trim_chars, trim_set, trim_set_chars, trim_start_by, words};
use crate::text::{last_index_of, rfind_char};

verus! {

// ── Lines of the sandbox's stderr ───────────────────────────────────────────

/// Whether a line reports a denied access.
pub open spec fn is_blocked_line(line: Seq<char>) -> bool {
    has_sub(line, "Read-only file system"@) || has_sub(line, "Permission denied"@) || has_sub(
        line,
        "Operation not permitted"@,
    )
}

/// Whether a line reports a missing file.
pub open spec fn is_missing_line(line: Seq<char>) -> bool {
    has_sub(line, "No such file or directory"@)
}

/// The tag and colour of a stderr line.
pub open spec fn classify_spec(line: Seq<char>) -> (Seq<char>, Seq<char>) {
    if is_blocked_line(line) {
        ("BLOCKED"@, "\x1b[1m\x1b[31m"@)
    } else if is_missing_line(line) {
        ("MISSING"@, "\x1b[1m\x1b[33m"@)
    } else {
        ("info   "@, "\x1b[90m"@)
    }
}

/// Whether `line` reports a denied access.
pub fn is_blocked(line: &Vec<char>) -> (r: bool)
    ensures
        r == is_blocked_line(line@),
{
    contains_str(line, "Read-only file system") || contains_str(line, "Permission denied")
        || contains_str(line, "Operation not permitted")
}

/// The tag and colour of a stderr line: `BLOCKED` in red for denied
/// accesses, `MISSING` in yellow for missing files, `info` in grey.
pub fn classify(line: &str) -> (r: (&'static str, &'static str))
    ensures
        (r.0@, r.1@) == classify_spec(line@),
{
    let v = chars_of(line);
    if is_blocked(&v) {
        ("BLOCKED", "\x1b[1m\x1b[31m")
    } else if contains_str(&v, "No such file or directory") {
        ("MISSING", "\x1b[1m\x1b[33m")
    } else {
        ("info   ", "\x1b[90m")
    }
}

/// The quote and colon characters stripped from a token.
pub open spec fn token_punct() -> Seq<char> {
    seq!['\'', '"', ':']
}

/// The first token, stripped of quotes and colons, that starts with `/`.
pub open spec fn first_path_token(tokens: Seq<Seq<char>>, punct: Seq<char>) -> Option<Seq<char>>
    decreases tokens.len(),
{
    if tokens.len() == 0 {
        None
    } else if starts_with(trim_set(tokens[0], punct), "/"@) {
        Some(trim_set(tokens[0], punct))
    } else {
        first_path_token(tokens.drop_first(), punct)
    }
}

/// The first path-like token of a stderr line, after the program name it
/// starts with.
pub open spec fn log_path_spec(line: Seq<char>) -> Option<Seq<char>> {
    first_path_token(words(trim_start_by(line, |c: char| !is_ws(c))), token_punct())
}

/// The first token of `tokens` that, stripped of the characters of `punct`,
/// starts with `/`.
pub fn first_path_token_exec(tokens: &Vec<Vec<char>>, punct: &Vec<char>) -> (r: Option<String>)
    ensures
        match r {
            Some(p) => first_path_token(seq_views(tokens@), punct@) == Some(p@),
            None => first_path_token(seq_views(tokens@), punct@) is None,
        },
{
    let ghost tv = seq_views(tokens@);
    let mut i: usize = 0;
    assert(tv.skip(0) =~= tv);
    while i < tokens.len()
        invariant
            i <= tokens.len(),
            tv == seq_views(tokens@),
            first_path_token(tv, punct@) == first_path_token(tv.skip(i as int), punct@),
        decreases tokens.len() - i,
    {
        proof {
            assert(tv.skip(i as int).drop_first() =~= tv.skip(i + 1));
            assert(tv.skip(i as int)[0] == tokens@[i as int]@);
        }
        let t = trim_set_chars(&tokens[i], punct);
        if starts_with_str(&t, "/") {
            return Some(string_of(t.as_slice()));
        }
        i += 1;
    }
    None
}

fn punct_chars() -> (r: Vec<char>)
    ensures
        r@ == token_punct(),
{
    let mut p: Vec<char> = Vec::new();
    p.push('\'');
    p.push('"');
    p.push(':');
    assert(p@ =~= token_punct());
    p
}

/// Pulls the first path-like token (starting with `/`) out of an error line
/// such as `program: /some/path: Reason`, skipping the program name.
pub fn extract_path(line: &str) -> (r: Option<String>)
    ensures
        match r {
            Some(p) => log_path_spec(line@) == Some(p@),
            None => log_path_spec(line@) is None,
        },
{
    let v = chars_of(line);
    let n = v.len();
    let mut lo: usize = 0;
    proof {
        assert(v@.subrange(0, n as int) =~= v@);
    }
    while lo < n && !crate::text::is_whitespace(v[lo])
        invariant
            lo <= n == v.len(),
            trim_start_by(v@, |c: char| !is_ws(c)) == trim_start_by(
                v@.subrange(lo as int, n as int),
                |c: char| !is_ws(c),
            ),
        decreases n - lo,
    {
        proof {
            assert(v@.subrange(lo as int, n as int).drop_first() =~= v@.subrange(lo + 1, n as int));
        }
        lo += 1;
    }
    let rest = slice_chars(&v, lo, n);
    proof {
        if lo < n {
            assert(rest@[0] == v@[lo as int]);
        }
        assert(trim_start_by(rest@, |c: char| !is_ws(c)) == rest@);
    }
    let tokens = split_whitespace(&rest);
    let punct = punct_chars();
    first_path_token_exec(&tokens, &punct)
}

/// The human-readable reason of a line: its last colon-delimited segment,
/// trimmed.
pub open spec fn reason_spec(line: Seq<char>) -> Seq<char> {
    match last_index_of(line, ':') {
        Some(k) => trim(line.subrange(k + 1, line.len() as int)),
        None => trim(line),
    }
}

/// Pulls the human-readable reason (last colon-delimited segment).
pub fn extract_reason(line: &str) -> (r: String)
    ensures
        r@ == reason_spec(line@),
{
    let v = chars_of(line);
    let seg = match rfind_char(&v, ':') {
        Some(k) => {
            proof {
                crate::text::lemma_last_index_of(v@, ':');
            }
            slice_chars(&v, k + 1, v.len())
        },
        None => v,
    };
    let t = trim_chars(&seg);
    string_of(t.as_slice())
}

/// One stderr line of the sandbox, classified.
pub struct LogEvent {
    pub tag: &'static str,
    pub color: &'static str,
    /// The path it names, if any.
    pub path: Option<String>,
    /// Its last colon-delimited segment.
    pub reason: String,
    /// The line itself.
    pub line: String,
}

/// The event of a stderr line.
pub open spec fn log_event_of(ev: LogEvent, line: Seq<char>) -> bool {
    &&& (ev.tag@, ev.color@) == classify_spec(line)
    &&& match ev.path {
        Some(p) => log_path_spec(line) == Some(p@),
        None => log_path_spec(line) is None,
    }
    &&& ev.reason@ == reason_spec(line)
    &&& ev.line@ == line
}

/// The lines that are reported: those that are not blank.
pub open spec fn reported_lines(lines: Seq<Seq<char>>) -> Seq<Seq<char>>
    decreases lines.len(),
{
    if lines.len() == 0 {
        seq![]
    } else if trim(lines.last()).len() == 0 {
        reported_lines(lines.drop_last())
    } else {
        reported_lines(lines.drop_last()).push(lines.last())
    }
}

/// The events of the stderr lines of the sandbox, one for each line that
/// is not blank, in order.
pub fn watch_buffered(lines: &Vec<String>) -> (r: Vec<LogEvent>)
    ensures
        r@.len() == reported_lines(crate::text::string_views(lines@)).len(),
        forall|i: int| 0 <= i < r@.len() ==> log_event_of(#[trigger] r@[i], reported_lines(crate::text::string_views(lines@))[i]),
{
    let ghost lv = crate::text::string_views(lines@);
    let mut out: Vec<LogEvent> = Vec::new();
    let mut i: usize = 0;
    while i < lines.len()
        invariant
            i <= lines.len(),
            lv == crate::text::string_views(lines@),
            out@.len() == reported_lines(lv.take(i as int)).len(),
            forall|k: int| 0 <= k < out@.len() ==> log_event_of(#[trigger] out@[k], reported_lines(lv.take(i as int))[k]),
        decreases lines.len() - i,
    {
        let line = &lines[i];
        let v = chars_of(line.as_str());
        let t = trim_chars(&v);
        proof {
            assert(lv.take(i + 1).drop_last() =~= lv.take(i as int));
            assert(lv.take(i + 1).last() == line@);
        }
        let ghost before = out@;
        if t.len() > 0 {
            let (tag, color) = classify(line.as_str());
            let path = extract_path(line.as_str());
            let reason = extract_reason(line.as_str());
            out.push(LogEvent { tag, color, path, reason, line: line.clone() });
            proof {
                assert forall|k: int| 0 <= k < out@.len() implies log_event_of(#[trigger] out@[k], reported_lines(lv.take(i + 1))[k]) by {
                    if k < before.len() {
                        assert(out@[k] == before[k]);
                    }
                }
            }
        }
        i += 1;
    }
    proof {
        assert(lv.take(lines.len() as int) =~= lv);
    }
    out
}

/// The line printed for a stderr event at time `now`.
pub open spec fn event_line_spec(now: Seq<char>, ev: LogEvent) -> Seq<char> {
    match ev.path {
        Some(p) => "[LION] "@ + now + "  "@ + ev.color@ + ev.tag@ + "\x1b[0m"@ + "  \x1b[1m"@ + p@
            + "\x1b[0m  \x1b[90m("@ + ev.reason@ + ")\x1b[0m"@,
        None => "[LION] "@ + now + "  "@ + ev.color@ + ev.tag@ + "\x1b[0m"@ + "  \x1b[90m"@
            + ev.line@ + "\x1b[0m"@,
    }
}

/// The line printed for a stderr event at time `now` (`HH:MM:SS`).
pub fn event_line(now: &str, ev: &LogEvent) -> (r: String)
    ensures
        r@ == event_line_spec(now@, *ev),
{
    let mut v = chars_of("[LION] ");
    push_str(&mut v, now);
    push_str(&mut v, "  ");
    push_str(&mut v, ev.color);
    push_str(&mut v, ev.tag);
    push_str(&mut v, "\x1b[0m");
    match &ev.path {
        Some(p) => {
            push_str(&mut v, "  \x1b[1m");
            push_str(&mut v, p.as_str());
            push_str(&mut v, "\x1b[0m  \x1b[90m(");
            push_str(&mut v, ev.reason.as_str());
            push_str(&mut v, ")\x1b[0m");
        },
        None => {
            push_str(&mut v, "  \x1b[90m");
            push_str(&mut v, ev.line.as_str());
            push_str(&mut v, "\x1b[0m");
        },
    }
    proof {
        assert(v@ =~= event_line_spec(now@, *ev));
    }
    string_of(v.as_slice())
}

// ── The banner ──────────────────────────────────────────────────────────────

pub open spec fn banner_row(path: Seq<char>) -> Seq<char> {
    "\x1b[1m\x1b[34m║  \x1b[33mRO\x1b[34m  \x1b[0m"@ + pad_right(path, 44) + "\x1b[1m\x1b[34m║\x1b[0m"@
}

pub open spec fn banner_rows(paths: Seq<Seq<char>>) -> Seq<Seq<char>>
    decreases paths.len(),
{
    if paths.len() == 0 {
        seq![]
    } else {
        banner_rows(paths.drop_last()).push(banner_row(paths.last()))
    }
}

/// The banner of the monitor: a box with one row per read-only path.
pub open spec fn banner_spec(paths: Seq<Seq<char>>) -> Seq<Seq<char>> {
    seq![
        "\x1b[1m\x1b[34m╔══════════════════════════════════════════════════╗\x1b[0m"@,
        "\x1b[1m\x1b[34m║  LION MONITOR  ·  live sandbox events            ║\x1b[0m"@,
    ] + if paths.len() == 0 {
        seq!["\x1b[1m\x1b[34m║  no read-only paths configured                   ║\x1b[0m"@]
    } else {
        banner_rows(paths)
    } + seq!["\x1b[1m\x1b[34m╚══════════════════════════════════════════════════╝\x1b[0m"@]
}

/// The lines of the monitor's banner.
pub fn banner_lines(ro_paths: &Vec<String>) -> (r: Vec<String>)
    ensures
        crate::text::string_views(r@) == banner_spec(crate::text::string_views(ro_paths@)),
{
    let mut out: Vec<String> = Vec::new();
    crate::text::push_arg(&mut out, "\x1b[1m\x1b[34m╔══════════════════════════════════════════════════╗\x1b[0m");
    crate::text::push_arg(&mut out, "\x1b[1m\x1b[34m║  LION MONITOR  ·  live sandbox events            ║\x1b[0m");
    let ghost head = crate::text::string_views(out@);
    let ghost pv = crate::text::string_views(ro_paths@);
    if ro_paths.len() == 0 {
        crate::text::push_arg(&mut out, "\x1b[1m\x1b[34m║  no read-only paths configured                   ║\x1b[0m");
    } else {
        let mut i: usize = 0;
        while i < ro_paths.len()
            invariant
                i <= ro_paths.len(),
                pv == crate::text::string_views(ro_paths@),
                crate::text::string_views(out@) == head + banner_rows(pv.take(i as int)),
            decreases ro_paths.len() - i,
        {
            let p = chars_of(ro_paths[i].as_str());
            let padded = pad_right_chars(&p, 44);
            let mut row = chars_of("\x1b[1m\x1b[34m║  \x1b[33mRO\x1b[34m  \x1b[0m");
            push_all(&mut row, &padded);
            push_str(&mut row, "\x1b[1m\x1b[34m║\x1b[0m");
            crate::text::push_string(&mut out, string_of(row.as_slice()));
            proof {
                assert(pv.take(i + 1).drop_last() =~= pv.take(i as int));
                assert(pv.take(i + 1).last() == ro_paths@[i as int]@);
                assert(crate::text::string_views(out@) =~= head + banner_rows(pv.take(i + 1)));
            }
            i += 1;
        }
        proof {
            assert(pv.take(ro_paths.len() as int) =~= pv);
        }
    }
    crate::text::push_arg(&mut out, "\x1b[1m\x1b[34m╚══════════════════════════════════════════════════╝\x1b[0m");
    proof {
        assert(crate::text::string_views(out@) =~= banner_spec(pv));
    }
    out
}

// ── inotify events ──────────────────────────────────────────────────────────

/// The inotify event bits (`inotify(7)`).
pub const IN_ACCESS: u32 = 0x1;
pub const IN_MODIFY: u32 = 0x2;
pub const IN_CLOSE_NOWRITE: u32 = 0x10;
pub const IN_OPEN: u32 = 0x20;
pub const IN_CREATE: u32 = 0x100;
pub const IN_DELETE: u32 = 0x200;
pub const IN_DELETE_SELF: u32 = 0x400;
pub const IN_ISDIR: u32 = 0x4000_0000;

/// `EventMask::contains`: every bit of `flag` is set in `mask`.
pub open spec fn has_flag(mask: u32, flag: u32) -> bool {
    mask & flag == flag
}

/// Whether every bit of `flag` is set in `mask`.
pub fn mask_has(mask: u32, flag: u32) -> (r: bool)
    ensures
        r == has_flag(mask, flag),
{
    mask & flag == flag
}

/// The tag, colour and icon of an inotify event.
pub open spec fn inotify_class(mask: u32) -> (Seq<char>, Seq<char>, Seq<char>) {
    if has_flag(mask, IN_ACCESS) || has_flag(mask, IN_OPEN) || has_flag(mask, IN_CLOSE_NOWRITE) {
        ("READ   "@, "\x1b[1m\x1b[32m"@, "✅ "@)
    } else if has_flag(mask, IN_MODIFY) {
        ("WRITE  "@, "\x1b[1m\x1b[33m"@, "✏️  "@)
    } else if has_flag(mask, IN_CREATE) {
        ("CREATE "@, "\x1b[1m\x1b[34m"@, "📄 "@)
    } else if has_flag(mask, IN_DELETE) {
        ("DELETE "@, "\x1b[1m\x1b[31m"@, "🗑️  "@)
    } else {
        ("EVENT  "@, "\x1b[90m"@, ""@)
    }
}

/// How an inotify event is shown, by the kernel's event bits (access 0x1,
/// modify 0x2, close-without-write 0x10, open 0x20, create 0x100, delete
/// 0x200): any read-side bit makes a green READ, a program closing a file
/// it only read included; else a modification a yellow WRITE; else a
/// creation a blue CREATE; else a deletion a red DELETE; anything else a
/// grey EVENT.
pub proof fn law_inotify_classes(mask: u32)
    ensures
        ({
            let read = mask & 0x1u32 != 0 || mask & 0x20u32 != 0 || mask & 0x10u32 != 0;
            &&& read ==> inotify_class(mask) == ("READ   "@, "\x1b[1m\x1b[32m"@, "✅ "@)
            &&& !read && mask & 0x2u32 != 0 ==> inotify_class(mask) == ("WRITE  "@, "\x1b[1m\x1b[33m"@, "✏️  "@)
            &&& !read && mask & 0x2u32 == 0 && mask & 0x100u32 != 0 ==> inotify_class(mask) == (
                "CREATE "@,
                "\x1b[1m\x1b[34m"@,
                "📄 "@,
            )
            &&& !read && mask & 0x2u32 == 0 && mask & 0x100u32 == 0 && mask & 0x200u32 != 0 ==> inotify_class(mask)
                == ("DELETE "@, "\x1b[1m\x1b[31m"@, "🗑️  "@)
            &&& !read && mask & 0x2u32 == 0 && mask & 0x100u32 == 0 && mask & 0x200u32 == 0 ==> inotify_class(mask)
                == ("EVENT  "@, "\x1b[90m"@, ""@)
        }),
{
    assert(mask & 0x1u32 == 0x1u32 <==> mask & 0x1u32 != 0) by (bit_vector);
    assert(mask & 0x2u32 == 0x2u32 <==> mask & 0x2u32 != 0) by (bit_vector);
    assert(mask & 0x10u32 == 0x10u32 <==> mask & 0x10u32 != 0) by (bit_vector);
    assert(mask & 0x20u32 == 0x20u32 <==> mask & 0x20u32 != 0) by (bit_vector);
    assert(mask & 0x100u32 == 0x100u32 <==> mask & 0x100u32 != 0) by (bit_vector);
    assert(mask & 0x200u32 == 0x200u32 <==> mask & 0x200u32 != 0) by (bit_vector);
}

/// The tag, colour and icon of an inotify event: reads in green, writes in
/// yellow, creations in blue, deletions in red.
pub fn classify_event(mask: u32) -> (r: (&'static str, &'static str, &'static str))
    ensures
        (r.0@, r.1@, r.2@) == inotify_class(mask),
{
    if mask_has(mask, IN_ACCESS) || mask_has(mask, IN_OPEN) || mask_has(mask, IN_CLOSE_NOWRITE) {
        ("READ   ", "\x1b[1m\x1b[32m", "✅ ")
    } else if mask_has(mask, IN_MODIFY) {
        ("WRITE  ", "\x1b[1m\x1b[33m", "✏️  ")
    } else if mask_has(mask, IN_CREATE) {
        ("CREATE ", "\x1b[1m\x1b[34m", "📄 ")
    } else if mask_has(mask, IN_DELETE) {
        ("DELETE ", "\x1b[1m\x1b[31m", "🗑️  ")
    } else {
        ("EVENT  ", "\x1b[90m", "")
    }
}

/// The line printed for an inotify event on `path` at time `now`; `None`
/// for the opening of a directory, which is noise.
pub open spec fn inotify_line_spec(now: Seq<char>, path: Seq<char>, mask: u32) -> Option<Seq<char>> {
    if has_flag(mask, IN_ISDIR) && has_flag(mask, IN_OPEN) {
        None
    } else {
        let (tag, color, icon) = inotify_class(mask);
        Some("[LION] "@ + now + "  "@ + color + tag + "  "@ + icon + "\x1b[0m"@ + "\x1b[0m  \x1b[36m"@ + path
            + "\x1b[0m"@)
    }
}

/// The line printed for an inotify event.
pub fn inotify_line(now: &str, path: &str, mask: u32) -> (r: Option<String>)
    ensures
        match r {
            Some(l) => inotify_line_spec(now@, path@, mask) == Some(l@),
            None => inotify_line_spec(now@, path@, mask) is None,
        },
{
    if mask_has(mask, IN_ISDIR) && mask_has(mask, IN_OPEN) {
        return None;
    }
    let (tag, color, icon) = classify_event(mask);
    let mut v = chars_of("[LION] ");
    push_str(&mut v, now);
    push_str(&mut v, "  ");
    push_str(&mut v, color);
    push_str(&mut v, tag);
    push_str(&mut v, "  ");
    push_str(&mut v, icon);
    push_str(&mut v, "\x1b[0m");
    push_str(&mut v, "\x1b[0m  \x1b[36m");
    push_str(&mut v, path);
    push_str(&mut v, "\x1b[0m");
    proof {
        assert(v@ =~= inotify_line_spec(now@, path@, mask)->0);
    }
    Some(string_of(v.as_slice()))
}

} // verus!
