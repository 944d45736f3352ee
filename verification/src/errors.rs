//! The structured errors of a sandbox run, their messages, and the hint that
//! goes with a failure.

use vstd::prelude::*;
use crate::text::{chars_of, dec_int, lemma_parse_dec_int, lemma_trim_dec_int, i64_to_chars, lemma_string_views_push, lines_of, pad_right, pad_right_chars, parse_i32, parse_signed, push_all, push_str, seq_views, slice_chars, starts_with, starts_with_str, string_of, string_views, text_lines, trim, trim_chars};

verus! {

pub enum LionError {
    DependencyMissing(String),
    CommandNotFound(String),
    PermissionDenied(String),
    ExecutionError(i32),
    /// A mount failed: the path, and the message of the I/O error.
    MountError { path: String, source: String },
    NamespaceError(String),
    Unauthorized(String),
    EnvironmentError(String),
    Internal(String),
}

/// The message of an error, as its `Display` writes it.
pub open spec fn error_message(e: LionError) -> Seq<char> {
    match e {
        LionError::DependencyMissing(s) => "dependency missing: "@ + s@,
        LionError::CommandNotFound(s) => "Command not found: "@ + s@
            + "\nThe executable could not be located in PATH."@,
        LionError::PermissionDenied(s) => "Permission denied: "@ + s@
            + "\nFile exists but is not executable."@,
        LionError::ExecutionError(c) => "Command failed inside sandbox\nExit code: "@ + dec_int(
            c as int,
        ),
        LionError::MountError { path, source } => "failed to mount "@ + path@ + ": "@ + source@,
        LionError::NamespaceError(s) => "namespace setup failed: "@ + s@,
        LionError::Unauthorized(s) => "unauthorized operation: "@ + s@,
        LionError::EnvironmentError(s) => "environment error: "@ + s@,
        LionError::Internal(s) => "internal error: "@ + s@,
    }
}

fn with_prefix(prefix: &str, s: &String) -> (r: String)
    ensures
        r@ == prefix@ + s@,
{
    let mut v = chars_of(prefix);
    push_str(&mut v, s.as_str());
    string_of(v.as_slice())
}

fn prefixed(prefix: &str, s: &String, suffix: &str) -> (r: String)
    ensures
        r@ == prefix@ + s@ + suffix@,
{
    let mut v = chars_of(prefix);
    push_str(&mut v, s.as_str());
    push_str(&mut v, suffix);
    string_of(v.as_slice())
}

impl LionError {
    /// The message of this error.
    pub fn message(&self) -> (r: String)
        ensures
            r@ == error_message(*self),
    {
        match self {
            LionError::DependencyMissing(s) => with_prefix("dependency missing: ", s),
            LionError::CommandNotFound(s) => prefixed(
                "Command not found: ",
                s,
                "\nThe executable could not be located in PATH.",
            ),
            LionError::PermissionDenied(s) => prefixed(
                "Permission denied: ",
                s,
                "\nFile exists but is not executable.",
            ),
            LionError::ExecutionError(c) => {
                let mut v = chars_of("Command failed inside sandbox\nExit code: ");
                let d = i64_to_chars(*c as i64);
                push_all(&mut v, &d);
                string_of(v.as_slice())
            },
            LionError::MountError { path, source } => {
                let mut v = chars_of("failed to mount ");
                push_str(&mut v, path.as_str());
                push_str(&mut v, ": ");
                push_str(&mut v, source.as_str());
                string_of(v.as_slice())
            },
            LionError::NamespaceError(s) => with_prefix("namespace setup failed: ", s),
            LionError::Unauthorized(s) => with_prefix("unauthorized operation: ", s),
            LionError::EnvironmentError(s) => with_prefix("environment error: ", s),
            LionError::Internal(s) => with_prefix("internal error: ", s),
        }
    }
}

/// The hint printed under a failed run: what most likely went wrong.
pub open spec fn failure_reason_spec(e: LionError, exit_code: Option<i32>) -> Seq<char> {
    match e {
        LionError::CommandNotFound(_) => "binary not found inside sandbox — check the command name"@,
        LionError::PermissionDenied(_) => "executable permission missing"@,
        LionError::ExecutionError(_) => match exit_code {
            Some(code) => if code == 6 {
                "couldn't resolve host — sandbox network is disabled. Try: --net=allow or --net=full"@
            } else if code == 7 {
                "connection refused or unreachable — try: --net=full"@
            } else if code == 35 {
                "SSL handshake failed inside sandbox — try: --net=full"@
            } else {
                "command exited with code "@ + dec_int(code as int) + " (check program output above)"@
            },
            None => "command failed inside sandbox"@,
        },
        _ => "internal sandbox setup failure"@,
    }
}

/// The hint for a failed run, from the error and the exit code of the
/// sandboxed command when one is known.
pub fn failure_reason(e: &LionError, exit_code: Option<i32>) -> (r: String)
    ensures
        r@ == failure_reason_spec(*e, exit_code),
{
    match e {
        LionError::CommandNotFound(_) => String::from_str(
            "binary not found inside sandbox — check the command name",
        ),
        LionError::PermissionDenied(_) => String::from_str("executable permission missing"),
        LionError::ExecutionError(_) => match exit_code {
            Some(code) => {
                if code == 6 {
                    String::from_str(
                        "couldn't resolve host — sandbox network is disabled. Try: --net=allow or --net=full",
                    )
                } else if code == 7 {
                    String::from_str("connection refused or unreachable — try: --net=full")
                } else if code == 35 {
                    String::from_str("SSL handshake failed inside sandbox — try: --net=full")
                } else {
                    let mut v = chars_of("command exited with code ");
                    let d = i64_to_chars(code as i64);
                    push_all(&mut v, &d);
                    push_str(&mut v, " (check program output above)");
                    string_of(v.as_slice())
                }
            },
            None => String::from_str("command failed inside sandbox"),
        },
        _ => String::from_str("internal sandbox setup failure"),
    }
}

/// The line printed under the diagnostic box: a failed command, or a
/// sandbox that could not be set up.
pub fn failure_headline(e: &LionError) -> (r: &'static str)
    ensures
        r@ == if e is ExecutionError {
            "❌ Command exited with failure"@
        } else {
            "❌ Sandbox execution failed"@
        },
{
    match e {
        LionError::ExecutionError(_) => "❌ Command exited with failure",
        _ => "❌ Sandbox execution failed",
    }
}

/// The exit code written in an error message of the form
/// `exit code: <n>`: the rest after that prefix, trimmed, parsed as an `i32`.
pub open spec fn exit_code_in(msg: Seq<char>) -> Option<i32> {
    let prefix = "exit code: "@;
    if starts_with(msg, prefix) {
        match parse_signed(trim(msg.skip(prefix.len() as int)), i32::MIN as int, i32::MAX as int) {
            Some(v) => Some(v as i32),
            None => None,
        }
    } else {
        None
    }
}

/// The exit code carried by an error message, if it has the form
/// `exit code: <n>`.
pub fn extract_exit_code(msg: &str) -> (r: Option<i32>)
    ensures
        r == exit_code_in(msg@),
{
    let v = chars_of(msg);
    if !starts_with_str(&v, "exit code: ") {
        return None;
    }
    let p = chars_of("exit code: ");
    let rest = slice_chars(&v, p.len(), v.len());
    proof {
        assert(rest@ =~= msg@.skip("exit code: "@.len() as int));
    }
    let t = trim_chars(&rest);
    parse_i32(&t)
}

/// The message a command's failing exit code is reported with:
/// `exit code: <n>`.
pub open spec fn exit_code_message_spec(code: i32) -> Seq<char> {
    "exit code: "@ + dec_int(code as int)
}

/// The message a command's failing exit code is reported with, which
/// `extract_exit_code` reads back.
pub fn exit_code_message(code: i32) -> (r: String)
    ensures
        r@ == exit_code_message_spec(code),
{
    let mut v = chars_of("exit code: ");
    let d = i64_to_chars(code as i64);
    push_all(&mut v, &d);
    string_of(v.as_slice())
}

/// Reading the exit code back from the message it was reported with gives
/// that exit code.
pub proof fn law_exit_code_round_trip(code: i32)
    ensures
        exit_code_in(exit_code_message_spec(code)) == Some(code),
{
    let prefix = "exit code: "@;
    let msg = exit_code_message_spec(code);
    reveal_strlit("exit code: ");
    assert(msg.subrange(0, prefix.len() as int) =~= prefix);
    assert(starts_with(msg, prefix));
    assert(msg.skip(prefix.len() as int) =~= dec_int(code as int));
    lemma_trim_dec_int(code as int);
    lemma_parse_dec_int(code as int, i32::MIN as int, i32::MAX as int);
}

// ── The diagnostic box ─────────────────────────────────────────────────────

/// A message line inside the box: padded to the box's inner width.
pub open spec fn box_line(l: Seq<char>) -> Seq<char> {
    "| "@ + pad_right(l, 56) + " |"@
}

/// The lines of the box printed around a failed run's error: a blank line,
/// the title, each line of the message, for a missing execute permission a
/// `chmod` hint, and the pointer to the log.
pub open spec fn diagnostic_box(e: LionError) -> Seq<Seq<char>> {
    let head = seq![""@, "+----------------------------------------------------------+"@, "| LION ERROR                                               |"@, "+----------------------------------------------------------+"@];
    let body = text_lines(error_message(e)).map_values(|l: Seq<char>| box_line(l));
    let hint = match e {
        LionError::PermissionDenied(p) => seq![
            "+----------------------------------------------------------+"@,
            "| Try: chmod +x "@ + pad_right(p@, 42) + " |"@,
        ],
        _ => seq![],
    };
    head + body + hint + seq![
        "+----------------------------------------------------------+"@,
        "| See log for details: ~/.lion/logs/last-run.log           |"@,
        "+----------------------------------------------------------+"@,
    ]
}

fn push_line(out: &mut Vec<String>, l: &str)
    ensures
        string_views(final(out)@) == string_views(old(out)@).push(l@),
{
    let ghost before = out@;
    out.push(String::from_str(l));
    proof {
        lemma_string_views_push(before, out@.last());
    }
}

/// The lines of the diagnostic box for `e`, each to be printed on its own.
pub fn diagnostic_box_lines(e: &LionError) -> (r: Vec<String>)
    ensures
        string_views(r@) == diagnostic_box(*e),
{
    let mut out: Vec<String> = Vec::new();
    assert(string_views(out@) =~= Seq::<Seq<char>>::empty());
    push_line(&mut out, "");
    push_line(&mut out, "+----------------------------------------------------------+");
    push_line(&mut out, "| LION ERROR                                               |");
    push_line(&mut out, "+----------------------------------------------------------+");
    let ghost head = string_views(out@);
    let msg = e.message();
    let mv = chars_of(msg.as_str());
    let lines = lines_of(&mv);
    let ghost ls = seq_views(lines@);
    let mut i: usize = 0;
    while i < lines.len()
        invariant
            ls == seq_views(lines@),
            ls == text_lines(error_message(*e)),
            i <= lines.len(),
            string_views(out@) == head + ls.take(i as int).map_values(|l: Seq<char>| box_line(l)),
        decreases lines.len() - i,
    {
        let mut v = chars_of("| ");
        let padded = pad_right_chars(&lines[i], 56);
        push_all(&mut v, &padded);
        push_str(&mut v, " |");
        let ghost before = out@;
        let line = string_of(v.as_slice());
        out.push(line);
        proof {
            lemma_string_views_push(before, line);
            assert(line@ =~= box_line(ls[i as int]));
            assert(ls.take(i + 1).map_values(|l: Seq<char>| box_line(l)) =~= ls.take(i as int).map_values(
                |l: Seq<char>| box_line(l),
            ).push(box_line(ls[i as int])));
        }
        i += 1;
    }
    assert(ls.take(lines.len() as int) =~= ls);
    let ghost body = string_views(out@);
    match e {
        LionError::PermissionDenied(p) => {
            push_line(&mut out, "+----------------------------------------------------------+");
            let mut v = chars_of("| Try: chmod +x ");
            let pv = chars_of(p.as_str());
            let padded = pad_right_chars(&pv, 42);
            push_all(&mut v, &padded);
            push_str(&mut v, " |");
            let ghost before = out@;
            let line = string_of(v.as_slice());
            out.push(line);
            proof {
                lemma_string_views_push(before, line);
            }
        },
        _ => {},
    }
    push_line(&mut out, "+----------------------------------------------------------+");
    push_line(&mut out, "| See log for details: ~/.lion/logs/last-run.log           |");
    push_line(&mut out, "+----------------------------------------------------------+");
    assert(string_views(out@) =~= diagnostic_box(*e));
    out
}

} // verus!
