//! What the dashboard shows, as text and tones: the cells of the log and
//! process rows, the header's command, the paths listed, and which tone
//! each entry is drawn in.  Drawing them is the caller's work.

use vstd::prelude::*;
use crate::text::{chars_of, dec_nat, has_sub, pad_right, pad_right_chars, push_all, push_str, string_of, u64_to_chars};
use crate::tui::events::{EventKind, SandboxEvent, SandboxInfo, kind_label};
use crate::text::{join_seqs, string_views};

verus! {

/// The tones the dashboard draws in.
#[derive(Clone, Copy, PartialEq, Eq, Structural, Debug)]
pub enum Tone {
    Bad,
    NetBlocked,
    Good,
    Warn,
    NetOk,
    Dim,
}

pub open spec fn tone_of(k: EventKind) -> Tone {
    match k {
        EventKind::Blocked => Tone::Bad,
        EventKind::ProxyBlock => Tone::NetBlocked,
        EventKind::Create => Tone::Good,
        EventKind::Write | EventKind::Delete => Tone::Warn,
        EventKind::ProxyAllow => Tone::NetOk,
        _ => Tone::Dim,
    }
}

/// The tone of a log entry: denials in red, network denials in pink,
/// creations in green, writes and deletions in amber, allowed network in
/// blue, the rest dim.
pub fn event_tone(k: EventKind) -> (r: Tone)
    ensures
        r == tone_of(k),
{
    match k {
        EventKind::Blocked => Tone::Bad,
        EventKind::ProxyBlock => Tone::NetBlocked,
        EventKind::Create => Tone::Good,
        EventKind::Write | EventKind::Delete => Tone::Warn,
        EventKind::ProxyAllow => Tone::NetOk,
        _ => Tone::Dim,
    }
}

/// What a log entry names: its path, else its raw line.
pub fn event_target(ev: &SandboxEvent) -> (r: String)
    ensures
        r@ == match ev.path {
            Some(p) => p@,
            None => ev.raw@,
        },
{
    match &ev.path {
        Some(p) => p.clone(),
        None => ev.raw.clone(),
    }
}

/// The kind cell of a log row: the tag padded to eight, then a space.
pub fn kind_cell(k: EventKind) -> (r: String)
    ensures
        r@ == pad_right(kind_label(k), 8) + " "@,
{
    let l = chars_of(k.label());
    let mut v = pad_right_chars(&l, 8);
    push_str(&mut v, " ");
    string_of(v.as_slice())
}

/// `s` padded on the left with spaces to at least `width` characters, as
/// the `{:>width}` format specification does.
pub open spec fn pad_left(s: Seq<char>, width: nat) -> Seq<char> {
    if s.len() >= width {
        s
    } else {
        Seq::new((width - s.len()) as nat, |i: int| ' ') + s
    }
}

/// The pid cell of a process row: the number padded to six, then a space.
pub fn pid_cell(pid: u32) -> (r: String)
    ensures
        r@ == pad_right(dec_nat(pid as nat), 6) + " "@,
{
    let d = u64_to_chars(pid as u64);
    let mut v = pad_right_chars(&d, 6);
    push_str(&mut v, " ");
    string_of(v.as_slice())
}

/// The memory cell of a process row: a space, the whole megabytes
/// right-aligned in four, then `MB`.
pub fn mem_cell(mem_kb: u64) -> (r: String)
    ensures
        r@ == " "@ + pad_left(dec_nat((mem_kb / 1024) as nat), 4) + "MB"@,
{
    let d = u64_to_chars(mem_kb / 1024);
    let mut v = chars_of(" ");
    let ghost start = v@;
    let mut k: usize = d.len();
    while k < 4
        invariant
            d.len() <= k <= 4 || (d.len() > 4 && k == d.len()),
            v@ == start + Seq::new((k - d.len()) as nat, |i: int| ' '),
        decreases 4 - k,
    {
        v.push(' ');
        k += 1;
        assert(v@ =~= start + Seq::new((k - d.len()) as nat, |i: int| ' '));
    }
    let ghost padded = Seq::new((k - d.len()) as nat, |i: int| ' ') + d@;
    push_all(&mut v, &d);
    push_str(&mut v, "MB");
    proof {
        reveal_strlit(" ");
        if d.len() >= 4 {
            assert(Seq::new((k - d.len()) as nat, |i: int| ' ') =~= Seq::<char>::empty());
            assert(padded =~= d@);
        }
        assert(padded =~= pad_left(d@, 4));
        assert(v@ =~= " "@ + pad_left(dec_nat((mem_kb / 1024) as nat), 4) + "MB"@);
    }
    string_of(v.as_slice())
}

/// The command shown in the header: the command's words joined with
/// spaces, or `waiting...` before it is known.
pub fn command_display(info: &SandboxInfo) -> (r: String)
    ensures
        r@ == if join_seqs(string_views(info.command@), " "@).len() == 0 {
            "waiting..."@
        } else {
            join_seqs(string_views(info.command@), " "@)
        },
{
    let c = info.command_str();
    let cv = chars_of(c.as_str());
    if cv.len() == 0 {
        String::from_str("waiting...")
    } else {
        c
    }
}

/// The badge of the log panel: live while following, paused otherwise.
pub fn follow_badge(follow: bool) -> (r: &'static str)
    ensures
        r@ == if follow { "● LIVE"@ } else { "◌ PAUSED"@ },
{
    if follow {
        "● LIVE"
    } else {
        "◌ PAUSED"
    }
}

/// The tone of an exposed-path label: dim when read-only, amber otherwise.
pub fn path_tone(label: &String) -> (r: Tone)
    ensures
        r == if has_sub(label@, "(ro)"@) { Tone::Dim } else { Tone::Warn },
{
    let v = chars_of(label.as_str());
    if crate::text::contains_str(&v, "(ro)") {
        Tone::Dim
    } else {
        Tone::Warn
    }
}

/// How many exposed paths the paths panel lists at most.
pub const SHOWN_PATHS: usize = 6;

/// The exposed paths the paths panel lists: the first six.
pub fn shown_paths(paths: &Vec<String>) -> (r: Vec<String>)
    ensures
        string_views(r@) == string_views(paths@).take(
            if paths@.len() < SHOWN_PATHS { paths@.len() as int } else { SHOWN_PATHS as int },
        ),
{
    let n = if paths.len() < SHOWN_PATHS { paths.len() } else { SHOWN_PATHS };
    let mut r: Vec<String> = Vec::new();
    let mut i: usize = 0;
    assert(string_views(r@) =~= string_views(paths@).take(0));
    while i < n
        invariant
            n <= paths.len(),
            i <= n,
            string_views(r@) == string_views(paths@).take(i as int),
        decreases n - i,
    {
        crate::text::push_string(&mut r, paths[i].clone());
        proof {
            assert(string_views(paths@).take(i + 1) =~= string_views(paths@).take(i as int).push(
                paths@[i as int]@,
            ));
        }
        i += 1;
    }
    r
}

} // verus!
