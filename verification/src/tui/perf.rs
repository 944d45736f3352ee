//! The figures of the sandbox's process tree, read out of the texts of
//! `/proc/<pid>/stat`, `/proc/<pid>/status` and `/proc/<pid>/io`.  Reading
//! the files, the clock and the CPU share are the caller's work.

use vstd::prelude::*;
use crate::text::{
    char_in, chars_of, find_from, first_occ_from, last_index_of, lemma_first_occ_from,
    lemma_last_index_of, lines_of, parse_u32, parse_u64, parse_unsigned, rfind_char, seq_views,
    slice_chars, split_whitespace, starts_with, starts_with_str, string_of, text_lines, trim,
    trim_chars, words,
};
use crate::tui::events::{PerfSnapshot, ProcessInfo};

verus! {

// ── Reading figures ─────────────────────────────────────────────────────────

/// The number a word reads as, `dflt` when it is no unsigned number up to
/// `max` (`str::parse(..).unwrap_or(dflt)`).
pub open spec fn num_or(w: Seq<char>, max: nat, dflt: nat) -> nat {
    match parse_unsigned(w, max) {
        Some(v) => v,
        None => dflt,
    }
}

/// The first whitespace-separated word of `s` read as a number, else `dflt`.
pub open spec fn first_word_num(s: Seq<char>, max: nat, dflt: nat) -> nat {
    let ws = words(s);
    if ws.len() > 0 {
        num_or(ws[0], max, dflt)
    } else {
        dflt
    }
}

/// What a `status` line adds under `key`: the first word after the key.
pub open spec fn status_figure(line: Seq<char>, key: Seq<char>, max: nat, dflt: nat) -> nat {
    if starts_with(line, key) {
        first_word_num(line.skip(key.len() as int), max, dflt)
    } else {
        0
    }
}

/// The sum of the figures of the `status` lines under `key`.
pub open spec fn status_sum(ls: Seq<Seq<char>>, key: Seq<char>, max: nat, dflt: nat) -> nat
    decreases ls.len(),
{
    if ls.len() == 0 {
        0
    } else {
        status_sum(ls.drop_last(), key, max, dflt) + status_figure(ls.last(), key, max, dflt)
    }
}

/// The figure of the last `status` line under `key`; `init` when no line
/// has the key.
pub open spec fn status_last(ls: Seq<Seq<char>>, key: Seq<char>, max: nat, dflt: nat, init: nat) -> nat
    decreases ls.len(),
{
    if ls.len() == 0 {
        init
    } else if starts_with(ls.last(), key) {
        first_word_num(ls.last().skip(key.len() as int), max, dflt)
    } else {
        status_last(ls.drop_last(), key, max, dflt, init)
    }
}

/// What an `io` line adds under `key`: the rest of the line, trimmed, as a
/// byte count (0 when it is none), in whole kilobytes.
pub open spec fn io_figure(line: Seq<char>, key: Seq<char>) -> nat {
    if starts_with(line, key) {
        num_or(trim(line.skip(key.len() as int)), u64::MAX as nat, 0) / 1024
    } else {
        0
    }
}

/// The sum of the figures of the `io` lines under `key`.
pub open spec fn io_sum(ls: Seq<Seq<char>>, key: Seq<char>) -> nat
    decreases ls.len(),
{
    if ls.len() == 0 {
        0
    } else {
        io_sum(ls.drop_last(), key) + io_figure(ls.last(), key)
    }
}

/// The command name of a `stat` text: what stands between the first `(` and
/// the last `)`, empty when either is missing; `None` when the last `)`
/// stands before the first `(`, where slicing between them fails.
pub open spec fn stat_comm(s: Seq<char>) -> Option<Seq<char>> {
    match first_occ_from(s, seq!['('], 0) {
        Some(a) => match last_index_of(s, ')') {
            Some(b) => if b < a + 1 {
                None
            } else {
                Some(s.subrange(a + 1, b))
            },
            None => Some(seq![]),
        },
        None => Some(seq![]),
    }
}

/// The user time, system time and state of a `stat` text: fields 14, 15
/// and 3 of the file, that is the 12th, 13th and first word after the last
/// `)`; `None` when there is no `)` or fewer than 13 words follow it.
pub open spec fn stat_times(s: Seq<char>) -> Option<(nat, nat, char)> {
    match last_index_of(s, ')') {
        Some(b) => {
            let f = words(s.skip(b + 1));
            if f.len() >= 13 {
                Some(
                    (
                        num_or(f[11], u64::MAX as nat, 0),
                        num_or(f[12], u64::MAX as nat, 0),
                        if f[0].len() > 0 {
                            f[0][0]
                        } else {
                            '?'
                        },
                    ),
                )
            } else {
                None
            }
        },
        None => None,
    }
}

proof fn lemma_status_sum_prefix(ls: Seq<Seq<char>>, key: Seq<char>, max: nat, dflt: nat, i: int)
    requires
        0 <= i <= ls.len(),
    ensures
        status_sum(ls.take(i), key, max, dflt) <= status_sum(ls, key, max, dflt),
    decreases ls.len() - i,
{
    if i < ls.len() {
        lemma_status_sum_prefix(ls, key, max, dflt, i + 1);
        assert(ls.take(i + 1).drop_last() =~= ls.take(i));
    } else {
        assert(ls.take(i) =~= ls);
    }
}

proof fn lemma_io_sum_prefix(ls: Seq<Seq<char>>, key: Seq<char>, i: int)
    requires
        0 <= i <= ls.len(),
    ensures
        io_sum(ls.take(i), key) <= io_sum(ls, key),
    decreases ls.len() - i,
{
    if i < ls.len() {
        lemma_io_sum_prefix(ls, key, i + 1);
        assert(ls.take(i + 1).drop_last() =~= ls.take(i));
    } else {
        assert(ls.take(i) =~= ls);
    }
}

/// The rest of `line` after `key`, when it begins with it
/// (`str::strip_prefix`).
fn strip_key(line: &Vec<char>, key: &str) -> (r: Option<Vec<char>>)
    ensures
        match r {
            Some(rest) => starts_with(line@, key@) && rest@ == line@.skip(key@.len() as int),
            None => !starts_with(line@, key@),
        },
{
    let kv = chars_of(key);
    if starts_with_str(line, key) {
        let rest = slice_chars(line, kv.len(), line.len());
        assert(rest@ =~= line@.skip(key@.len() as int));
        Some(rest)
    } else {
        None
    }
}

fn first_word_u64(s: &Vec<char>, dflt: u64) -> (r: u64)
    ensures
        r == first_word_num(s@, u64::MAX as nat, dflt as nat),
{
    let ws = split_whitespace(s);
    if ws.len() > 0 {
        assert(words(s@)[0] == ws@[0]@);
        match parse_u64(&ws[0]) {
            Some(v) => v,
            None => dflt,
        }
    } else {
        dflt
    }
}

fn first_word_u32(s: &Vec<char>, dflt: u32) -> (r: u32)
    ensures
        r == first_word_num(s@, u32::MAX as nat, dflt as nat),
{
    let ws = split_whitespace(s);
    if ws.len() > 0 {
        assert(words(s@)[0] == ws@[0]@);
        match parse_u32(&ws[0]) {
            Some(v) => v,
            None => dflt,
        }
    } else {
        dflt
    }
}

/// The figures of a `status` text: the resident size of its last `VmRSS:`
/// line (0 when there is none), and the sums over its lines of `VmRSS:`,
/// `VmSize:` and `Threads:` (a thread count that is no number counts 1);
/// `None` when a sum does not fit its type.
pub fn status_figures(status: &str) -> (r: Option<(u64, u64, u64, u32)>)
    ensures
        ({
            let ls = text_lines(status@);
            match r {
                Some((last, rss, vmsz, threads)) => {
                    &&& last == status_last(ls, "VmRSS:"@, u64::MAX as nat, 0, 0)
                    &&& rss == status_sum(ls, "VmRSS:"@, u64::MAX as nat, 0)
                    &&& vmsz == status_sum(ls, "VmSize:"@, u64::MAX as nat, 0)
                    &&& threads == status_sum(ls, "Threads:"@, u32::MAX as nat, 1)
                },
                None => !(status_sum(ls, "VmRSS:"@, u64::MAX as nat, 0) <= u64::MAX
                    && status_sum(ls, "VmSize:"@, u64::MAX as nat, 0) <= u64::MAX
                    && status_sum(ls, "Threads:"@, u32::MAX as nat, 1) <= u32::MAX),
            }
        }),
{
    let sv = chars_of(status);
    let lines = lines_of(&sv);
    let ghost ls = seq_views(lines@);
    let mut last: u64 = 0;
    let mut rss: u64 = 0;
    let mut vmsz: u64 = 0;
    let mut threads: u32 = 0;
    let mut i: usize = 0;
    assert(ls.take(0) =~= Seq::<Seq<char>>::empty());
    while i < lines.len()
        invariant
            ls == seq_views(lines@),
            ls == text_lines(status@),
            i <= lines.len(),
            last == status_last(ls.take(i as int), "VmRSS:"@, u64::MAX as nat, 0, 0),
            rss == status_sum(ls.take(i as int), "VmRSS:"@, u64::MAX as nat, 0),
            vmsz == status_sum(ls.take(i as int), "VmSize:"@, u64::MAX as nat, 0),
            threads == status_sum(ls.take(i as int), "Threads:"@, u32::MAX as nat, 1),
        decreases lines.len() - i,
    {
        let line = &lines[i];
        proof {
            assert(ls.take(i + 1).drop_last() =~= ls.take(i as int));
            assert(ls.take(i + 1).last() == line@);
            lemma_status_sum_prefix(ls, "VmRSS:"@, u64::MAX as nat, 0, i + 1);
            lemma_status_sum_prefix(ls, "VmSize:"@, u64::MAX as nat, 0, i + 1);
            lemma_status_sum_prefix(ls, "Threads:"@, u32::MAX as nat, 1, i + 1);
        }
        match strip_key(line, "VmRSS:") {
            Some(rest) => {
                let v = first_word_u64(&rest, 0);
                last = v;
                match rss.checked_add(v) {
                    Some(t) => rss = t,
                    None => return None,
                }
            },
            None => {},
        }
        match strip_key(line, "VmSize:") {
            Some(rest) => {
                let v = first_word_u64(&rest, 0);
                match vmsz.checked_add(v) {
                    Some(t) => vmsz = t,
                    None => return None,
                }
            },
            None => {},
        }
        match strip_key(line, "Threads:") {
            Some(rest) => {
                let v = first_word_u32(&rest, 1);
                match threads.checked_add(v) {
                    Some(t) => threads = t,
                    None => return None,
                }
            },
            None => {},
        }
        i += 1;
    }
    assert(ls.take(lines.len() as int) =~= ls);
    Some((last, rss, vmsz, threads))
}

/// The figures of an `io` text: the sums over its lines of `read_bytes:`
/// and `write_bytes:`, each line's count in whole kilobytes; `None` when a
/// sum does not fit a `u64`.
pub fn io_figures(io: &str) -> (r: Option<(u64, u64)>)
    ensures
        ({
            let ls = text_lines(io@);
            match r {
                Some((rd, wr)) => rd == io_sum(ls, "read_bytes:"@) && wr == io_sum(ls, "write_bytes:"@),
                None => !(io_sum(ls, "read_bytes:"@) <= u64::MAX && io_sum(ls, "write_bytes:"@)
                    <= u64::MAX),
            }
        }),
{
    let sv = chars_of(io);
    let lines = lines_of(&sv);
    let ghost ls = seq_views(lines@);
    let mut rd: u64 = 0;
    let mut wr: u64 = 0;
    let mut i: usize = 0;
    assert(ls.take(0) =~= Seq::<Seq<char>>::empty());
    while i < lines.len()
        invariant
            ls == seq_views(lines@),
            ls == text_lines(io@),
            i <= lines.len(),
            rd == io_sum(ls.take(i as int), "read_bytes:"@),
            wr == io_sum(ls.take(i as int), "write_bytes:"@),
        decreases lines.len() - i,
    {
        let line = &lines[i];
        proof {
            assert(ls.take(i + 1).drop_last() =~= ls.take(i as int));
            assert(ls.take(i + 1).last() == line@);
            lemma_io_sum_prefix(ls, "read_bytes:"@, i + 1);
            lemma_io_sum_prefix(ls, "write_bytes:"@, i + 1);
        }
        match strip_key(line, "read_bytes:") {
            Some(rest) => {
                let t = trim_chars(&rest);
                let v = match parse_u64(&t) {
                    Some(x) => x,
                    None => 0,
                } / 1024;
                match rd.checked_add(v) {
                    Some(s) => rd = s,
                    None => return None,
                }
            },
            None => {},
        }
        match strip_key(line, "write_bytes:") {
            Some(rest) => {
                let t = trim_chars(&rest);
                let v = match parse_u64(&t) {
                    Some(x) => x,
                    None => 0,
                } / 1024;
                match wr.checked_add(v) {
                    Some(s) => wr = s,
                    None => return None,
                }
            },
            None => {},
        }
        i += 1;
    }
    assert(ls.take(lines.len() as int) =~= ls);
    Some((rd, wr))
}

/// The command name and the times and state of a `stat` text; `None` when
/// its last `)` stands before its first `(`.
pub fn parse_stat(stat: &str) -> (r: Option<(String, Option<(u64, u64, char)>)>)
    ensures
        match r {
            Some((comm, times)) => {
                &&& stat_comm(stat@) == Some(comm@)
                &&& stat_times(stat@) == match times {
                    Some((u, s, c)) => Some((u as nat, s as nat, c)),
                    None => None::<(nat, nat, char)>,
                }
            },
            None => stat_comm(stat@) is None,
        },
{
    let s = chars_of(stat);
    let mut open: Vec<char> = Vec::new();
    open.push('(');
    assert(open@ =~= seq!['(']);
    let first = find_from(&s, &open, 0);
    let last = rfind_char(&s, ')');
    proof {
        lemma_first_occ_from(s@, seq!['('], 0);
        lemma_last_index_of(s@, ')');
    }
    let mut comm = String::new();
    assert(comm@ =~= Seq::<char>::empty());
    match first {
        Some(a) => match last {
            Some(b) => {
                if b < a + 1 {
                    return None;
                }
                let c = slice_chars(&s, a + 1, b);
                comm = string_of(c.as_slice());
            },
            None => {},
        },
        None => {},
    }
    let times = match last {
        Some(b) => {
            let rest = slice_chars(&s, b + 1, s.len());
            assert(rest@ =~= s@.skip(b + 1));
            let f = split_whitespace(&rest);
            if f.len() >= 13 {
                proof {
                    assert(words(s@.skip(b + 1))[11] == f@[11]@);
                    assert(words(s@.skip(b + 1))[12] == f@[12]@);
                    assert(words(s@.skip(b + 1))[0] == f@[0]@);
                }
                let u = match parse_u64(&f[11]) {
                    Some(x) => x,
                    None => 0,
                };
                let t = match parse_u64(&f[12]) {
                    Some(x) => x,
                    None => 0,
                };
                let c = if f[0].len() > 0 {
                    f[0][0]
                } else {
                    '?'
                };
                Some((u, t, c))
            } else {
                None
            }
        },
        None => None,
    };
    Some((comm, times))
}

// ── Aggregating the tree ────────────────────────────────────────────────────

/// The running totals over the processes read so far.
pub struct PerfTotals {
    /// User and system time, in clock ticks.
    pub utime: u64,
    pub stime: u64,
    pub rss_kb: u64,
    pub vmsz_kb: u64,
    pub threads: u32,
    pub io_read_kb: u64,
    pub io_write_kb: u64,
    /// The state letters seen.
    pub states: Vec<char>,
    pub processes: Vec<ProcessInfo>,
}

/// The plain view of the totals, in unbounded integers.
pub struct TotalsView {
    pub utime: int,
    pub stime: int,
    pub rss_kb: int,
    pub vmsz_kb: int,
    pub threads: int,
    pub io_read_kb: int,
    pub io_write_kb: int,
    pub states: Seq<char>,
    /// (pid, command name, resident size) of each process, in the order read.
    pub processes: Seq<(u32, Seq<char>, int)>,
}

pub open spec fn process_views(ps: Seq<ProcessInfo>) -> Seq<(u32, Seq<char>, int)> {
    ps.map_values(|p: ProcessInfo| (p.pid, p.comm@, p.mem as int))
}

pub open spec fn totals_view(t: PerfTotals) -> TotalsView {
    TotalsView {
        utime: t.utime as int,
        stime: t.stime as int,
        rss_kb: t.rss_kb as int,
        vmsz_kb: t.vmsz_kb as int,
        threads: t.threads as int,
        io_read_kb: t.io_read_kb as int,
        io_write_kb: t.io_write_kb as int,
        states: t.states@,
        processes: process_views(t.processes@),
    }
}

pub open spec fn opt_text(o: Option<&str>) -> Option<Seq<char>> {
    match o {
        Some(s) => Some(s@),
        None => None,
    }
}

/// Whether a process's `stat` text cannot be read for its command name.
pub open spec fn stat_fails(stat: Option<Seq<char>>) -> bool {
    stat matches Some(s) && stat_comm(s) is None
}

/// The totals after one more process, whose files read as given (`None`
/// for a file that could not be read): its times and state from `stat`,
/// its memory and threads from `status`, its I/O from `io`, and an entry
/// with its command name and its last resident size.
pub open spec fn after_process(
    t: TotalsView,
    pid: u32,
    stat: Option<Seq<char>>,
    status: Option<Seq<char>>,
    io: Option<Seq<char>>,
) -> TotalsView {
    let comm = match stat {
        Some(s) => match stat_comm(s) {
            Some(c) => c,
            None => seq![],
        },
        None => seq![],
    };
    let times = match stat {
        Some(s) => stat_times(s),
        None => None,
    };
    let sl = match status {
        Some(s) => text_lines(s),
        None => seq![],
    };
    let il = match io {
        Some(s) => text_lines(s),
        None => seq![],
    };
    TotalsView {
        utime: t.utime + match times {
            Some(x) => x.0,
            None => 0,
        },
        stime: t.stime + match times {
            Some(x) => x.1,
            None => 0,
        },
        rss_kb: t.rss_kb + status_sum(sl, "VmRSS:"@, u64::MAX as nat, 0),
        vmsz_kb: t.vmsz_kb + status_sum(sl, "VmSize:"@, u64::MAX as nat, 0),
        threads: t.threads + status_sum(sl, "Threads:"@, u32::MAX as nat, 1),
        io_read_kb: t.io_read_kb + io_sum(il, "read_bytes:"@),
        io_write_kb: t.io_write_kb + io_sum(il, "write_bytes:"@),
        states: match times {
            Some(x) => t.states.push(x.2),
            None => t.states,
        },
        processes: t.processes.push((pid, comm, status_last(sl, "VmRSS:"@, u64::MAX as nat, 0, 0) as int)),
    }
}

/// Whether every total fits its type.
pub open spec fn totals_fit(t: TotalsView) -> bool {
    &&& t.utime <= u64::MAX
    &&& t.stime <= u64::MAX
    &&& t.rss_kb <= u64::MAX
    &&& t.vmsz_kb <= u64::MAX
    &&& t.threads <= u32::MAX
    &&& t.io_read_kb <= u64::MAX
    &&& t.io_write_kb <= u64::MAX
}

/// The state letter shown for the tree: `R` when a process runs, else `D`
/// when one waits on disk, else `S` when one sleeps, else any letter seen,
/// `?` when none was.
pub fn pick_state(states: &Vec<char>) -> (c: char)
    ensures
        states@.contains('R') ==> c == 'R',
        !states@.contains('R') && states@.contains('D') ==> c == 'D',
        !states@.contains('R') && !states@.contains('D') && states@.contains('S') ==> c == 'S',
        !states@.contains('R') && !states@.contains('D') && !states@.contains('S') ==> if states.len()
            == 0 {
            c == '?'
        } else {
            states@.contains(c)
        },
{
    if char_in(states, 'R') {
        'R'
    } else if char_in(states, 'D') {
        'D'
    } else if char_in(states, 'S') {
        'S'
    } else if states.len() > 0 {
        assert(states@.contains(states@[0]));
        states[0]
    } else {
        '?'
    }
}

impl PerfTotals {
    /// Nothing read yet.
    pub fn new() -> (t: PerfTotals)
        ensures
            totals_view(t) == (TotalsView {
                utime: 0,
                stime: 0,
                rss_kb: 0,
                vmsz_kb: 0,
                threads: 0,
                io_read_kb: 0,
                io_write_kb: 0,
                states: seq![],
                processes: seq![],
            }),
    {
        let t = PerfTotals {
            utime: 0,
            stime: 0,
            rss_kb: 0,
            vmsz_kb: 0,
            threads: 0,
            io_read_kb: 0,
            io_write_kb: 0,
            states: Vec::new(),
            processes: Vec::new(),
        };
        assert(process_views(t.processes@) =~= Seq::<(u32, Seq<char>, int)>::empty());
        t
    }

    /// Adds one process whose files read as given (`None` for a file that
    /// could not be read).  Returns `false`, and leaves the totals as they
    /// were, when its `stat` text cannot be cut at its parentheses or a total
    /// would not fit its type.
    pub fn add_process(&mut self, pid: u32, stat: Option<&str>, status: Option<&str>, io: Option<&str>) -> (ok: bool)
        ensures
            ok == (!stat_fails(opt_text(stat)) && totals_fit(
                after_process(totals_view(*old(self)), pid, opt_text(stat), opt_text(status), opt_text(io)),
            )),
            ok ==> totals_view(*final(self)) == after_process(
                totals_view(*old(self)),
                pid,
                opt_text(stat),
                opt_text(status),
                opt_text(io),
            ),
            !ok ==> *final(self) == *old(self),
    {
        let ghost t0 = totals_view(*self);
        let ghost after = after_process(t0, pid, opt_text(stat), opt_text(status), opt_text(io));
        let mut comm = String::new();
        assert(comm@ =~= Seq::<char>::empty());
        let mut times: Option<(u64, u64, char)> = None;
        match stat {
            Some(st) => match parse_stat(st) {
                Some((c, t)) => {
                    comm = c;
                    times = t;
                },
                None => return false,
            },
            None => {},
        }
        let (rss_last, rss, vmsz, threads) = match status {
            Some(x) => match status_figures(x) {
                Some(f) => f,
                None => return false,
            },
            None => (0, 0, 0, 0),
        };
        let (rd, wr) = match io {
            Some(x) => match io_figures(x) {
                Some(f) => f,
                None => return false,
            },
            None => (0, 0),
        };
        let (ut, st, state) = match times {
            Some((a, b, c)) => (a, b, Some(c)),
            None => (0, 0, None),
        };
        let u = match self.utime.checked_add(ut) {
            Some(v) => v,
            None => return false,
        };
        let s = match self.stime.checked_add(st) {
            Some(v) => v,
            None => return false,
        };
        let r = match self.rss_kb.checked_add(rss) {
            Some(v) => v,
            None => return false,
        };
        let m = match self.vmsz_kb.checked_add(vmsz) {
            Some(v) => v,
            None => return false,
        };
        let th = match self.threads.checked_add(threads) {
            Some(v) => v,
            None => return false,
        };
        let ir = match self.io_read_kb.checked_add(rd) {
            Some(v) => v,
            None => return false,
        };
        let iw = match self.io_write_kb.checked_add(wr) {
            Some(v) => v,
            None => return false,
        };
        self.utime = u;
        self.stime = s;
        self.rss_kb = r;
        self.vmsz_kb = m;
        self.threads = th;
        self.io_read_kb = ir;
        self.io_write_kb = iw;
        match state {
            Some(c) => self.states.push(c),
            None => {},
        }
        let ghost before = self.processes@;
        self.processes.push(ProcessInfo { pid, comm, mem: rss_last });
        proof {
            assert(process_views(self.processes@) =~= process_views(before).push(
                (pid, self.processes@.last().comm@, rss_last as int),
            ));
        }
        true
    }

    /// User plus system time over the tree, `None` when the sum does not
    /// fit a `u64`.
    pub fn ticks(&self) -> (r: Option<u64>)
        ensures
            match r {
                Some(v) => v == self.utime + self.stime,
                None => self.utime + self.stime > u64::MAX,
            },
    {
        self.utime.checked_add(self.stime)
    }

    /// The snapshot the dashboard receives: the totals, the state letter
    /// picked from those seen, and the processes in the order read.
    pub fn into_snapshot(self) -> (s: PerfSnapshot)
        ensures
            s.rss_kb == self.rss_kb,
            s.vmsz_kb == self.vmsz_kb,
            s.threads == self.threads,
            s.io_read_kb == self.io_read_kb,
            s.io_write_kb == self.io_write_kb,
            s.processes@ == self.processes@,
            self.states@.contains('R') ==> s.state == 'R',
            !self.states@.contains('R') && self.states@.contains('D') ==> s.state == 'D',
            !self.states@.contains('R') && !self.states@.contains('D') && self.states@.contains('S')
                ==> s.state == 'S',
            !self.states@.contains('R') && !self.states@.contains('D') && !self.states@.contains('S')
                ==> if self.states.len() == 0 {
                s.state == '?'
            } else {
                self.states@.contains(s.state)
            },
    {
        let state = pick_state(&self.states);
        PerfSnapshot {
            rss_kb: self.rss_kb,
            vmsz_kb: self.vmsz_kb,
            threads: self.threads,
            io_read_kb: self.io_read_kb,
            io_write_kb: self.io_write_kb,
            state,
            processes: self.processes,
        }
    }
}

} // verus!
