//! The state of the dashboard and its transitions on messages and keys.

use vstd::prelude::*;
use std::collections::VecDeque;
use crate::tui::events::{EventKind, PerfSnapshot, SandboxEvent, SandboxInfo, TuiMsg};
use crate::text::{dec_nat, push_all, string_of, u64_to_chars};

verus! {

/// Maximum number of log entries retained in memory.
pub const MAX_LOG_ENTRIES: usize = 2000;
/// How many memory samples are kept for the sparkline.
pub const SPARKLINE_LEN: usize = 60;
/// Maximum number of lines of the command's output retained in memory.
pub const MAX_OUTPUT_LINES: usize = 2000;
/// How many lines PgUp and PgDn move the command-output view.
pub const OUTPUT_PAGE: usize = 10;

/// The panel shown.
#[derive(Clone, Copy, PartialEq, Eq, Structural, Debug)]
pub enum Tab {
    Events,
    Perf,
    Status,
}

pub open spec fn tab_next(t: Tab) -> Tab {
    match t {
        Tab::Events => Tab::Perf,
        Tab::Perf => Tab::Status,
        Tab::Status => Tab::Events,
    }
}

pub open spec fn tab_prev(t: Tab) -> Tab {
    match t {
        Tab::Events => Tab::Status,
        Tab::Perf => Tab::Events,
        Tab::Status => Tab::Perf,
    }
}

impl Tab {
    /// The title of the tab.
    pub fn title(self) -> (r: &'static str)
        ensures
            r@ == match self {
                Tab::Events => " Events "@,
                Tab::Perf => " Perf   "@,
                Tab::Status => " Status "@,
            },
    {
        match self {
            Tab::Events => " Events ",
            Tab::Perf => " Perf   ",
            Tab::Status => " Status ",
        }
    }

    /// The tab after this one, cyclically.
    pub fn next(self) -> (r: Tab)
        ensures
            r == tab_next(self),
    {
        match self {
            Tab::Events => Tab::Perf,
            Tab::Perf => Tab::Status,
            Tab::Status => Tab::Events,
        }
    }

    /// The tab before this one, cyclically.
    pub fn prev(self) -> (r: Tab)
        ensures
            r == tab_prev(self),
    {
        match self {
            Tab::Events => Tab::Status,
            Tab::Perf => Tab::Events,
            Tab::Status => Tab::Perf,
        }
    }
}

/// `prev` undoes `next`, `next` undoes `prev`, and three steps come back
/// to the start.
pub proof fn law_tab_cycle(t: Tab)
    ensures
        tab_prev(tab_next(t)) == t,
        tab_next(tab_prev(t)) == t,
        tab_next(tab_next(tab_next(t))) == t,
{
}

/// A key press the dashboard reacts to.
#[derive(Clone, Copy, PartialEq, Eq, Structural, Debug)]
pub enum Key {
    Char(char),
    Tab,
    BackTab,
    Up,
    Down,
    Home,
    End,
    PageUp,
    PageDown,
    Other,
}

/// The whole state of the dashboard.
pub struct App {
    pub current_tab: Tab,
    /// Whether the dashboard has been asked to quit.
    pub should_quit: bool,
    pub log: VecDeque<SandboxEvent>,
    /// Whether the log view follows the newest entry.
    pub log_follow: bool,
    /// The entry the log view is scrolled to.
    pub log_scroll: usize,
    /// The latest lines of the command's raw output, oldest first.
    pub output: VecDeque<String>,
    /// Whether the output view follows the newest line.
    pub output_follow: bool,
    /// The line the output view is scrolled to.
    pub output_scroll: usize,
    pub count_read: usize,
    pub count_write: usize,
    pub count_create: usize,
    pub count_delete: usize,
    pub count_blocked: usize,
    pub count_net_allow: usize,
    pub count_net_block: usize,
    pub latest_perf: Option<PerfSnapshot>,
    /// The latest resident-memory samples, oldest first.
    pub ram_history: VecDeque<u64>,
    pub sandbox_info: SandboxInfo,
    /// Wall-clock seconds since the sandbox started.
    pub elapsed_secs: u64,
    /// Whether the user has requested a force kill.
    pub force_kill_requested: bool,
}

/// `n.saturating_sub(1)`.
pub open spec fn last_index(n: nat) -> nat {
    if n == 0 { 0 } else { (n - 1) as nat }
}

/// The dashboard after message `msg` on state `a` is `b`: see
/// `App::handle_msg`.
pub open spec fn handled(a: App, msg: TuiMsg, b: App) -> bool {
    match msg {
        TuiMsg::Log(ev) => {
            &&& b.log@ == (if a.log@.len() >= MAX_LOG_ENTRIES {
                a.log@.drop_first()
            } else {
                a.log@
            }).push(ev)
            &&& forall|k: EventKind| #[trigger] b.counter(k) == match a.counter(k) {
                Some(c) => if k == ev.kind { Some((c + 1) as usize) } else { Some(c) },
                None => None,
            }
            &&& b.log_follow == a.log_follow
            &&& a.log_follow ==> b.log_scroll == b.log@.len() - 1
            &&& !a.log_follow ==> b.log_scroll == if a.log@.len()
                >= MAX_LOG_ENTRIES && a.log_scroll > 0 {
                (a.log_scroll - 1) as usize
            } else {
                a.log_scroll
            }
            &&& b == (App {
                log: b.log,
                log_scroll: b.log_scroll,
                count_read: b.count_read,
                count_write: b.count_write,
                count_create: b.count_create,
                count_delete: b.count_delete,
                count_blocked: b.count_blocked,
                count_net_allow: b.count_net_allow,
                count_net_block: b.count_net_block,
                ..a
            })
        },
        TuiMsg::Perf(snap) => {
            &&& b.latest_perf == Some(snap)
            &&& b.ram_history@ == (if a.ram_history@.len() >= SPARKLINE_LEN {
                a.ram_history@.drop_first()
            } else {
                a.ram_history@
            }).push(snap.rss_kb)
            &&& b == (App {
                latest_perf: Some(snap),
                ram_history: b.ram_history,
                ..a
            })
        },
        TuiMsg::SandboxInfo(info) => b == (App { sandbox_info: info, ..a }),
        TuiMsg::Output(line) => {
            &&& b.output@ == (if a.output@.len() >= MAX_OUTPUT_LINES {
                a.output@.drop_first()
            } else {
                a.output@
            }).push(line)
            &&& a.output_follow ==> b.output_scroll == b.output@.len() - 1
            &&& !a.output_follow ==> b.output_scroll == if a.output@.len()
                >= MAX_OUTPUT_LINES && a.output_scroll > 0 {
                (a.output_scroll - 1) as usize
            } else {
                a.output_scroll
            }
            &&& b == (App {
                output: b.output,
                output_scroll: b.output_scroll,
                ..a
            })
        },
        TuiMsg::KillRequested => b == (App { force_kill_requested: true, ..a }),
        TuiMsg::Shutdown => b == (App { should_quit: true, ..a }),
    }
}

/// The dashboard after key `key` on state `a`: see `App::on_key`.
pub open spec fn after_key(a: App, key: Key) -> App {
    match key {
        Key::Char('q') | Key::Char('Q') => App { should_quit: true, ..a },
        Key::Tab => App { current_tab: tab_next(a.current_tab), ..a },
        Key::BackTab => App { current_tab: tab_prev(a.current_tab), ..a },
        Key::Char('1') => App { current_tab: Tab::Events, ..a },
        Key::Char('2') => App { current_tab: Tab::Perf, ..a },
        Key::Char('3') => App { current_tab: Tab::Status, ..a },
        Key::Down | Key::Char('j') => App {
            log_follow: false,
            log_scroll: if a.log_scroll < last_index(a.log@.len()) {
                (a.log_scroll + 1) as usize
            } else {
                a.log_scroll
            },
            ..a
        },
        Key::Up | Key::Char('k') => App {
            log_follow: false,
            log_scroll: if a.log_scroll > 0 {
                (a.log_scroll - 1) as usize
            } else {
                0
            },
            ..a
        },
        Key::End | Key::Char('G') => App {
            log_follow: true,
            log_scroll: last_index(a.log@.len()) as usize,
            ..a
        },
        Key::Home | Key::Char('g') => App { log_follow: false, log_scroll: 0, ..a },
        Key::Char('f') | Key::Char('F') => App {
            log_follow: !a.log_follow,
            log_scroll: if !a.log_follow {
                last_index(a.log@.len()) as usize
            } else {
                a.log_scroll
            },
            ..a
        },
        Key::Char('o') | Key::Char('O') => App {
            output_follow: !a.output_follow,
            output_scroll: if !a.output_follow {
                last_index(a.output@.len()) as usize
            } else {
                a.output_scroll
            },
            ..a
        },
        Key::PageUp => App {
            output_follow: false,
            output_scroll: if a.output_scroll > OUTPUT_PAGE {
                (a.output_scroll - OUTPUT_PAGE) as usize
            } else {
                0
            },
            ..a
        },
        Key::PageDown => App {
            output_follow: false,
            output_scroll: if a.output_scroll + OUTPUT_PAGE < last_index(a.output@.len()) {
                (a.output_scroll + OUTPUT_PAGE) as usize
            } else {
                last_index(a.output@.len()) as usize
            },
            ..a
        },
        _ => a,
    }
}

/// The dashboard one second later.
pub open spec fn after_tick(a: App) -> App {
    App { elapsed_secs: (a.elapsed_secs + 1) as u64, ..a }
}

/// One call on the dashboard.
pub enum AppCall {
    Msg(TuiMsg),
    Press(Key),
    Tick,
}

/// The dashboard after `call` on state `a` is `b`.
pub open spec fn app_step(a: App, call: AppCall, b: App) -> bool {
    match call {
        AppCall::Msg(m) => handled(a, m, b),
        AppCall::Press(k) => b == after_key(a, k),
        AppCall::Tick => b == after_tick(a),
    }
}

proof fn lemma_step_keeps_wf(a: App, call: AppCall, b: App)
    requires
        a.wf(),
        app_step(a, call, b),
    ensures
        b.wf(),
{
}

/// Whatever calls follow a well-formed dashboard (as `App::new` makes
/// one), each state along the way keeps the log within `MAX_LOG_ENTRIES`,
/// the command output within `MAX_OUTPUT_LINES` and the memory history
/// within `SPARKLINE_LEN`, and each scroll position within its list.
pub proof fn law_bounds_hold_over_any_run(states: Seq<App>, calls: Seq<AppCall>)
    requires
        states.len() == calls.len() + 1,
        states[0].wf(),
        forall|i: int| 0 <= i < calls.len() ==> app_step(#[trigger] states[i], calls[i], states[i + 1]),
    ensures
        forall|i: int|
            0 <= i < states.len() ==> {
                &&& (#[trigger] states[i]).log@.len() <= MAX_LOG_ENTRIES
                &&& states[i].output@.len() <= MAX_OUTPUT_LINES
                &&& states[i].ram_history@.len() <= SPARKLINE_LEN
                &&& states[i].log_scroll <= last_index(states[i].log@.len())
                &&& states[i].output_scroll <= last_index(states[i].output@.len())
            },
    decreases calls.len(),
{
    if calls.len() > 0 {
        let n = calls.len() - 1;
        law_bounds_hold_over_any_run(states.drop_last(), calls.drop_last());
        assert(states.drop_last()[n] == states[n]);
        assert(states[n].wf());
        lemma_step_keeps_wf(states[n], calls[n], states[n + 1]);
        assert forall|i: int| 0 <= i < states.len() implies (#[trigger] states[i]).wf() by {
            if i < states.len() - 1 {
                assert(states.drop_last()[i] == states[i]);
            }
        }
    }
}

impl App {
    /// The state invariant: the log, the output and the memory history
    /// within their bounds, and each scroll position within its list.
    pub open spec fn wf(&self) -> bool {
        &&& self.log@.len() <= MAX_LOG_ENTRIES
        &&& self.output@.len() <= MAX_OUTPUT_LINES
        &&& self.ram_history@.len() <= SPARKLINE_LEN
        &&& self.log_scroll <= last_index(self.log@.len())
        &&& self.output_scroll <= last_index(self.output@.len())
    }

    /// Whether no counter is at its largest value.
    pub open spec fn counters_below_max(&self) -> bool {
        &&& self.count_read < usize::MAX
        &&& self.count_write < usize::MAX
        &&& self.count_create < usize::MAX
        &&& self.count_delete < usize::MAX
        &&& self.count_blocked < usize::MAX
        &&& self.count_net_allow < usize::MAX
        &&& self.count_net_block < usize::MAX
    }

    /// The counter that an event of kind `k` adds one to, if any.
    pub open spec fn counter(&self, k: EventKind) -> Option<usize> {
        match k {
            EventKind::Read => Some(self.count_read),
            EventKind::Write => Some(self.count_write),
            EventKind::Create => Some(self.count_create),
            EventKind::Delete => Some(self.count_delete),
            EventKind::Blocked => Some(self.count_blocked),
            EventKind::ProxyAllow => Some(self.count_net_allow),
            EventKind::ProxyBlock => Some(self.count_net_block),
            _ => None,
        }
    }

    /// The counters, in order.
    pub open spec fn counters(&self) -> Seq<usize> {
        seq![
            self.count_read,
            self.count_write,
            self.count_create,
            self.count_delete,
            self.count_blocked,
            self.count_net_allow,
            self.count_net_block,
        ]
    }

    /// The state of a dashboard that has seen nothing yet.
    pub fn new() -> (r: App)
        ensures
            r.wf(),
            r.current_tab == Tab::Events,
            !r.should_quit,
            r.log@.len() == 0,
            r.log_follow,
            r.log_scroll == 0,
            r.output@.len() == 0,
            r.output_follow,
            r.output_scroll == 0,
            r.counters() == seq![0usize, 0, 0, 0, 0, 0, 0],
            r.latest_perf is None,
            r.ram_history@.len() == 0,
            r.elapsed_secs == 0,
            !r.force_kill_requested,
            r.sandbox_info.command@.len() == 0,
            r.sandbox_info.network_mode@.len() == 0,
            r.sandbox_info.pid == 0,
            r.sandbox_info.started_at is None,
            r.sandbox_info.project_access@.len() == 0,
            r.sandbox_info.exposed_paths@.len() == 0,
            r.sandbox_info.active_modules@.len() == 0,
            !r.sandbox_info.is_home_exposed,
    {
        App {
            current_tab: Tab::Events,
            should_quit: false,
            log: VecDeque::new(),
            log_follow: true,
            log_scroll: 0,
            output: VecDeque::new(),
            output_follow: true,
            output_scroll: 0,
            count_read: 0,
            count_write: 0,
            count_create: 0,
            count_delete: 0,
            count_blocked: 0,
            count_net_allow: 0,
            count_net_block: 0,
            latest_perf: None,
            ram_history: VecDeque::new(),
            sandbox_info: SandboxInfo::default(),
            elapsed_secs: 0,
            force_kill_requested: false,
        }
    }

    fn update_counters(&mut self, kind: EventKind)
        requires
            old(self).counters_below_max(),
        ensures
            forall|k: EventKind| #[trigger] final(self).counter(k) == match old(self).counter(k) {
                Some(c) => if k == kind { Some((c + 1) as usize) } else { Some(c) },
                None => None,
            },
            final(self).log == old(self).log,
            final(self).log_scroll == old(self).log_scroll,
            final(self).log_follow == old(self).log_follow,
            final(self).output == old(self).output,
            final(self).output_scroll == old(self).output_scroll,
            final(self).output_follow == old(self).output_follow,
            final(self).ram_history == old(self).ram_history,
            final(self).latest_perf == old(self).latest_perf,
            final(self).sandbox_info == old(self).sandbox_info,
            final(self).current_tab == old(self).current_tab,
            final(self).should_quit == old(self).should_quit,
            final(self).elapsed_secs == old(self).elapsed_secs,
            final(self).force_kill_requested == old(self).force_kill_requested,
    {
        match kind {
            EventKind::Read => self.count_read = self.count_read + 1,
            EventKind::Write => self.count_write = self.count_write + 1,
            EventKind::Create => self.count_create = self.count_create + 1,
            EventKind::Delete => self.count_delete = self.count_delete + 1,
            EventKind::Blocked => self.count_blocked = self.count_blocked + 1,
            EventKind::ProxyAllow => self.count_net_allow = self.count_net_allow + 1,
            EventKind::ProxyBlock => self.count_net_block = self.count_net_block + 1,
            _ => {},
        }
    }

    /// Takes in a message; returns whether the dashboard is to quit.
    ///
    /// A log event is counted and appended (the oldest is dropped when the
    /// log is full, and the view follows it when following); a snapshot
    /// becomes the latest and its memory figure joins the history (the
    /// oldest sample dropped when full); metadata replaces the old; a kill
    /// request is recorded; shutdown asks to quit.  A line of the command's
    /// output is appended to the output panel as an event is to the log.
    pub fn handle_msg(&mut self, msg: TuiMsg) -> (quit: bool)
        requires
            old(self).wf(),
            old(self).counters_below_max(),
        ensures
            final(self).wf(),
            quit == final(self).should_quit,
            handled(*old(self), msg, *final(self)),
    {
        match msg {
            TuiMsg::Log(ev) => {
                self.update_counters(ev.kind);
                let ghost mid = *self;
                if self.log.len() >= MAX_LOG_ENTRIES {
                    let ghost before = self.log@;
                    let _ = self.log.pop_front();
                    proof {
                        assert(self.log@ =~= before.drop_first());
                    }
                    if self.log_scroll > 0 {
                        self.log_scroll = self.log_scroll - 1;
                    }
                }
                self.log.push_back(ev);
                if self.log_follow {
                    self.log_scroll = self.log.len() - 1;
                }
                proof {
                    assert forall|k: EventKind| #[trigger] self.counter(k) == mid.counter(k) by {}
                }
            },
            TuiMsg::Perf(snap) => {
                if self.ram_history.len() >= SPARKLINE_LEN {
                    let ghost before = self.ram_history@;
                    let _ = self.ram_history.pop_front();
                    proof {
                        assert(self.ram_history@ =~= before.drop_first());
                    }
                }
                self.ram_history.push_back(snap.rss_kb);
                self.latest_perf = Some(snap);
            },
            TuiMsg::SandboxInfo(info) => {
                self.sandbox_info = info;
            },
            TuiMsg::Output(line) => {
                if self.output.len() >= MAX_OUTPUT_LINES {
                    let ghost before = self.output@;
                    let _ = self.output.pop_front();
                    proof {
                        assert(self.output@ =~= before.drop_first());
                    }
                    if self.output_scroll > 0 {
                        self.output_scroll = self.output_scroll - 1;
                    }
                }
                self.output.push_back(line);
                if self.output_follow {
                    self.output_scroll = self.output.len() - 1;
                }
            },
            TuiMsg::KillRequested => {
                self.force_kill_requested = true;
            },
            TuiMsg::Shutdown => {
                self.should_quit = true;
            },
        }
        self.should_quit
    }

    /// One second more since the start.
    pub fn tick(&mut self)
        requires
            old(self).elapsed_secs < u64::MAX,
        ensures
            *final(self) == after_tick(*old(self)),
    {
        self.elapsed_secs = self.elapsed_secs + 1;
    }

    /// Reacts to a key; returns whether a force kill is asked for (`K`).
    ///
    /// `q`/`Q` quit; Tab and Shift-Tab cycle the tabs and `1`, `2`, `3`
    /// pick one; `j`/Down and `k`/Up scroll the log by one entry (and stop
    /// following it); `G`/End jump to the newest entry and follow; `g`/Home
    /// jump to the oldest; `f`/`F` toggle following.  `o`/`O` toggle
    /// following of the command output, and PgUp/PgDn scroll it by a page (and stop
    /// following it).
    #[verifier::rlimit(40)]
    pub fn on_key(&mut self, key: Key) -> (kill: bool)
        requires
            old(self).wf(),
        ensures
            final(self).wf(),
            kill == (key == Key::Char('K')),
            *final(self) == after_key(*old(self), key),
    {
        let last = if self.log.len() > 0 { self.log.len() - 1 } else { 0 };
        let out_last = if self.output.len() > 0 { self.output.len() - 1 } else { 0 };
        match key {
            Key::Char('q') | Key::Char('Q') => {
                self.should_quit = true;
                false
            },
            Key::Char('K') => true,
            Key::Tab => {
                self.current_tab = self.current_tab.next();
                false
            },
            Key::BackTab => {
                self.current_tab = self.current_tab.prev();
                false
            },
            Key::Char('1') => {
                self.current_tab = Tab::Events;
                false
            },
            Key::Char('2') => {
                self.current_tab = Tab::Perf;
                false
            },
            Key::Char('3') => {
                self.current_tab = Tab::Status;
                false
            },
            Key::Down | Key::Char('j') => {
                self.log_follow = false;
                if self.log_scroll < last {
                    self.log_scroll = self.log_scroll + 1;
                }
                false
            },
            Key::Up | Key::Char('k') => {
                self.log_follow = false;
                if self.log_scroll > 0 {
                    self.log_scroll = self.log_scroll - 1;
                }
                false
            },
            Key::End | Key::Char('G') => {
                self.log_follow = true;
                self.log_scroll = last;
                false
            },
            Key::Home | Key::Char('g') => {
                self.log_follow = false;
                self.log_scroll = 0;
                false
            },
            Key::Char('f') | Key::Char('F') => {
                self.log_follow = !self.log_follow;
                if self.log_follow {
                    self.log_scroll = last;
                }
                false
            },
            Key::Char('o') | Key::Char('O') => {
                self.output_follow = !self.output_follow;
                if self.output_follow {
                    self.output_scroll = out_last;
                }
                false
            },
            Key::PageUp => {
                self.output_follow = false;
                self.output_scroll = if self.output_scroll > OUTPUT_PAGE {
                    self.output_scroll - OUTPUT_PAGE
                } else {
                    0
                };
                false
            },
            Key::PageDown => {
                self.output_follow = false;
                self.output_scroll = if self.output_scroll < out_last && out_last - self.output_scroll > OUTPUT_PAGE {
                    self.output_scroll + OUTPUT_PAGE
                } else {
                    out_last
                };
                false
            },
            _ => false,
        }
    }

    /// The elapsed time as `HH:MM:SS`.
    pub fn elapsed_str(&self) -> (r: String)
        ensures
            r@ == two_digits((self.elapsed_secs / 3600) as nat) + ":"@ + two_digits(
                ((self.elapsed_secs % 3600) / 60) as nat,
            ) + ":"@ + two_digits((self.elapsed_secs % 60) as nat),
    {
        let h = self.elapsed_secs / 3600;
        let m = (self.elapsed_secs % 3600) / 60;
        let s = self.elapsed_secs % 60;
        let mut v = two_digits_exec(h);
        v.push(':');
        let mv = two_digits_exec(m);
        push_all(&mut v, &mv);
        v.push(':');
        let sv = two_digits_exec(s);
        push_all(&mut v, &sv);
        proof {
            assert(v@ =~= two_digits(h as nat) + ":"@ + two_digits(m as nat) + ":"@ + two_digits(
                s as nat,
            )) by {
                reveal_strlit(":");
            }
        }
        string_of(v.as_slice())
    }

    /// The largest memory sample of the history, at least 1.
    pub open spec fn ram_max(&self) -> u64 {
        let m = max_of(self.ram_history@);
        if m == 0 { 1 } else { m }
    }

    /// The latest memory figure as a percentage of the largest sample,
    /// capped at 100.
    pub fn ram_pct_u64(&self) -> (r: u64)
        requires
            match self.latest_perf {
                Some(p) => p.rss_kb <= u64::MAX / 100,
                None => true,
            },
        ensures
            r == min100((match self.latest_perf {
                Some(p) => p.rss_kb as int,
                None => 0,
            }) * 100 / (self.ram_max() as int)),
    {
        let rss = match &self.latest_perf {
            Some(p) => p.rss_kb,
            None => 0,
        };
        let max = history_max(&self.ram_history);
        let v = (rss * 100) / max;
        if v < 100 { v } else { 100 }
    }

    /// The memory sparkline: each sample as a percentage of the largest,
    /// capped at 100.
    pub fn ram_spark_data(&self) -> (r: Vec<u64>)
        requires
            forall|i: int| 0 <= i < self.ram_history@.len() ==> #[trigger] self.ram_history@[i] <= u64::MAX / 100,
        ensures
            r@.len() == self.ram_history@.len(),
            forall|i: int| 0 <= i < r@.len() ==> #[trigger] r@[i] == min100(
                self.ram_history@[i] as int * 100 / (self.ram_max() as int),
            ),
    {
        let max = history_max(&self.ram_history);
        let mut r: Vec<u64> = Vec::new();
        let mut i: usize = 0;
        while i < self.ram_history.len()
            invariant
                i <= self.ram_history@.len(),
                max == self.ram_max(),
                forall|k: int| 0 <= k < self.ram_history@.len() ==> #[trigger] self.ram_history@[k] <= u64::MAX / 100,
                r@.len() == i,
                forall|k: int| 0 <= k < i ==> #[trigger] r@[k] == min100(
                    self.ram_history@[k] as int * 100 / (self.ram_max() as int),
                ),
            decreases self.ram_history@.len() - i,
        {
            let v = self.ram_history[i];
            let p = (v * 100) / max;
            r.push(if p < 100 { p } else { 100 });
            i += 1;
        }
        r
    }

    /// The memory samples, oldest first.
    pub fn ram_spark_data_absolute(&self) -> (r: Vec<u64>)
        ensures
            r@ == self.ram_history@,
    {
        let mut r: Vec<u64> = Vec::new();
        let mut i: usize = 0;
        while i < self.ram_history.len()
            invariant
                i <= self.ram_history@.len(),
                r@ == self.ram_history@.take(i as int),
            decreases self.ram_history@.len() - i,
        {
            r.push(self.ram_history[i]);
            i += 1;
            assert(r@ =~= self.ram_history@.take(i as int));
        }
        assert(self.ram_history@.take(self.ram_history@.len() as int) =~= self.ram_history@);
        r
    }

    /// The log entries in view in a panel `height` rows tall, as the index
    /// of the first and the number shown: when following, the newest
    /// `height` entries; else up to `height` entries from the scroll position.
    pub fn log_window(&self, height: usize) -> (r: (usize, usize))
        ensures
            r.0 == if self.log_follow {
                if self.log@.len() >= height { self.log@.len() - height } else { 0 }
            } else {
                self.log_scroll as int
            },
            r.1 == if r.0 >= self.log@.len() {
                0
            } else if self.log@.len() - r.0 < height {
                self.log@.len() - r.0
            } else {
                height as int
            },
    {
        let len = self.log.len();
        let skip = if self.log_follow {
            len.saturating_sub(height)
        } else {
            self.log_scroll
        };
        let rest = len.saturating_sub(skip);
        (skip, if rest < height { rest } else { height })
    }

    /// The output lines in view in a panel `height` rows tall, as the index
    /// of the first and the number shown: when following, the newest
    /// `height` lines; else up to `height` lines from the scroll position.
    pub fn output_window(&self, height: usize) -> (r: (usize, usize))
        ensures
            r.0 == if self.output_follow {
                if self.output@.len() >= height { self.output@.len() - height } else { 0 }
            } else {
                self.output_scroll as int
            },
            r.1 == if r.0 >= self.output@.len() {
                0
            } else if self.output@.len() - r.0 < height {
                self.output@.len() - r.0
            } else {
                height as int
            },
    {
        let len = self.output.len();
        let skip = if self.output_follow {
            len.saturating_sub(height)
        } else {
            self.output_scroll
        };
        let rest = len.saturating_sub(skip);
        (skip, if rest < height { rest } else { height })
    }
}

pub open spec fn min100(v: int) -> int {
    if v < 100 { v } else { 100 }
}

/// The largest element of `s`, 0 when empty.
pub open spec fn max_of(s: Seq<u64>) -> u64
    decreases s.len(),
{
    if s.len() == 0 {
        0
    } else {
        let m = max_of(s.drop_last());
        if s.last() > m { s.last() } else { m }
    }
}

/// `max_of` is the largest sample: no sample exceeds it, and it is one of
/// the samples when there are any (0 when there are none).
pub proof fn law_max_of_is_largest(s: Seq<u64>)
    ensures
        forall|i: int| 0 <= i < s.len() ==> #[trigger] s[i] <= max_of(s),
        s.len() > 0 ==> s.contains(max_of(s)),
        s.len() == 0 ==> max_of(s) == 0,
    decreases s.len(),
{
    if s.len() > 0 {
        let t = s.drop_last();
        law_max_of_is_largest(t);
        assert forall|i: int| 0 <= i < s.len() implies #[trigger] s[i] <= max_of(s) by {
            if i < s.len() - 1 {
                assert(s[i] == t[i]);
            }
        }
        if max_of(s) == s.last() {
            assert(s[s.len() - 1] == max_of(s));
        } else {
            let j = choose|j: int| 0 <= j < t.len() && t[j] == max_of(t);
            assert(s[j] == t[j]);
        }
    }
}

/// The gauge and the sparkline measure each memory sample against the
/// largest one kept, or 1 when none is above 0: every sample is at most
/// `ram_max`, which is one of the samples unless it is the floor 1.
pub proof fn law_ram_max_is_largest_sample(app: App)
    ensures
        app.ram_max() >= 1,
        forall|i: int| 0 <= i < app.ram_history@.len() ==> #[trigger] app.ram_history@[i] <= app.ram_max(),
        app.ram_max() == 1 || app.ram_history@.contains(app.ram_max()),
{
    law_max_of_is_largest(app.ram_history@);
}

/// The largest sample of `h`, at least 1.
fn history_max(h: &VecDeque<u64>) -> (r: u64)
    ensures
        r == (if max_of(h@) == 0 { 1 } else { max_of(h@) }),
        r >= 1,
{
    let mut m: u64 = 0;
    let mut i: usize = 0;
    while i < h.len()
        invariant
            i <= h@.len(),
            m == max_of(h@.take(i as int)),
        decreases h@.len() - i,
    {
        proof {
            assert(h@.take(i + 1).drop_last() =~= h@.take(i as int));
        }
        if h[i] > m {
            m = h[i];
        }
        i += 1;
    }
    assert(h@.take(h@.len() as int) =~= h@);
    if m == 0 { 1 } else { m }
}

/// `{:02}`: at least two digits, zero-padded.
pub open spec fn two_digits(n: nat) -> Seq<char> {
    if n < 10 {
        seq!['0'] + dec_nat(n)
    } else {
        dec_nat(n)
    }
}

fn two_digits_exec(n: u64) -> (r: Vec<char>)
    ensures
        r@ == two_digits(n as nat),
{
    let d = u64_to_chars(n);
    if n < 10 {
        let mut v: Vec<char> = Vec::new();
        v.push('0');
        push_all(&mut v, &d);
        assert(v@ =~= seq!['0'] + dec_nat(n as nat));
        v
    } else {
        d
    }
}

} // verus!
