//! Saved optional modules (`saved.toml`): modules that can be added,
//! removed, enabled, disabled and listed, and the `${VAR}` expansion of the
//! paths they name.  Reading and writing the file is the caller's work.

use vstd::prelude::*;
use crate::host::{EnvVar, lookup};
use crate::text::{occurs_at, chars_of, find_from, first_occ_from, push_all, push_str, slice_chars, string_of, u64_to_chars, dec_nat};

verus! {

// ── `${VAR}` expansion ──────────────────────────────────────────────────────

/// One expansion step: the first `${` that has a `}` after it, with the
/// text between them as the variable name, is replaced by the variable's
/// value (empty when it is unset).  `None` when there is nothing to expand.
pub open spec fn expand_step(s: Seq<char>, env: Seq<EnvVar>) -> Option<Seq<char>> {
    match first_occ_from(s, "${"@, 0) {
        None => None,
        Some(st) => match first_occ_from(s, "}"@, st + 2) {
            None => None,
            Some(end) => {
                let name = s.subrange(st + 2, end);
                let val = match lookup(env, name) {
                    Some(v) => v,
                    None => Seq::<char>::empty(),
                };
                Some(s.subrange(0, st) + val + s.subrange(end + 1, s.len() as int))
            },
        },
    }
}

/// `s` after one step, or `s` itself when there is nothing to expand.
pub open spec fn next_expansion(s: Seq<char>, env: Seq<EnvVar>) -> Seq<char> {
    match expand_step(s, env) {
        Some(t) => t,
        None => s,
    }
}

/// `s` after `n` steps.
pub open spec fn expand_n(s: Seq<char>, env: Seq<EnvVar>, n: nat) -> Seq<char>
    decreases n,
{
    if n == 0 {
        s
    } else {
        expand_n(next_expansion(s, env), env, (n - 1) as nat)
    }
}

/// Whether the expansion of `s` comes to an end.
pub open spec fn expansion_finishes(s: Seq<char>, env: Seq<EnvVar>) -> bool {
    exists|n: nat| expand_step(expand_n(s, env, n), env) is None
}

/// The expansion of `s`: the end of its expansion steps.
pub open spec fn expanded(s: Seq<char>, env: Seq<EnvVar>) -> Seq<char> {
    expand_n(s, env, choose|n: nat| expand_step(expand_n(s, env, n), env) is None)
}

proof fn lemma_expand_succ(s: Seq<char>, env: Seq<EnvVar>, k: nat)
    ensures
        expand_n(s, env, k + 1) == next_expansion(expand_n(s, env, k), env),
    decreases k,
{
    let t = next_expansion(s, env);
    assert(expand_n(s, env, k + 1) == expand_n(t, env, k));
    if k > 0 {
        lemma_expand_succ(t, env, (k - 1) as nat);
        assert(expand_n(s, env, k) == expand_n(t, env, (k - 1) as nat));
    } else {
        assert(expand_n(t, env, 0) == t);
    }
}

proof fn lemma_expand_fixed(s: Seq<char>, env: Seq<EnvVar>, n: nat, m: nat)
    requires
        expand_step(expand_n(s, env, n), env) is None,
        n <= m,
    ensures
        expand_n(s, env, m) == expand_n(s, env, n),
    decreases m - n,
{
    if m > n {
        lemma_expand_fixed(s, env, n, (m - 1) as nat);
        lemma_expand_succ(s, env, (m - 1) as nat);
    }
}

/// Any two ends of the expansion are the same string.
pub proof fn lemma_expansion_end_unique(s: Seq<char>, env: Seq<EnvVar>, a: nat, b: nat)
    requires
        expand_step(expand_n(s, env, a), env) is None,
        expand_step(expand_n(s, env, b), env) is None,
    ensures
        expand_n(s, env, a) == expand_n(s, env, b),
{
    if a <= b {
        lemma_expand_fixed(s, env, a, b);
    } else {
        lemma_expand_fixed(s, env, b, a);
    }
}

fn lookup_or_empty(env: &Vec<EnvVar>, name: &Vec<char>) -> (r: Vec<char>)
    ensures
        r@ == match lookup(env@, name@) {
            Some(v) => v,
            None => Seq::<char>::empty(),
        },
{
    let mut i: usize = 0;
    assert(env@.skip(0) =~= env@);
    while i < env.len()
        invariant
            i <= env.len(),
            lookup(env@, name@) == lookup(env@.skip(i as int), name@),
        decreases env.len() - i,
    {
        proof {
            assert(env@.skip(i as int).drop_first() =~= env@.skip(i + 1));
            assert(env@.skip(i as int)[0] == env@[i as int]);
        }
        let n = chars_of(env[i].name.as_str());
        if crate::text::chars_eq(&n, name) {
            return chars_of(env[i].value.as_str());
        }
        i += 1;
    }
    Vec::new()
}

/// One expansion step of `cur`, as `expand_step` describes it.
fn expand_once(cur: &Vec<char>, env: &Vec<EnvVar>) -> (r: Option<Vec<char>>)
    ensures
        match r {
            Some(v) => expand_step(cur@, env@) == Some(v@),
            None => expand_step(cur@, env@) is None,
        },
{
    let open_pat = chars_of("${");
    let close_pat = chars_of("}");
    proof {
        reveal_strlit("${");
        reveal_strlit("}");
    }
    let st = match find_from(cur, &open_pat, 0) {
        Some(st) => st,
        None => return None,
    };
    proof {
        crate::text::lemma_first_occ_from(cur@, open_pat@, 0);
        assert(occurs_at(cur@, open_pat@, st as int));
        assert(st + 2 <= cur.len());
    }
    let end = match find_from(cur, &close_pat, st + 2) {
        Some(end) => end,
        None => return None,
    };
    proof {
        crate::text::lemma_first_occ_from(cur@, close_pat@, st + 2);
        assert(occurs_at(cur@, close_pat@, end as int));
        assert(end + 1 <= cur.len());
    }
    let name = slice_chars(cur, st + 2, end);
    let val = lookup_or_empty(env, &name);
    let mut next = slice_chars(cur, 0, st);
    push_all(&mut next, &val);
    let tail = slice_chars(cur, end + 1, cur.len());
    push_all(&mut next, &tail);
    Some(next)
}

/// Resolves `${VAR}` placeholders in `path` with the variables of `env`,
/// repeatedly replacing the first placeholder until none is left (an
/// unclosed `${` stays as it is).  Unknown variables expand to the empty
/// string.
pub fn resolve_vars(path: &str, env: &Vec<EnvVar>) -> (r: String)
    requires
        expansion_finishes(path@, env@),
    ensures
        r@ == expanded(path@, env@),
        expand_step(r@, env@) is None,
{
    let ghost n: nat = choose|n: nat| expand_step(expand_n(path@, env@, n), env@) is None;
    let mut cur = chars_of(path);
    let ghost mut k: nat = 0;
    loop
        invariant
            cur@ == expand_n(path@, env@, k),
            k <= n,
            expand_step(expand_n(path@, env@, n), env@) is None,
        ensures
            cur@ == expand_n(path@, env@, k),
            expand_step(cur@, env@) is None,
        decreases n - k,
    {
        let next = match expand_once(&cur, env) {
            Some(next) => next,
            None => break,
        };
        proof {
            lemma_expand_succ(path@, env@, k);
            if k >= n {
                lemma_expand_fixed(path@, env@, n, k);
            }
            k = k + 1;
        }
        cur = next;
    }
    proof {
        let m = choose|m: nat| expand_step(expand_n(path@, env@, m), env@) is None;
        assert(expand_step(cur@, env@) is None);
        lemma_expansion_end_unique(path@, env@, k, m);
    }
    string_of(cur.as_slice())
}

/// The name of the variable the next expansion step of `s` replaces, if
/// any.
pub open spec fn step_name(s: Seq<char>) -> Option<Seq<char>> {
    match first_occ_from(s, "${"@, 0) {
        None => None,
        Some(st) => match first_occ_from(s, "}"@, st + 2) {
            None => None,
            Some(end) => Some(s.subrange(st + 2, end)),
        },
    }
}

/// No step of the expansion of `s` under `env` replaces `${v}`.
pub open spec fn never_names(s: Seq<char>, env: Seq<EnvVar>, v: Seq<char>) -> bool {
    forall|k: nat| #[trigger] step_name(expand_n(s, env, k)) != Some(v)
}

/// The two environments give every variable but `v` the same value.
pub open spec fn agree_except(e1: Seq<EnvVar>, e2: Seq<EnvVar>, v: Seq<char>) -> bool {
    forall|name: Seq<char>| name != v ==> #[trigger] lookup(e1, name) == lookup(e2, name)
}

proof fn lemma_same_steps(s: Seq<char>, e1: Seq<EnvVar>, e2: Seq<EnvVar>, v: Seq<char>, k: nat)
    requires
        agree_except(e1, e2, v),
        never_names(s, e1, v),
    ensures
        expand_n(s, e1, k) == expand_n(s, e2, k),
    decreases k,
{
    if k > 0 {
        let j = (k - 1) as nat;
        lemma_same_steps(s, e1, e2, v, j);
        lemma_expand_succ(s, e1, j);
        lemma_expand_succ(s, e2, j);
        let t = expand_n(s, e1, j);
        assert(step_name(t) != Some(v));
        match first_occ_from(t, "${"@, 0) {
            None => {},
            Some(st) => match first_occ_from(t, "}"@, st + 2) {
                None => {},
                Some(end) => {
                    assert(lookup(e1, t.subrange(st + 2, end)) == lookup(e2, t.subrange(st + 2, end)));
                },
            },
        }
        assert(next_expansion(t, e1) == next_expansion(t, e2));
    }
}

/// A variable that no step of an expansion replaces does not change what
/// the expansion gives: under an environment that differs only in it, the
/// expansion ends too, with the same string.
pub proof fn lemma_expansion_ignores(s: Seq<char>, e1: Seq<EnvVar>, e2: Seq<EnvVar>, v: Seq<char>)
    requires
        agree_except(e1, e2, v),
        never_names(s, e1, v),
        expansion_finishes(s, e1),
    ensures
        expansion_finishes(s, e2),
        expanded(s, e1) == expanded(s, e2),
{
    let n1 = choose|n: nat| expand_step(expand_n(s, e1, n), e1) is None;
    lemma_same_steps(s, e1, e2, v, n1);
    let t = expand_n(s, e1, n1);
    assert(step_name(t) != Some(v));
    match first_occ_from(t, "${"@, 0) {
        None => {},
        Some(st) => match first_occ_from(t, "}"@, st + 2) {
            None => {},
            Some(end) => {
                assert(lookup(e1, t.subrange(st + 2, end)) == lookup(e2, t.subrange(st + 2, end)));
            },
        },
    }
    assert(expand_step(expand_n(s, e2, n1), e2) is None);
    let n2 = choose|n: nat| expand_step(expand_n(s, e2, n), e2) is None;
    lemma_same_steps(s, e1, e2, v, n2);
    lemma_expansion_end_unique(s, e1, n1, n2);
}

/// Whether one of the first `fuel + 1` forms of `s` has nothing left to
/// replace.
pub open spec fn ends_within(s: Seq<char>, env: Seq<EnvVar>, fuel: nat) -> bool {
    exists|n: nat| n <= fuel && #[trigger] expand_step(expand_n(s, env, n), env) is None
}

/// An expansion that ends within some bound ends.
pub proof fn lemma_ends_within_finishes(s: Seq<char>, env: Seq<EnvVar>, fuel: nat)
    requires
        ends_within(s, env, fuel),
    ensures
        expansion_finishes(s, env),
{
    let n = choose|n: nat| n <= fuel && #[trigger] expand_step(expand_n(s, env, n), env) is None;
    assert(expand_step(expand_n(s, env, n), env) is None);
}

/// `a + b` steps are `a` steps, then `b` more.
proof fn lemma_expand_add(s: Seq<char>, env: Seq<EnvVar>, a: nat, b: nat)
    ensures
        expand_n(s, env, a + b) == expand_n(expand_n(s, env, a), env, b),
    decreases a,
{
    if a > 0 {
        lemma_expand_add(next_expansion(s, env), env, (a - 1) as nat, b);
        assert(expand_n(s, env, a + b) == expand_n(next_expansion(s, env), env, (a - 1 + b) as nat));
    }
}

proof fn lemma_cycle_step(s: Seq<char>, env: Seq<EnvVar>, i: nat, n: nat)
    requires
        i > 0,
        expand_n(s, env, i) == expand_n(s, env, 2 * i),
        forall|m: nat| m < 2 * i ==> #[trigger] expand_step(expand_n(s, env, m), env) is Some,
    ensures
        expand_step(expand_n(s, env, n), env) is Some,
    decreases n,
{
    if n >= 2 * i {
        let q = (n - 2 * i) as nat;
        lemma_expand_add(s, env, 2 * i, q);
        lemma_expand_add(s, env, i, q);
        assert(expand_n(s, env, n) == expand_n(s, env, i + q));
        lemma_cycle_step(s, env, i, i + q);
    }
}

/// An expansion that comes back to a string it already reached never
/// ends: it goes round the same steps again.
pub proof fn lemma_cycle_endless(s: Seq<char>, env: Seq<EnvVar>, i: nat)
    requires
        i > 0,
        expand_n(s, env, i) == expand_n(s, env, 2 * i),
        forall|m: nat| m < 2 * i ==> #[trigger] expand_step(expand_n(s, env, m), env) is Some,
    ensures
        !expansion_finishes(s, env),
{
    assert forall|n: nat| #[trigger] expand_step(expand_n(s, env, n), env) is Some by {
        lemma_cycle_step(s, env, i, n);
    }
}

/// How following the expansion of a path came out.
#[derive(Clone, Copy, PartialEq, Eq, Structural, Debug)]
pub enum ExpansionEnd {
    /// It came to an end.
    Ends,
    /// It came back to a string it had already reached: it never ends.
    Cycles,
    /// It went on for as many steps as a `usize` counts without ending or
    /// repeating itself.
    GivenUp,
}

/// Follows the expansion of `path` until it ends or comes back to a string
/// it already reached (then it never ends); a run longer than a `usize`
/// counts is given up.
pub fn expansion_outcome(path: &str, env: &Vec<EnvVar>) -> (r: ExpansionEnd)
    ensures
        r == ExpansionEnd::Ends ==> expansion_finishes(path@, env@),
        r == ExpansionEnd::Cycles ==> !expansion_finishes(path@, env@),
        r == ExpansionEnd::GivenUp ==> !ends_within(path@, env@, usize::MAX as nat),
{
    let mut slow = chars_of(path);
    let mut fast = chars_of(path);
    let mut i: usize = 0;
    loop
        invariant
            slow@ == expand_n(path@, env@, i as nat),
            fast@ == expand_n(path@, env@, 2 * (i as nat)),
            forall|m: nat| m < 2 * (i as nat) ==> #[trigger] expand_step(expand_n(path@, env@, m), env@) is Some,
        decreases usize::MAX - i,
    {
        let ghost k: nat = 2 * (i as nat);
        if i == usize::MAX {
            proof {
                assert forall|n: nat| !(n <= usize::MAX as nat && #[trigger] expand_step(expand_n(path@, env@, n), env@)
                    is None) by {
                    if n <= usize::MAX as nat {
                        assert(n < k);
                    }
                }
            }
            return ExpansionEnd::GivenUp;
        }
        let f1 = match expand_once(&fast, env) {
            Some(f) => f,
            None => {
                proof {
                    assert(expand_step(expand_n(path@, env@, k), env@) is None);
                }
                return ExpansionEnd::Ends;
            },
        };
        proof {
            lemma_expand_succ(path@, env@, k);
        }
        let f2 = match expand_once(&f1, env) {
            Some(f) => f,
            None => {
                proof {
                    assert(expand_step(expand_n(path@, env@, k + 1), env@) is None);
                }
                return ExpansionEnd::Ends;
            },
        };
        proof {
            lemma_expand_succ(path@, env@, k + 1);
        }
        let s1 = match expand_once(&slow, env) {
            Some(x) => x,
            None => {
                proof {
                    assert(expand_step(expand_n(path@, env@, i as nat), env@) is None);
                }
                return ExpansionEnd::Ends;
            },
        };
        proof {
            lemma_expand_succ(path@, env@, i as nat);
            assert forall|m: nat| m < k + 2 implies #[trigger] expand_step(expand_n(path@, env@, m), env@) is Some by {
                if m == k + 1 {
                } else if m == k {
                } else {
                    assert(m < k);
                }
            }
        }
        i = i + 1;
        if crate::text::chars_eq(&s1, &f2) {
            proof {
                lemma_cycle_endless(path@, env@, i as nat);
            }
            return ExpansionEnd::Cycles;
        }
        slow = s1;
        fast = f2;
    }
}


// ── Saved modules ───────────────────────────────────────────────────────────

/// One `{ src, dst, mode }` mount of a module.
pub struct ModuleMount {
    /// Host path (`${VAR}` is expanded).
    pub src: String,
    /// Path inside the sandbox (`${VAR}` is expanded).
    pub dst: String,
    /// "ro", "rw" or "dev".
    pub mode: String,
}

/// The mode a mount gets when the file does not name one.
pub fn default_mount_mode() -> (r: String)
    ensures
        r@ == "ro"@,
{
    String::from_str("ro")
}

/// One `[[modules]]` entry.
pub struct OptionalModule {
    pub name: String,
    /// Single-path shorthand, bound read-write.
    pub path: Option<String>,
    pub mounts: Vec<ModuleMount>,
    /// Host environment variables forwarded into the sandbox.
    pub env: Vec<String>,
    /// 1 = always load, 0 = only when `--optional <name>` is passed.
    pub state: i32,
}

/// The contents of `saved.toml`.
pub struct OptionalModulesConfig {
    pub modules: Vec<OptionalModule>,
}

/// Why a change to the saved modules was refused.
pub enum ModuleError {
    /// No module has this name.
    NotFound(String),
    /// A module with this name exists already.
    AlreadyExists(String),
}

pub open spec fn module_error_message(e: ModuleError) -> Seq<char> {
    match e {
        ModuleError::NotFound(n) => "Module '"@ + n@
            + "' not found. Use 'lion saved status' to list modules."@,
        ModuleError::AlreadyExists(n) => "Module '"@ + n@
            + "' already exists. Use 'lion saved status' to list modules."@,
    }
}

impl ModuleError {
    pub fn message(&self) -> (r: String)
        ensures
            r@ == module_error_message(*self),
    {
        let mut v = chars_of("Module '");
        match self {
            ModuleError::NotFound(n) => {
                push_str(&mut v, n.as_str());
                push_str(&mut v, "' not found. Use 'lion saved status' to list modules.");
            },
            ModuleError::AlreadyExists(n) => {
                push_str(&mut v, n.as_str());
                push_str(&mut v, "' already exists. Use 'lion saved status' to list modules.");
            },
        }
        string_of(v.as_slice())
    }
}

/// What a request to set a module's state did.
pub enum StateChange {
    /// The module was in that state already; nothing changed.
    AlreadySet,
    /// The module's state was changed.
    Changed,
}

/// Whether some module of `mods` has the name `name`.
pub open spec fn has_module(mods: Seq<OptionalModule>, name: Seq<char>) -> bool {
    exists|i: int| 0 <= i < mods.len() && (#[trigger] mods[i]).name@ == name
}

/// The index of the first module named `name`.
pub open spec fn module_index(mods: Seq<OptionalModule>, name: Seq<char>, i: int) -> bool {
    0 <= i < mods.len() && mods[i].name@ == name && forall|j: int|
        0 <= j < i ==> (#[trigger] mods[j]).name@ != name
}

/// `mods` without the modules named `name`.
pub open spec fn without_module(mods: Seq<OptionalModule>, name: Seq<char>) -> Seq<OptionalModule>
    decreases mods.len(),
{
    if mods.len() == 0 {
        seq![]
    } else {
        let r = without_module(mods.drop_last(), name);
        if mods.last().name@ == name {
            r
        } else {
            r.push(mods.last())
        }
    }
}

/// `mods` with the state of the module at `i` set to `state`.
pub open spec fn with_state(mods: Seq<OptionalModule>, i: int, state: i32) -> Seq<OptionalModule> {
    mods.update(i, OptionalModule { state: state, ..mods[i] })
}

fn find_module(mods: &Vec<OptionalModule>, name: &str) -> (r: Option<usize>)
    ensures
        match r {
            Some(i) => module_index(mods@, name@, i as int),
            None => !has_module(mods@, name@),
        },
{
    let mut i: usize = 0;
    while i < mods.len()
        invariant
            i <= mods.len(),
            forall|j: int| 0 <= j < i ==> (#[trigger] mods@[j]).name@ != name@,
        decreases mods.len() - i,
    {
        if crate::text::str_eq(mods[i].name.as_str(), name) {
            return Some(i);
        }
        i += 1;
    }
    None
}

/// Sets the state of the first module named `name` (the `set_state` helper
/// shared by enable and disable).
pub fn set_state(config: &mut OptionalModulesConfig, name: &str, new_state: i32) -> (r: Result<
    StateChange,
    ModuleError,
>)
    ensures
        match r {
            Err(ModuleError::NotFound(n)) => n@ == name@ && !has_module(old(config).modules@, name@)
                && *final(config) == *old(config),
            Err(ModuleError::AlreadyExists(_)) => false,
            Ok(StateChange::AlreadySet) => exists|i: int|
                module_index(old(config).modules@, name@, i) && old(config).modules@[i].state
                    == new_state && *final(config) == *old(config),
            Ok(StateChange::Changed) => exists|i: int|
                module_index(old(config).modules@, name@, i) && old(config).modules@[i].state
                    != new_state && final(config).modules@ == with_state(
                    old(config).modules@,
                    i,
                    new_state,
                ),
        },
{
    match find_module(&config.modules, name) {
        None => Err(ModuleError::NotFound(String::from_str(name))),
        Some(i) => {
            if config.modules[i].state == new_state {
                Ok(StateChange::AlreadySet)
            } else {
                let ghost old_mods = config.modules@;
                let mut m = config.modules.remove(i);
                m.state = new_state;
                config.modules.insert(i, m);
                proof {
                    assert(config.modules@ =~= with_state(old_mods, i as int, new_state));
                }
                Ok(StateChange::Changed)
            }
        },
    }
}

/// `lion saved enable <name>`: sets the module's state to 1.
pub fn enable(config: &mut OptionalModulesConfig, name: &str) -> (r: Result<StateChange, ModuleError>)
    ensures
        match r {
            Err(ModuleError::NotFound(n)) => n@ == name@ && !has_module(old(config).modules@, name@)
                && *final(config) == *old(config),
            Err(ModuleError::AlreadyExists(_)) => false,
            Ok(StateChange::AlreadySet) => exists|i: int|
                module_index(old(config).modules@, name@, i) && old(config).modules@[i].state == 1
                    && *final(config) == *old(config),
            Ok(StateChange::Changed) => exists|i: int|
                module_index(old(config).modules@, name@, i) && old(config).modules@[i].state != 1
                    && final(config).modules@ == with_state(old(config).modules@, i, 1),
        },
{
    set_state(config, name, 1)
}

/// `lion saved disable <name>`: sets the module's state to 0.
pub fn disable(config: &mut OptionalModulesConfig, name: &str) -> (r: Result<StateChange, ModuleError>)
    ensures
        match r {
            Err(ModuleError::NotFound(n)) => n@ == name@ && !has_module(old(config).modules@, name@)
                && *final(config) == *old(config),
            Err(ModuleError::AlreadyExists(_)) => false,
            Ok(StateChange::AlreadySet) => exists|i: int|
                module_index(old(config).modules@, name@, i) && old(config).modules@[i].state == 0
                    && *final(config) == *old(config),
            Ok(StateChange::Changed) => exists|i: int|
                module_index(old(config).modules@, name@, i) && old(config).modules@[i].state != 0
                    && final(config).modules@ == with_state(old(config).modules@, i, 0),
        },
{
    set_state(config, name, 0)
}

/// `lion saved add`: appends a single-path module, unless a module with that
/// name exists.
pub fn add(config: &mut OptionalModulesConfig, name: String, path: String, state: i32) -> (r: Result<
    (),
    ModuleError,
>)
    ensures
        match r {
            Err(ModuleError::AlreadyExists(n)) => n@ == name@ && has_module(
                old(config).modules@,
                name@,
            ) && *final(config) == *old(config),
            Err(ModuleError::NotFound(_)) => false,
            Ok(()) => !has_module(old(config).modules@, name@) && final(config).modules@.len()
                == old(config).modules@.len() + 1 && final(config).modules@.drop_last()
                == old(config).modules@ && final(config).modules@.last().name == name
                && final(config).modules@.last().path == Some(path)
                && final(config).modules@.last().mounts@.len() == 0
                && final(config).modules@.last().env@.len() == 0
                && final(config).modules@.last().state == state,
        },
{
    match find_module(&config.modules, name.as_str()) {
        Some(_) => Err(ModuleError::AlreadyExists(name)),
        None => {
            let ghost old_mods = config.modules@;
            config.modules.push(
                OptionalModule { name, path: Some(path), mounts: Vec::new(), env: Vec::new(), state },
            );
            proof {
                assert(config.modules@.drop_last() =~= old_mods);
            }
            Ok(())
        },
    }
}

/// `lion saved remove <name>`: removes every module with that name, or
/// refuses when there is none.
pub fn remove(config: &mut OptionalModulesConfig, name: &str) -> (r: Result<(), ModuleError>)
    ensures
        match r {
            Err(ModuleError::NotFound(n)) => n@ == name@ && !has_module(old(config).modules@, name@)
                && *final(config) == *old(config),
            Err(ModuleError::AlreadyExists(_)) => false,
            Ok(()) => has_module(old(config).modules@, name@) && final(config).modules@
                == without_module(old(config).modules@, name@),
        },
{
    if find_module(&config.modules, name).is_none() {
        return Err(ModuleError::NotFound(String::from_str(name)));
    }
    let ghost old_mods = config.modules@;
    let mut rest: Vec<OptionalModule> = Vec::new();
    std::mem::swap(&mut rest, &mut config.modules);
    let n = rest.len();
    let mut kept: Vec<OptionalModule> = Vec::new();
    let mut i: usize = 0;
    while i < n
        invariant
            i <= n == old_mods.len(),
            rest@ == old_mods.skip(i as int),
            kept@ == without_module(old_mods.take(i as int), name@),
        decreases n - i,
    {
        let m = rest.remove(0);
        proof {
            assert(rest@ =~= old_mods.skip(i + 1));
            assert(old_mods.take(i + 1).drop_last() =~= old_mods.take(i as int));
        }
        if !crate::text::str_eq(m.name.as_str(), name) {
            kept.push(m);
        }
        i += 1;
    }
    proof {
        assert(old_mods.take(n as int) =~= old_mods);
    }
    config.modules = kept;
    Ok(())
}


// ── Laws ────────────────────────────────────────────────────────────────────

proof fn lemma_without_absent(mods: Seq<OptionalModule>, name: Seq<char>)
    requires
        !has_module(mods, name),
    ensures
        without_module(mods, name) == mods,
    decreases mods.len(),
{
    if mods.len() > 0 {
        let t = mods.drop_last();
        assert(!has_module(t, name)) by {
            if has_module(t, name) {
                let i = choose|i: int| 0 <= i < t.len() && (#[trigger] t[i]).name@ == name;
                assert(mods[i] == t[i]);
            }
        }
        lemma_without_absent(t, name);
        assert(mods.last() == mods[mods.len() - 1]);
        assert(t.push(mods.last()) =~= mods);
    }
}

/// Removing a module that was just added gives back the modules as they
/// were before the addition.
pub proof fn law_remove_undoes_add(mods: Seq<OptionalModule>, added: OptionalModule)
    requires
        !has_module(mods, added.name@),
    ensures
        without_module(mods.push(added), added.name@) == mods,
{
    let s = mods.push(added);
    assert(s.drop_last() =~= mods);
    lemma_without_absent(mods, added.name@);
}

/// After a removal no module with the removed name is left, and every other
/// module stays.
pub proof fn law_remove_removes_only_name(mods: Seq<OptionalModule>, name: Seq<char>)
    ensures
        !has_module(without_module(mods, name), name),
        forall|m: OptionalModule| mods.contains(m) && m.name@ != name ==> without_module(
            mods,
            name,
        ).contains(m),
    decreases mods.len(),
{
    if mods.len() > 0 {
        let t = mods.drop_last();
        law_remove_removes_only_name(t, name);
        let r = without_module(t, name);
        if mods.last().name@ != name {
            let n = r.push(mods.last());
            assert(!has_module(n, name)) by {
                if has_module(n, name) {
                    let i = choose|i: int| 0 <= i < n.len() && (#[trigger] n[i]).name@ == name;
                    if i < r.len() {
                        assert(n[i] == r[i]);
                    }
                }
            }
        }
        assert forall|m: OptionalModule| mods.contains(m) && m.name@ != name implies without_module(
            mods,
            name,
        ).contains(m) by {
            let k = choose|k: int| 0 <= k < mods.len() && mods[k] == m;
            if k < mods.len() - 1 {
                assert(t[k] == m);
                assert(t.contains(m));
                let j = choose|j: int| 0 <= j < r.len() && r[j] == m;
                if mods.last().name@ != name {
                    assert(r.push(mods.last())[j] == m);
                }
            } else {
                assert(r.push(mods.last())[r.len() as int] == m);
            }
        }
    }
}

/// Setting a module's state back to what it was undoes the change:
/// disabling a module that was just enabled restores the modules.
pub proof fn law_state_change_undone(mods: Seq<OptionalModule>, i: int, state: i32)
    requires
        0 <= i < mods.len(),
    ensures
        with_state(with_state(mods, i, state), i, mods[i].state) == mods,
{
    assert(with_state(with_state(mods, i, state), i, mods[i].state) =~= mods);
}

/// Setting a module's state touches that module's state alone, and asking
/// for the same state again finds it already set.
pub proof fn law_set_state_targets_one_module(
    mods: Seq<OptionalModule>,
    name: Seq<char>,
    i: int,
    state: i32,
)
    requires
        module_index(mods, name, i),
    ensures
        module_index(with_state(mods, i, state), name, i),
        with_state(mods, i, state)[i].state == state,
        with_state(mods, i, state)[i].name == mods[i].name,
        with_state(mods, i, state)[i].path == mods[i].path,
        with_state(mods, i, state)[i].mounts == mods[i].mounts,
        with_state(mods, i, state)[i].env == mods[i].env,
        with_state(mods, i, state).len() == mods.len(),
        forall|j: int| 0 <= j < mods.len() && j != i ==> #[trigger] with_state(mods, i, state)[j]
            == mods[j],
{
}

// ── Listing ─────────────────────────────────────────────────────────────────

/// The number of modules whose state is 1.
pub open spec fn enabled_in(mods: Seq<OptionalModule>) -> nat
    decreases mods.len(),
{
    if mods.len() == 0 {
        0
    } else {
        enabled_in(mods.drop_last()) + if mods.last().state == 1 { 1nat } else { 0nat }
    }
}

/// How many saved modules are enabled.
pub fn enabled_count(config: &OptionalModulesConfig) -> (r: usize)
    ensures
        r == enabled_in(config.modules@),
{
    let mut c: usize = 0;
    let mut i: usize = 0;
    while i < config.modules.len()
        invariant
            i <= config.modules.len(),
            c == enabled_in(config.modules@.take(i as int)),
            c <= i,
        decreases config.modules.len() - i,
    {
        proof {
            assert(config.modules@.take(i + 1).drop_last() =~= config.modules@.take(i as int));
        }
        if config.modules[i].state == 1 {
            c += 1;
        }
        i += 1;
    }
    proof {
        assert(config.modules@.take(config.modules.len() as int) =~= config.modules@);
    }
    c
}

/// The "Path / Mounts" column of the module list.
pub open spec fn path_info_spec(m: OptionalModule) -> Seq<char> {
    match m.path {
        Some(p) => p@,
        None => if m.mounts@.len() > 0 {
            dec_nat(m.mounts@.len()) + " mount(s)"@
        } else {
            "no mounts"@
        },
    }
}

pub fn path_info(m: &OptionalModule) -> (r: String)
    ensures
        r@ == path_info_spec(*m),
{
    match &m.path {
        Some(p) => p.clone(),
        None => {
            if m.mounts.len() > 0 {
                let mut v = u64_to_chars(m.mounts.len() as u64);
                push_str(&mut v, " mount(s)");
                string_of(v.as_slice())
            } else {
                String::from_str("no mounts")
            }
        },
    }
}

/// One row of the module list: number, name, state and path column.
pub open spec fn status_row_spec(idx: nat, m: OptionalModule) -> Seq<char> {
    crate::text::pad_right(dec_nat(idx + 1), 4) + " "@ + crate::text::pad_right(m.name@, 20) + " "@
        + if m.state == 1 {
        "\x1b[1;32m\u{2713} enabled\x1b[0m"@ + "  "@
    } else {
        "\x1b[1;31m\u{2717} disabled\x1b[0m"@ + " "@
    } + " "@ + path_info_spec(m)
}

/// The row for module number `idx` (from 0) of the module list.
pub fn status_row(idx: usize, m: &OptionalModule) -> (r: String)
    requires
        idx < usize::MAX,
    ensures
        r@ == status_row_spec(idx as nat, *m),
{
    let num = u64_to_chars((idx + 1) as u64);
    let mut v = crate::text::pad_right_chars(&num, 4);
    push_str(&mut v, " ");
    let name = chars_of(m.name.as_str());
    let padded = crate::text::pad_right_chars(&name, 20);
    push_all(&mut v, &padded);
    push_str(&mut v, " ");
    if m.state == 1 {
        push_str(&mut v, "\x1b[1;32m\u{2713} enabled\x1b[0m");
        push_str(&mut v, "  ");
    } else {
        push_str(&mut v, "\x1b[1;31m\u{2717} disabled\x1b[0m");
        push_str(&mut v, " ");
    }
    push_str(&mut v, " ");
    let info = path_info(m);
    push_str(&mut v, info.as_str());
    proof {
        assert(v@ =~= status_row_spec(idx as nat, *m));
    }
    string_of(v.as_slice())
}


/// Which `saved.toml` holds the saved modules.
#[derive(Clone, Copy, PartialEq, Eq, Structural, Debug)]
pub enum SavedSource {
    /// The project's own `saved.toml`.
    Project,
    /// `~/.lion/saved.toml`.
    Home,
    /// Neither exists: no modules are saved.
    Nothing,
}

/// The project's `saved.toml` when it exists, else the one in the home
/// directory when it exists, else none.
pub fn saved_source(project_file_exists: bool, home_file_exists: bool) -> (r: SavedSource)
    ensures
        r == if project_file_exists {
            SavedSource::Project
        } else if home_file_exists {
            SavedSource::Home
        } else {
            SavedSource::Nothing
        },
{
    if project_file_exists {
        SavedSource::Project
    } else if home_file_exists {
        SavedSource::Home
    } else {
        SavedSource::Nothing
    }
}


// ── The file ────────────────────────────────────────────────────────────────

/// Comment block written at the top of every saved.toml: serialisation
/// drops comments, so the header is written before the data each time.
pub const SAVED_TOML_HEADER: &'static str = "# ─────────────────────────────────────────────────────────────────────────────\n# L.I.O.N — saved.toml   (saved optional modules configuration)\n# ─────────────────────────────────────────────────────────────────────────────\n#\n# This file stores optional modules that can be dynamically enabled/disabled\n# for sandboxed processes. Each module defines additional mounts, environment\n# variables, and other resources to expose inside the sandbox.\n#\n# ── HOW IT WORKS ─────────────────────────────────────────────────────────────\n#\n# Modules can be activated in two complementary ways:\n#\n#   1. Permanent  — set  state = 1  in this file.\n#                  The module loads automatically on every  lion run.\n#\n#   2. One-shot   — pass  --optional <name>  on the command line.\n#                  The module loads only for that run, regardless of state here.\n#\n# Both methods are additive; they work together.\n#\n# ── MANAGING MODULES ──────────────────────────────────────────────────────────\n#\n#   lion saved status                    — list all modules + their state\n#   lion saved enable  <name>            — set state = 1 (auto-load every run)\n#   lion saved disable <name>            — set state = 0 (manual --optional only)\n#   lion saved add --name <n> --path <p> — add a simple directory module\n#   lion saved remove  <name>            — delete a module entry\n#\n# ── FIELDS ───────────────────────────────────────────────────────────────────\n#\n#   name    (required) — unique identifier used in CLI flags and log output\n#   state   (required) — 1 = always load, 0 = only when --optional is passed\n#   path    (optional) — simple single-path rw bind-mount shorthand\n#   mounts  (optional) — list of { src, dst, mode } mount specs:\n#                          src  — host path  (supports ${VAR} expansion)\n#                          dst  — path inside the sandbox\n#                          mode — \"ro\"  read-only bind\n#                                 \"rw\"  read-write bind\n#                                 \"dev\" character/block device bind\n#   env     (optional) — host env var names to forward into the sandbox\n#\n# ── ADDING YOUR OWN MODULE ────────────────────────────────────────────────────\n#\n# Simple directory mount (single path, read-write):\n#\n#   [[modules]]\n#   name  = \"my-data\"\n#   state = 0          # 0 = off by default; enable with: lion saved enable my-data\n#   path  = \"/path/to/host/directory\"\n#\n# Advanced module — multiple mounts, env forwarding, device nodes:\n#\n#   [[modules]]\n#   name  = \"my-module\"\n#   state = 0\n#   env   = [\"MY_VAR\", \"ANOTHER_VAR\"]\n#\n#   [[modules.mounts]]\n#   src  = \"${HOME}/.config/my-app\"    # ${VAR} expands from your environment\n#   dst  = \"${HOME}/.config/my-app\"\n#   mode = \"ro\"\n#\n#   [[modules.mounts]]\n#   src  = \"/dev/my-device\"\n#   dst  = \"/dev/my-device\"\n#   mode = \"dev\"\n#\n# ─────────────────────────────────────────────────────────────────────────────\n\n";

/// The text written to `saved.toml`: the header, then the serialised
/// modules.
pub fn saved_file_content(data: &str) -> (r: String)
    ensures
        r@ == SAVED_TOML_HEADER@ + data@,
{
    let mut v = chars_of(SAVED_TOML_HEADER);
    push_str(&mut v, data);
    string_of(v.as_slice())
}

} // verus!
