//! Configuration for a sandbox run, read from `lion.toml` files.
//!
//! Two files are merged: the global `~/.config/lion/lion.toml` and the
//! project's own `lion.toml`.  The project's `[sandbox]` section wins over the
//! global one as soon as the project file exists; the `[[mount]]` lists are
//! concatenated, global first, and an entry whose path occurs again later in
//! the list is dropped, so that the last entry for a path (the project's)
//! wins.  Reading and parsing the files is the caller's work; this module
//! receives what came of it as a [`Loaded`] value.

use vstd::prelude::*;
use crate::text::{ascii_lowercase, chars_of, chars_eq_str, is_ascii_chars, lemma_trim_plain, push_all, slice_chars, string_of, to_lowercase, trim_chars, spec_lowercase, trim, trim_end_by, trim_start_by, ws_pred, is_ws};

verus! {

/// What came of reading and parsing one configuration file.
pub enum Loaded<T> {
    /// The file does not exist.
    Missing,
    /// The file exists but could not be read or parsed.
    Invalid,
    /// The file was read and parsed.
    Parsed(T),
}

/// One `[[mount]]` entry.
pub struct MountEntry {
    /// Absolute or `~`-prefixed path on the host.
    pub path: String,
    /// "ro" for read-only, "rw" for read-write.
    pub access: String,
}

/// The `[sandbox]` section.
pub struct SandboxConfig {
    /// How the project directory itself is mounted: "ro" or "rw".
    pub project_access: String,
    /// How the project's `src/` subdirectory is mounted when the project is rw.
    pub src_access: String,
}

/// Top-level config loaded from a `lion.toml`.
pub struct LionConfig {
    pub sandbox: SandboxConfig,
    /// Extra mount entries declared as `[[mount]]` blocks.
    pub mount: Vec<MountEntry>,
}

/// The characters of a mount entry.
pub struct MountSpec {
    pub path: Seq<char>,
    pub access: Seq<char>,
}

impl MountEntry {
    pub open spec fn spec_view(&self) -> MountSpec {
        MountSpec { path: self.path@, access: self.access@ }
    }
}

pub open spec fn mount_views(s: Seq<MountEntry>) -> Seq<MountSpec> {
    s.map_values(|m: MountEntry| m.spec_view())
}

/// An access string trimmed and lowercased (`str::to_lowercase`, which on
/// ASCII text maps only `A` to `Z`).
pub open spec fn access_lowered(access: Seq<char>) -> Seq<char> {
    if is_ascii_chars(trim(access)) {
        ascii_lowercase(trim(access))
    } else {
        spec_lowercase(trim(access))
    }
}

/// Whether an access string, trimmed and lowercased, is exactly `ro`.
pub open spec fn access_is_ro(access: Seq<char>) -> bool {
    access_lowered(access) == "ro"@
}

/// `ro` and `RO`, with or without surrounding spaces, mean read-only;
/// `rw` does not.
pub proof fn lemma_ro_spellings()
    ensures
        access_is_ro("ro"@),
        access_is_ro("RO"@),
        access_is_ro(" Ro "@),
        !access_is_ro("rw"@),
{
    reveal_strlit("ro");
    reveal_strlit("RO");
    reveal_strlit(" Ro ");
    reveal_strlit("rw");
    lemma_trim_plain("ro"@);
    lemma_trim_plain("RO"@);
    lemma_trim_plain("rw"@);
    let spaced = " Ro "@;
    let inner = spaced.subrange(1, 3);
    assert(is_ws(spaced[0]) && is_ws(spaced[3]));
    assert(trim_start_by(spaced, ws_pred()) == trim_start_by(spaced.drop_first(), ws_pred()));
    assert(trim_start_by(spaced.drop_first(), ws_pred()) == spaced.drop_first());
    assert(spaced.drop_first().drop_last() =~= inner);
    assert(trim_end_by(spaced.drop_first(), ws_pred()) == trim_end_by(inner, ws_pred()));
    lemma_trim_plain(inner);
    assert(trim(spaced) == inner);
    assert(ascii_lowercase("ro"@) =~= "ro"@);
    assert(ascii_lowercase("RO"@) =~= "ro"@);
    assert(ascii_lowercase(inner) =~= "ro"@);
    assert(ascii_lowercase("rw"@) =~= "rw"@);
}

/// The default configuration keeps the project directory, and so its
/// `src/`, read-only.
pub proof fn law_default_is_read_only(s: SandboxConfig)
    requires
        is_default_sandbox(s),
    ensures
        access_is_ro(s.project_access@),
        access_is_ro(s.src_access@),
{
    lemma_ro_spellings();
}

/// `~` at the start of `path` replaced by the home directory, when one is
/// known.
pub open spec fn resolve_home(path: Seq<char>, home: Option<Seq<char>>) -> Seq<char> {
    if path.len() > 0 && path[0] == '~' && home is Some {
        home->0 + path.drop_first()
    } else {
        path
    }
}

pub open spec fn is_default_sandbox(s: SandboxConfig) -> bool {
    s.project_access@ == "ro"@ && s.src_access@ == "ro"@
}

fn default_ro() -> (r: String)
    ensures
        r@ == "ro"@,
{
    String::from_str("ro")
}

impl SandboxConfig {
    /// Both accesses "ro".
    pub fn default() -> (r: SandboxConfig)
        ensures
            is_default_sandbox(r),
    {
        SandboxConfig { project_access: default_ro(), src_access: default_ro() }
    }
}

impl LionConfig {
    /// Default sandbox section, no mounts.
    pub fn default() -> (r: LionConfig)
        ensures
            is_default_sandbox(r.sandbox),
            r.mount@.len() == 0,
    {
        LionConfig { sandbox: SandboxConfig::default(), mount: Vec::new() }
    }

    /// Whether the project directory should be read-only.
    pub fn project_is_readonly(&self) -> (r: bool)
        ensures
            r == access_is_ro(self.sandbox.project_access@),
    {
        is_ro_access(&self.sandbox.project_access)
    }

    /// Whether the project's `src/` subdirectory should be overlaid as
    /// read-only.  Only has effect when the project itself is mounted
    /// read-write.
    pub fn src_is_readonly(&self) -> (r: bool)
        ensures
            r == access_is_ro(self.sandbox.src_access@),
    {
        is_ro_access(&self.sandbox.src_access)
    }
}

/// `access.trim().to_lowercase() == "ro"`.
pub fn is_ro_access(access: &String) -> (r: bool)
    ensures
        r == access_is_ro(access@),
{
    let v = chars_of(access.as_str());
    let t = trim_chars(&v);
    let ts = string_of(t.as_slice());
    let lower = to_lowercase(ts.as_str());
    let lv = chars_of(lower.as_str());
    chars_eq_str(&lv, "ro")
}

impl MountEntry {
    /// The path with a leading `~` replaced by `home` (the value of `HOME`),
    /// when `home` is given.
    pub fn resolved_path(&self, home: Option<&str>) -> (r: String)
        ensures
            r@ == resolve_home(self.path@, match home { Some(h) => Some(h@), None => None }),
    {
        let p = chars_of(self.path.as_str());
        if p.len() > 0 && p[0] == '~' {
            match home {
                Some(h) => {
                    let mut out = chars_of(h);
                    let rest = slice_chars(&p, 1, p.len());
                    push_all(&mut out, &rest);
                    proof {
                        assert(rest@ =~= self.path@.drop_first());
                    }
                    return string_of(out.as_slice());
                },
                None => {},
            }
        }
        self.path.clone()
    }

    /// Whether this entry is mounted read-only.
    pub fn is_readonly(&self) -> (r: bool)
        ensures
            r == access_is_ro(self.access@),
    {
        is_ro_access(&self.access)
    }
}


// ── Merging ─────────────────────────────────────────────────────────────────

/// Whether an entry after `s[k]` has the same path.
pub open spec fn shadowed(s: Seq<MountSpec>, k: int) -> bool {
    exists|j: int| k < j < s.len() && #[trigger] s[j].path == s[k].path
}

/// The entries among `s[..i]` that no later entry of `s` shadows, in order.
pub open spec fn unshadowed_upto(s: Seq<MountSpec>, i: int) -> Seq<MountSpec>
    decreases i,
{
    if i <= 0 {
        seq![]
    } else {
        let r = unshadowed_upto(s, i - 1);
        if shadowed(s, i - 1) {
            r
        } else {
            r.push(s[i - 1])
        }
    }
}

/// `s` with every entry dropped whose path occurs again later: for each path,
/// the last entry with it is kept, in the order of `s`.
pub open spec fn last_wins(s: Seq<MountSpec>) -> Seq<MountSpec> {
    unshadowed_upto(s, s.len() as int)
}

/// The configuration a file stands for: what it held when it was parsed,
/// else the default.
pub open spec fn loaded_mounts(file: Loaded<LionConfig>) -> Seq<MountSpec> {
    match file {
        Loaded::Parsed(c) => mount_views(c.mount@),
        _ => seq![],
    }
}

pub open spec fn loaded_sandbox_is(file: Loaded<LionConfig>, s: SandboxConfig) -> bool {
    match file {
        Loaded::Parsed(c) => s == c.sandbox,
        _ => is_default_sandbox(s),
    }
}

/// The configuration of one file: the parsed one, or the default when the
/// file is missing or could not be parsed.
pub fn load(file: Loaded<LionConfig>) -> (r: LionConfig)
    ensures
        loaded_sandbox_is(file, r.sandbox),
        mount_views(r.mount@) == loaded_mounts(file),
{
    match file {
        Loaded::Parsed(c) => c,
        _ => {
            let r = LionConfig::default();
            assert(mount_views(r.mount@) =~= seq![]);
            r
        },
    }
}

/// Whether another entry after index `k` has the same path.
fn has_later_same_path(all: &Vec<MountEntry>, k: usize) -> (r: bool)
    requires
        k < all.len(),
    ensures
        r == shadowed(mount_views(all@), k as int),
{
    let ghost s = mount_views(all@);
    let mut j = k + 1;
    while j < all.len()
        invariant
            k < j <= all.len(),
            s == mount_views(all@),
            forall|q: int| k < q < j ==> s[q].path != s[k as int].path,
        decreases all.len() - j,
    {
        if all[j].path == all[k].path {
            proof {
                assert(s[j as int].path == s[k as int].path);
            }
            return true;
        }
        j += 1;
    }
    false
}

/// The mount list with every entry dropped whose path occurs again later.
pub fn dedup_mounts(all: Vec<MountEntry>) -> (r: Vec<MountEntry>)
    ensures
        mount_views(r@) == last_wins(mount_views(all@)),
{
    let ghost s = mount_views(all@);
    let n = all.len();
    let mut keep: Vec<bool> = Vec::new();
    let mut k: usize = 0;
    while k < n
        invariant
            k <= n == all.len(),
            keep.len() == k,
            s == mount_views(all@),
            forall|q: int| 0 <= q < k ==> keep@[q] == !shadowed(s, q),
        decreases n - k,
    {
        let sh = has_later_same_path(&all, k);
        keep.push(!sh);
        k += 1;
    }
    let mut rest = all;
    let mut out: Vec<MountEntry> = Vec::new();
    let mut i: usize = 0;
    while i < n
        invariant
            i <= n,
            keep.len() == n,
            s.len() == n,
            forall|q: int| 0 <= q < n ==> keep@[q] == !shadowed(s, q),
            mount_views(rest@) == s.skip(i as int),
            mount_views(out@) == unshadowed_upto(s, i as int),
        decreases n - i,
    {
        let ghost before = rest@;
        proof {
            assert(mount_views(before).len() == before.len());
        }
        let m = rest.remove(0);
        proof {
            assert(rest@ =~= before.skip(1));
            assert forall|q: int| 0 <= q < rest@.len() implies #[trigger] mount_views(rest@)[q]
                == s.skip(i + 1)[q] by {
                assert(mount_views(rest@)[q] == rest@[q].spec_view());
                assert(rest@[q] == before[q + 1]);
                assert(mount_views(before)[q + 1] == s.skip(i as int)[q + 1]);
            }
            assert(mount_views(rest@) =~= s.skip(i + 1));
            assert(m.spec_view() == s[i as int]) by {
                assert(mount_views(before)[0] == s.skip(i as int)[0]);
            }
        }
        let ghost prev = out@;
        if keep[i] {
            out.push(m);
            proof {
                assert(mount_views(out@) =~= mount_views(prev).push(s[i as int]));
            }
        }
        i += 1;
    }
    out
}

/// The merged configuration of the global and the project `lion.toml`.
///
/// - `[sandbox]` comes from the project file whenever it exists (its default
///   when it could not be parsed), otherwise from the global file, otherwise
///   the default.
/// - `[[mount]]` lists are concatenated, global first, and an entry is
///   dropped when a later one has the same path, so the last entry wins.
pub fn load_merged(global: Loaded<LionConfig>, project: Loaded<LionConfig>) -> (r: LionConfig)
    ensures
        if project is Missing {
            loaded_sandbox_is(global, r.sandbox)
        } else {
            loaded_sandbox_is(project, r.sandbox)
        },
        mount_views(r.mount@) == last_wins(loaded_mounts(global) + loaded_mounts(project)),
{
    let project_exists = match &project {
        Loaded::Missing => false,
        _ => true,
    };
    let g = load(global);
    let p = load(project);
    let sandbox = if project_exists { p.sandbox } else { g.sandbox };
    let mut all = g.mount;
    let mut pm = p.mount;
    let ghost gv = all@;
    let ghost pv = pm@;
    all.append(&mut pm);
    proof {
        assert(mount_views(all@) =~= mount_views(gv) + mount_views(pv));
    }
    let mount = dedup_mounts(all);
    LionConfig { sandbox, mount }
}


// ── Laws of merging ─────────────────────────────────────────────────────────

proof fn lemma_unshadowed_members(s: Seq<MountSpec>, i: int)
    requires
        0 <= i <= s.len(),
    ensures
        forall|a: int| 0 <= a < unshadowed_upto(s, i).len() ==> exists|k: int|
            0 <= k < i && !shadowed(s, k) && s[k] == #[trigger] unshadowed_upto(s, i)[a],
        forall|k: int| 0 <= k < i && !shadowed(s, k) ==> unshadowed_upto(s, i).contains(#[trigger] s[k]),
        forall|a: int, b: int| 0 <= a < b < unshadowed_upto(s, i).len() ==>
            (#[trigger] unshadowed_upto(s, i)[a]).path != (#[trigger] unshadowed_upto(s, i)[b]).path,
    decreases i,
{
    if i > 0 {
        lemma_unshadowed_members(s, i - 1);
        let r = unshadowed_upto(s, i - 1);
        if !shadowed(s, i - 1) {
            let n = r.push(s[i - 1]);
            assert(n == unshadowed_upto(s, i));
            assert forall|a: int| 0 <= a < n.len() implies exists|k: int|
                0 <= k < i && !shadowed(s, k) && s[k] == #[trigger] n[a] by {
                if a < r.len() {
                    assert(n[a] == r[a]);
                } else {
                    assert(n[a] == s[i - 1]);
                }
            }
            assert forall|k: int| 0 <= k < i && !shadowed(s, k) implies n.contains(#[trigger] s[k]) by {
                if k < i - 1 {
                    assert(r.contains(s[k]));
                    let a = choose|a: int| 0 <= a < r.len() && r[a] == s[k];
                    assert(n[a] == s[k]);
                } else {
                    assert(n[n.len() - 1] == s[k]);
                }
            }
            assert forall|a: int, b: int| 0 <= a < b < n.len() implies (#[trigger] n[a]).path
                != (#[trigger] n[b]).path by {
                if b < r.len() {
                    assert(n[a] == r[a] && n[b] == r[b]);
                } else {
                    assert(n[a] == r[a]);
                    let k = choose|k: int| 0 <= k < i - 1 && !shadowed(s, k) && s[k] == r[a];
                    if r[a].path == s[i - 1].path {
                        assert(s[i - 1].path == s[k].path);
                        assert(shadowed(s, k));
                    }
                }
            }
        }
    }
}

proof fn lemma_last_occurrence(s: Seq<MountSpec>, k: int) -> (j: int)
    requires
        0 <= k < s.len(),
    ensures
        k <= j < s.len(),
        s[j].path == s[k].path,
        !shadowed(s, j),
    decreases s.len() - k,
{
    if shadowed(s, k) {
        let j0 = choose|j: int| k < j < s.len() && #[trigger] s[j].path == s[k].path;
        lemma_last_occurrence(s, j0)
    } else {
        k
    }
}

/// Merged mount lists hold each path at most once.
pub proof fn law_merged_paths_distinct(s: Seq<MountSpec>)
    ensures
        forall|a: int, b: int| 0 <= a < b < last_wins(s).len() ==>
            (#[trigger] last_wins(s)[a]).path != (#[trigger] last_wins(s)[b]).path,
{
    lemma_unshadowed_members(s, s.len() as int);
}

/// Every path of the concatenated mount lists survives the merge, with the
/// entry of its last occurrence: a later (project) entry wins over an
/// earlier (global) one.
pub proof fn law_merged_last_entry_wins(s: Seq<MountSpec>, k: int)
    requires
        0 <= k < s.len(),
    ensures
        exists|j: int| k <= j < s.len() && s[j].path == s[k].path && !shadowed(s, j)
            && last_wins(s).contains(#[trigger] s[j]),
{
    lemma_unshadowed_members(s, s.len() as int);
    let j = lemma_last_occurrence(s, k);
    assert(last_wins(s).contains(s[j]));
}

/// Every entry of a merged mount list is an entry of the concatenated lists
/// that no later entry shadows.
pub proof fn law_merged_entries_come_from_input(s: Seq<MountSpec>, a: int)
    requires
        0 <= a < last_wins(s).len(),
    ensures
        exists|k: int| 0 <= k < s.len() && !shadowed(s, k) && s[k] == #[trigger] last_wins(s)[a],
{
    lemma_unshadowed_members(s, s.len() as int);
}

} // verus!
