//! The exposure profile (`~/.config/lion/profile.json`): the modules, host
//! paths and domains the user has exposed, the checks a host path passes
//! before it is exposed, and the translation of a profile into mounts and
//! environment variables.  Reading and writing the file is the caller's
//! work.

use vstd::prelude::*;
use crate::host::{EnvVar, HostView, env_var, path_exists};
use crate::text::{chars_eq_str, chars_of, push_str, starts_with, starts_with_str, string_of, string_views};

verus! {

// ── Sets of strings ─────────────────────────────────────────────────────────

/// No string occurs twice.
pub open spec fn no_dups(s: Seq<Seq<char>>) -> bool {
    forall|i: int, j: int| 0 <= i < j < s.len() ==> s[i] != s[j]
}

/// The set a vector of distinct strings stands for.
pub open spec fn set_view(v: Seq<String>) -> Set<Seq<char>> {
    string_views(v).to_set()
}

/// Inserts `x` unless it is there; returns whether it was inserted
/// (`HashSet::insert`).
pub fn set_insert(v: &mut Vec<String>, x: String) -> (inserted: bool)
    requires
        no_dups(string_views(old(v)@)),
    ensures
        no_dups(string_views(final(v)@)),
        set_view(final(v)@) == set_view(old(v)@).insert(x@),
        inserted == !set_view(old(v)@).contains(x@),
{
    let ghost before = string_views(v@);
    if crate::sandbox_engine::runner::contains_name(v, &x) {
        proof {
            assert(set_view(v@).contains(x@));
            assert(set_view(v@) =~= set_view(v@).insert(x@));
        }
        return false;
    }
    crate::text::push_string(v, x);
    proof {
        let after = string_views(v@);
        assert(after =~= before.push(x@));
        assert(!before.contains(x@));
        assert forall|i: int, j: int| 0 <= i < j < after.len() implies after[i] != after[j] by {
            if j == before.len() {
                assert(after[i] == before[i]);
            }
        }
        assert(set_view(v@) =~= before.to_set().insert(x@)) by {
            assert forall|y: Seq<char>| after.to_set().contains(y) == before.to_set().insert(x@).contains(y) by {
                if after.contains(y) {
                    let k = choose|k: int| 0 <= k < after.len() && after[k] == y;
                    if k < before.len() {
                        assert(before[k] == y);
                    }
                }
                if before.contains(y) {
                    let k = choose|k: int| 0 <= k < before.len() && before[k] == y;
                    assert(after[k] == y);
                }
                if y == x@ {
                    assert(after[before.len() as int] == y);
                }
            }
        }
        assert(!set_view(old(v)@).contains(x@));
    }
    true
}

/// Removes `x`; returns whether it was there (`HashSet::remove`).
pub fn set_remove(v: &mut Vec<String>, x: &String) -> (removed: bool)
    requires
        no_dups(string_views(old(v)@)),
    ensures
        no_dups(string_views(final(v)@)),
        set_view(final(v)@) == set_view(old(v)@).remove(x@),
        removed == set_view(old(v)@).contains(x@),
{
    let ghost before = string_views(v@);
    let mut i: usize = 0;
    while i < v.len()
        invariant
            i <= v.len(),
            before == string_views(v@),
            before == string_views(old(v)@),
            no_dups(before),
            forall|k: int| 0 <= k < i ==> before[k] != x@,
        decreases v.len() - i,
    {
        if v[i] == *x {
            let ghost old_v = v@;
            proof {
                assert(before[i as int] == x@);
            }
            let _ = v.remove(i);
            proof {
                let after = string_views(v@);
                assert(after =~= before.remove(i as int));
                assert forall|a: int, b: int| 0 <= a < b < after.len() implies after[a] != after[b] by {
                    let a0 = if a < i { a } else { a + 1 };
                    let b0 = if b < i { b } else { b + 1 };
                    assert(after[a] == before[a0] && after[b] == before[b0]);
                }
                assert forall|y: Seq<char>| after.to_set().contains(y) == before.to_set().remove(x@).contains(y) by {
                    if after.contains(y) {
                        let k = choose|k: int| 0 <= k < after.len() && after[k] == y;
                        let k0 = if k < i { k } else { k + 1 };
                        assert(before[k0] == y);
                        assert(k0 != i);
                        assert(y != x@);
                    }
                    if before.contains(y) && y != x@ {
                        let k = choose|k: int| 0 <= k < before.len() && before[k] == y;
                        assert(k != i);
                        if k < i {
                            assert(after[k] == y);
                        } else {
                            assert(after[k - 1] == y);
                        }
                    }
                }
                assert(set_view(v@) =~= before.to_set().remove(x@));
                assert(before.contains(x@)) by {
                    assert(before[i as int] == x@);
                }
                assert(before[i as int] == x@);
            }
            return true;
        }
        i += 1;
    }
    proof {
        assert(!before.contains(x@));
        assert(set_view(v@) =~= set_view(v@).remove(x@));
    }
    false
}

// ── The profile ─────────────────────────────────────────────────────────────

/// What the user has exposed.
pub struct Profile {
    /// Enabled system modules (e.g. "gpu", "network").
    pub modules: Vec<String>,
    /// Host paths exposed as read-write binds.
    pub custom_paths: Vec<String>,
    /// Allowed network domains.
    pub allowed_domains: Vec<String>,
}

impl Profile {
    /// Each list holds each string at most once.
    pub open spec fn wf(&self) -> bool {
        &&& no_dups(string_views(self.modules@))
        &&& no_dups(string_views(self.custom_paths@))
        &&& no_dups(string_views(self.allowed_domains@))
    }

    /// Nothing exposed.
    pub fn default() -> (r: Profile)
        ensures
            r.wf(),
            set_view(r.modules@).len() == 0,
            r.modules@.len() == 0,
            r.custom_paths@.len() == 0,
            r.allowed_domains@.len() == 0,
    {
        let r = Profile { modules: Vec::new(), custom_paths: Vec::new(), allowed_domains: Vec::new() };
        assert(string_views(r.modules@) =~= Seq::<Seq<char>>::empty());
        assert(set_view(r.modules@) =~= Set::<Seq<char>>::empty());
        r
    }
}

// ── Validating a host path ──────────────────────────────────────────────────

/// Why a host path may not be exposed.
pub enum PathError {
    /// The path is not absolute.
    NotAbsolute(String),
    /// The path does not exist.
    DoesNotExist(String),
    /// The path could not be resolved to its canonical form.
    Unresolvable(String),
    /// The path is one of the restricted system directories.
    Restricted(String),
}

impl PathError {
    pub fn message(&self) -> (r: String)
        ensures
            r@ == match self {
                PathError::NotAbsolute(p) => "Path must be absolute: "@ + p@,
                PathError::DoesNotExist(p) => "Path does not exist: "@ + p@,
                PathError::Unresolvable(p) => "Path cannot be resolved: "@ + p@,
                PathError::Restricted(d) => "Access to "@ + d@ + " is restricted for security reasons"@,
            },
    {
        match self {
            PathError::NotAbsolute(p) => {
                let mut v = chars_of("Path must be absolute: ");
                push_str(&mut v, p.as_str());
                string_of(v.as_slice())
            },
            PathError::DoesNotExist(p) => {
                let mut v = chars_of("Path does not exist: ");
                push_str(&mut v, p.as_str());
                string_of(v.as_slice())
            },
            PathError::Unresolvable(p) => {
                let mut v = chars_of("Path cannot be resolved: ");
                push_str(&mut v, p.as_str());
                string_of(v.as_slice())
            },
            PathError::Restricted(d) => {
                let mut v = chars_of("Access to ");
                push_str(&mut v, d.as_str());
                push_str(&mut v, " is restricted for security reasons");
                string_of(v.as_slice())
            },
        }
    }
}

/// Top-level directories that are never writable inside a sandbox.
pub open spec fn deny_list() -> Seq<Seq<char>> {
    seq![
        "/"@, "/home"@, "/etc"@, "/root"@, "/var"@, "/proc"@, "/dev"@,
        "/sys"@, "/bin"@, "/sbin"@, "/lib"@, "/lib64"@, "/usr"@, "/boot"@,
    ]
}

fn deny_list_exec() -> (r: Vec<String>)
    ensures
        string_views(r@) == deny_list(),
{
    let mut d: Vec<String> = Vec::new();
    crate::text::push_arg(&mut d, "/");
    crate::text::push_arg(&mut d, "/home");
    crate::text::push_arg(&mut d, "/etc");
    crate::text::push_arg(&mut d, "/root");
    crate::text::push_arg(&mut d, "/var");
    crate::text::push_arg(&mut d, "/proc");
    crate::text::push_arg(&mut d, "/dev");
    crate::text::push_arg(&mut d, "/sys");
    crate::text::push_arg(&mut d, "/bin");
    crate::text::push_arg(&mut d, "/sbin");
    crate::text::push_arg(&mut d, "/lib");
    crate::text::push_arg(&mut d, "/lib64");
    crate::text::push_arg(&mut d, "/usr");
    crate::text::push_arg(&mut d, "/boot");
    assert(string_views(d@) =~= deny_list());
    d
}

/// What the host says of a path: whether it exists, and its canonical form
/// when it could be resolved.
pub struct PathProbe {
    pub exists: bool,
    pub canonical: Option<String>,
}

/// `Path::is_absolute` on Unix: the path starts with the root.
pub open spec fn is_absolute(p: Seq<char>) -> bool {
    p.len() > 0 && p[0] == '/'
}

/// The verdict on a path: absolute, existing, resolvable, and not one of
/// the restricted directories, neither as written nor once resolved (the
/// path as written is named first).
pub open spec fn path_verdict(p: Seq<char>, probe: PathProbe) -> Result<(), Seq<char>> {
    if !is_absolute(p) {
        Err("not absolute"@)
    } else if !probe.exists {
        Err("missing"@)
    } else if probe.canonical is None {
        Err("unresolvable"@)
    } else if deny_list().contains(p) {
        Err(p)
    } else if deny_list().contains(probe.canonical->0@) {
        Err(probe.canonical->0@)
    } else {
        Ok(())
    }
}

/// Whether the path `path_str`, of which the host says `probe`, may be
/// exposed read-write.
pub fn validate_custom_path(path_str: &str, probe: &PathProbe) -> (r: Result<(), PathError>)
    ensures
        match r {
            Ok(()) => path_verdict(path_str@, *probe) is Ok,
            Err(PathError::NotAbsolute(p)) => !is_absolute(path_str@) && p@ == path_str@,
            Err(PathError::DoesNotExist(p)) => is_absolute(path_str@) && !probe.exists && p@ == path_str@,
            Err(PathError::Unresolvable(p)) => is_absolute(path_str@) && probe.exists
                && probe.canonical is None && p@ == path_str@,
            Err(PathError::Restricted(d)) => path_verdict(path_str@, *probe) == Err::<(), Seq<char>>(d@)
                && deny_list().contains(d@),
        },
{
    let v = chars_of(path_str);
    if !(v.len() > 0 && v[0] == '/') {
        return Err(PathError::NotAbsolute(String::from_str(path_str)));
    }
    if !probe.exists {
        return Err(PathError::DoesNotExist(String::from_str(path_str)));
    }
    let canon = match &probe.canonical {
        Some(c) => c,
        None => return Err(PathError::Unresolvable(String::from_str(path_str))),
    };
    let deny = deny_list_exec();
    let written = String::from_str(path_str);
    if crate::sandbox_engine::runner::contains_name(&deny, &written) {
        return Err(PathError::Restricted(written));
    }
    if crate::sandbox_engine::runner::contains_name(&deny, canon) {
        return Err(PathError::Restricted(canon.clone()));
    }
    Ok(())
}

// ── Exposing and unexposing ─────────────────────────────────────────────────

/// The plain view of a profile: its three sets.
#[verifier::ext_equal]
pub struct ProfileView {
    pub modules: Set<Seq<char>>,
    pub custom_paths: Set<Seq<char>>,
    pub allowed_domains: Set<Seq<char>>,
}

pub open spec fn profile_view(p: Profile) -> ProfileView {
    ProfileView {
        modules: set_view(p.modules@),
        custom_paths: set_view(p.custom_paths@),
        allowed_domains: set_view(p.allowed_domains@),
    }
}

pub open spec fn opt_str(o: Option<String>) -> Option<Seq<char>> {
    match o {
        Some(s) => Some(s@),
        None => None,
    }
}

/// The path of an exposure request.
pub open spec fn requested_path(o: Option<(String, PathProbe)>) -> Option<Seq<char>> {
    match o {
        Some((p, _)) => Some(p@),
        None => None,
    }
}

pub open spec fn with_added(s: Set<Seq<char>>, o: Option<Seq<char>>) -> Set<Seq<char>> {
    match o {
        Some(x) => s.insert(x),
        None => s,
    }
}

pub open spec fn with_removed(s: Set<Seq<char>>, o: Option<Seq<char>>) -> Set<Seq<char>> {
    match o {
        Some(x) => s.remove(x),
        None => s,
    }
}

/// The profile with the given path, module and domain exposed.
pub open spec fn exposed(
    v: ProfileView,
    path: Option<Seq<char>>,
    module: Option<Seq<char>>,
    domain: Option<Seq<char>>,
) -> ProfileView {
    ProfileView {
        modules: with_added(v.modules, module),
        custom_paths: with_added(v.custom_paths, path),
        allowed_domains: with_added(v.allowed_domains, domain),
    }
}

/// The profile with the given path, module and domain no longer exposed.
pub open spec fn unexposed(
    v: ProfileView,
    path: Option<Seq<char>>,
    module: Option<Seq<char>>,
    domain: Option<Seq<char>>,
) -> ProfileView {
    ProfileView {
        modules: with_removed(v.modules, module),
        custom_paths: with_removed(v.custom_paths, path),
        allowed_domains: with_removed(v.allowed_domains, domain),
    }
}

/// Whether `o` names something already in `s`.
pub open spec fn already_in(s: Set<Seq<char>>, o: Option<Seq<char>>) -> bool {
    o matches Some(x) && s.contains(x)
}

/// `lion expose`: adds the path (after validating it), the module and the
/// domain that are given.  When the path is refused the profile is left as
/// it was.
pub fn handle_expose(
    profile: &mut Profile,
    path: Option<(String, PathProbe)>,
    module: Option<String>,
    domain: Option<String>,
) -> (r: Result<(), PathError>)
    requires
        old(profile).wf(),
    ensures
        final(profile).wf(),
        match path {
            Some((p, probe)) => (r is Ok) == (path_verdict(p@, probe) is Ok),
            None => r is Ok,
        },
        r is Err ==> *final(profile) == *old(profile),
        r is Ok ==> profile_view(*final(profile)) == exposed(
            profile_view(*old(profile)),
            requested_path(path),
            opt_str(module),
            opt_str(domain),
        ),
{
    match path {
        Some((p, probe)) => {
            match validate_custom_path(p.as_str(), &probe) {
                Err(e) => return Err(e),
                Ok(()) => {},
            }
            let _ = set_insert(&mut profile.custom_paths, p);
        },
        None => {},
    }
    match module {
        Some(m) => {
            let _ = set_insert(&mut profile.modules, m);
        },
        None => {},
    }
    match domain {
        Some(d) => {
            let _ = set_insert(&mut profile.allowed_domains, d);
        },
        None => {},
    }
    Ok(())
}

/// `lion unexpose`: removes the path, the module and the domain that are
/// given.
pub fn handle_unexpose(
    profile: &mut Profile,
    path: Option<String>,
    module: Option<String>,
    domain: Option<String>,
)
    requires
        old(profile).wf(),
    ensures
        final(profile).wf(),
        profile_view(*final(profile)) == unexposed(
            profile_view(*old(profile)),
            opt_str(path),
            opt_str(module),
            opt_str(domain),
        ),
{
    match path {
        Some(p) => {
            let _ = set_remove(&mut profile.custom_paths, &p);
        },
        None => {},
    }
    match module {
        Some(m) => {
            let _ = set_remove(&mut profile.modules, &m);
        },
        None => {},
    }
    match domain {
        Some(d) => {
            let _ = set_remove(&mut profile.allowed_domains, &d);
        },
        None => {},
    }
}

/// Unexposing what was just exposed gives back the profile as it was, when
/// none of it was exposed before.
pub proof fn law_unexpose_undoes_expose(
    v: ProfileView,
    path: Option<Seq<char>>,
    module: Option<Seq<char>>,
    domain: Option<Seq<char>>,
)
    requires
        !already_in(v.custom_paths, path),
        !already_in(v.modules, module),
        !already_in(v.allowed_domains, domain),
    ensures
        unexposed(exposed(v, path, module, domain), path, module, domain) == v,
{
    assert(unexposed(exposed(v, path, module, domain), path, module, domain) =~= v);
}

/// Exposing twice is exposing once.
pub proof fn law_expose_idempotent(
    v: ProfileView,
    path: Option<Seq<char>>,
    module: Option<Seq<char>>,
    domain: Option<Seq<char>>,
)
    ensures
        exposed(exposed(v, path, module, domain), path, module, domain) == exposed(
            v,
            path,
            module,
            domain,
        ),
{
    assert(exposed(exposed(v, path, module, domain), path, module, domain) =~= exposed(
        v,
        path,
        module,
        domain,
    ));
}

/// After unexposing, nothing named is exposed, whatever was before.
pub proof fn law_unexpose_removes(
    v: ProfileView,
    path: Option<Seq<char>>,
    module: Option<Seq<char>>,
    domain: Option<Seq<char>>,
)
    ensures
        !already_in(unexposed(v, path, module, domain).custom_paths, path),
        !already_in(unexposed(v, path, module, domain).modules, module),
        !already_in(unexposed(v, path, module, domain).allowed_domains, domain),
{
}


// ── Resolving a profile into mounts ─────────────────────────────────────────

/// One mount of a system module definition, with the fields it gave.
pub struct ModuleDefMount {
    /// "ro-bind" (the default), "bind" or "dev-bind".
    pub kind: Option<String>,
    pub src: Option<String>,
    pub dst: Option<String>,
}

/// One system module definition.
pub struct ModuleDef {
    pub name: String,
    pub mounts: Vec<ModuleDefMount>,
    /// Socket names under `$XDG_RUNTIME_DIR`.
    pub runtime_sockets: Vec<String>,
    /// Host environment variables forwarded when set.
    pub env: Vec<String>,
    /// Whether the module is always enabled.
    pub mandatory: bool,
}

/// The mounts and variables a profile translates into.
pub struct ResolvedProfile {
    /// (host source, sandbox destination) of read-only binds.
    pub ro_mounts: Vec<(String, String)>,
    pub rw_mounts: Vec<(String, String)>,
    pub dev_mounts: Vec<(String, String)>,
    /// Variables to set; a later entry for a name replaces an earlier one.
    pub env_vars: Vec<EnvVar>,
    pub network_enabled: bool,
    pub gui_enabled: bool,
}

pub open spec fn pair_views(s: Seq<(String, String)>) -> Seq<(Seq<char>, Seq<char>)> {
    s.map_values(|p: (String, String)| (p.0@, p.1@))
}

/// The variables of a list, a later entry replacing an earlier one.
pub open spec fn env_map(v: Seq<EnvVar>) -> Map<Seq<char>, Seq<char>>
    decreases v.len(),
{
    if v.len() == 0 {
        Map::empty()
    } else {
        env_map(v.drop_last()).insert(v.last().name@, v.last().value@)
    }
}

/// The plain view of a resolution.
pub struct ResolvedSpec {
    pub ro: Seq<(Seq<char>, Seq<char>)>,
    pub rw: Seq<(Seq<char>, Seq<char>)>,
    pub dev: Seq<(Seq<char>, Seq<char>)>,
    pub env: Map<Seq<char>, Seq<char>>,
    pub network: bool,
    pub gui: bool,
}

pub open spec fn resolved_view(r: ResolvedProfile) -> ResolvedSpec {
    ResolvedSpec {
        ro: pair_views(r.ro_mounts@),
        rw: pair_views(r.rw_mounts@),
        dev: pair_views(r.dev_mounts@),
        env: env_map(r.env_vars@),
        network: r.network_enabled,
        gui: r.gui_enabled,
    }
}

/// `Path::join`: `p` when it is absolute, else `p` under `base`.
pub open spec fn join_full(base: Seq<char>, p: Seq<char>) -> Seq<char> {
    if p.len() > 0 && p[0] == '/' {
        p
    } else {
        crate::sandbox_engine::runner::path_join(base, p)
    }
}

/// A `~/`-prefixed path under the home directory, when `HOME` is set.
pub open spec fn resolve_user_path(p: Seq<char>, home: Option<Seq<char>>) -> Seq<char> {
    if starts_with(p, "~/"@) && home is Some {
        join_full(home->0, p.skip(2))
    } else {
        p
    }
}

pub open spec fn opt_or(o: Option<String>, d: Seq<char>) -> Seq<char> {
    match o {
        Some(s) => s@,
        None => d,
    }
}

/// One module mount applied: skipped when its source or destination is
/// empty or its source does not exist; otherwise a bind of its kind.
pub open spec fn apply_def_mount(acc: ResolvedSpec, m: ModuleDefMount, h: HostView) -> ResolvedSpec {
    let kind = opt_or(m.kind, "ro-bind"@);
    let src = opt_or(m.src, ""@);
    let dst = opt_or(m.dst, ""@);
    let sp = resolve_user_path(src, env_var(h, "HOME"@));
    if src.len() == 0 || dst.len() == 0 || !path_exists(h, sp) {
        acc
    } else if kind == "ro-bind"@ {
        ResolvedSpec { ro: acc.ro.push((sp, dst)), ..acc }
    } else if kind == "bind"@ {
        ResolvedSpec { rw: acc.rw.push((sp, dst)), ..acc }
    } else if kind == "dev-bind"@ {
        ResolvedSpec { dev: acc.dev.push((sp, dst)), ..acc }
    } else {
        acc
    }
}

pub open spec fn apply_def_mounts(acc: ResolvedSpec, ms: Seq<ModuleDefMount>, h: HostView) -> ResolvedSpec
    decreases ms.len(),
{
    if ms.len() == 0 {
        acc
    } else {
        apply_def_mount(apply_def_mounts(acc, ms.drop_last(), h), ms.last(), h)
    }
}

pub open spec fn apply_sockets(acc: ResolvedSpec, socks: Seq<String>, h: HostView) -> ResolvedSpec
    decreases socks.len(),
{
    if socks.len() == 0 {
        acc
    } else {
        let prev = apply_sockets(acc, socks.drop_last(), h);
        match env_var(h, "XDG_RUNTIME_DIR"@) {
            Some(rd) => {
                let p = join_full(rd, socks.last()@);
                if path_exists(h, p) {
                    ResolvedSpec { ro: prev.ro.push((p, p)), ..prev }
                } else {
                    prev
                }
            },
            None => prev,
        }
    }
}

pub open spec fn apply_env(acc: ResolvedSpec, keys: Seq<String>, h: HostView) -> ResolvedSpec
    decreases keys.len(),
{
    if keys.len() == 0 {
        acc
    } else {
        let prev = apply_env(acc, keys.drop_last(), h);
        match env_var(h, keys.last()@) {
            Some(v) => ResolvedSpec { env: prev.env.insert(keys.last()@, v), ..prev },
            None => prev,
        }
    }
}

/// One active module definition applied: its mounts, its runtime sockets,
/// its variables, and the capability flags of its name.
pub open spec fn apply_def(acc: ResolvedSpec, d: ModuleDef, h: HostView) -> ResolvedSpec {
    let a = apply_env(apply_sockets(apply_def_mounts(acc, d.mounts@, h), d.runtime_sockets@, h), d.env@, h);
    ResolvedSpec {
        network: a.network || d.name@ == "network"@,
        gui: a.gui || d.name@ == "wayland"@ || d.name@ == "x11"@,
        ..a
    }
}

/// Whether a definition is active for a profile: "base" always is.
pub open spec fn def_active(d: ModuleDef, p: Profile) -> bool {
    d.name@ == "base"@ || set_view(p.modules@).contains(d.name@)
}

pub open spec fn apply_defs(acc: ResolvedSpec, defs: Seq<ModuleDef>, p: Profile, h: HostView) -> ResolvedSpec
    decreases defs.len(),
{
    if defs.len() == 0 {
        acc
    } else {
        let prev = apply_defs(acc, defs.drop_last(), p, h);
        if def_active(defs.last(), p) {
            apply_def(prev, defs.last(), h)
        } else {
            prev
        }
    }
}

pub open spec fn custom_binds(paths: Seq<String>) -> Seq<(Seq<char>, Seq<char>)> {
    paths.map_values(|s: String| (s@, s@))
}

/// The resolution of a profile: the active definitions applied in order,
/// then each custom path bound read-write onto itself.
pub open spec fn resolve_spec(p: Profile, defs: Seq<ModuleDef>, h: HostView) -> ResolvedSpec {
    let empty = ResolvedSpec {
        ro: seq![],
        rw: seq![],
        dev: seq![],
        env: Map::empty(),
        network: false,
        gui: false,
    };
    let a = apply_defs(empty, defs, p, h);
    ResolvedSpec { rw: a.rw + custom_binds(p.custom_paths@), ..a }
}

proof fn lemma_mounts_keep_flags(acc: ResolvedSpec, ms: Seq<ModuleDefMount>, h: HostView)
    ensures
        apply_def_mounts(acc, ms, h).network == acc.network,
        apply_def_mounts(acc, ms, h).gui == acc.gui,
    decreases ms.len(),
{
    if ms.len() > 0 {
        lemma_mounts_keep_flags(acc, ms.drop_last(), h);
    }
}

proof fn lemma_sockets_keep_flags(acc: ResolvedSpec, socks: Seq<String>, h: HostView)
    ensures
        apply_sockets(acc, socks, h).network == acc.network,
        apply_sockets(acc, socks, h).gui == acc.gui,
    decreases socks.len(),
{
    if socks.len() > 0 {
        lemma_sockets_keep_flags(acc, socks.drop_last(), h);
    }
}

proof fn lemma_env_keeps_flags(acc: ResolvedSpec, keys: Seq<String>, h: HostView)
    ensures
        apply_env(acc, keys, h).network == acc.network,
        apply_env(acc, keys, h).gui == acc.gui,
    decreases keys.len(),
{
    if keys.len() > 0 {
        lemma_env_keeps_flags(acc, keys.drop_last(), h);
    }
}

/// Whether definition `i` of `defs` is active for `p` ("base", or named in
/// the profile's modules) and carries the name `name`.
pub open spec fn active_named(defs: Seq<ModuleDef>, p: Profile, i: int, name: Seq<char>) -> bool {
    &&& 0 <= i < defs.len()
    &&& defs[i].name@ == "base"@ || string_views(p.modules@).contains(defs[i].name@)
    &&& defs[i].name@ == name
}

proof fn lemma_defs_flags(acc: ResolvedSpec, defs: Seq<ModuleDef>, p: Profile, h: HostView)
    ensures
        apply_defs(acc, defs, p, h).network == (acc.network || exists|i: int| #[trigger] active_named(defs, p, i, "network"@)),
        apply_defs(acc, defs, p, h).gui == (acc.gui || (exists|i: int| #[trigger] active_named(defs, p, i, "wayland"@))
            || (exists|i: int| #[trigger] active_named(defs, p, i, "x11"@))),
    decreases defs.len(),
{
    if defs.len() > 0 {
        let d = defs.last();
        let n = defs.len() - 1;
        let prev = apply_defs(acc, defs.drop_last(), p, h);
        lemma_defs_flags(acc, defs.drop_last(), p, h);
        let a0 = apply_def_mounts(prev, d.mounts@, h);
        let a1 = apply_sockets(a0, d.runtime_sockets@, h);
        lemma_mounts_keep_flags(prev, d.mounts@, h);
        lemma_sockets_keep_flags(a0, d.runtime_sockets@, h);
        lemma_env_keeps_flags(a1, d.env@, h);
        assert(set_view(p.modules@).contains(d.name@) == string_views(p.modules@).contains(d.name@));
        assert forall|i: int, name: Seq<char>| #[trigger] active_named(defs, p, i, name) <==> (
            active_named(defs.drop_last(), p, i, name) || (i == n && active_named(defs, p, n, name))) by {
            if 0 <= i < n {
                assert(defs.drop_last()[i] == defs[i]);
            }
        }
        if exists|i: int| #[trigger] active_named(defs, p, i, "network"@) {
            let i = choose|i: int| #[trigger] active_named(defs, p, i, "network"@);
            if i < n {
                assert(active_named(defs.drop_last(), p, i, "network"@));
            }
        }
        if exists|i: int| #[trigger] active_named(defs, p, i, "wayland"@) {
            let i = choose|i: int| #[trigger] active_named(defs, p, i, "wayland"@);
            if i < n {
                assert(active_named(defs.drop_last(), p, i, "wayland"@));
            }
        }
        if exists|i: int| #[trigger] active_named(defs, p, i, "x11"@) {
            let i = choose|i: int| #[trigger] active_named(defs, p, i, "x11"@);
            if i < n {
                assert(active_named(defs.drop_last(), p, i, "x11"@));
            }
        }
        if exists|i: int| #[trigger] active_named(defs.drop_last(), p, i, "network"@) {
            let i = choose|i: int| #[trigger] active_named(defs.drop_last(), p, i, "network"@);
            assert(active_named(defs, p, i, "network"@));
        }
        if exists|i: int| #[trigger] active_named(defs.drop_last(), p, i, "wayland"@) {
            let i = choose|i: int| #[trigger] active_named(defs.drop_last(), p, i, "wayland"@);
            assert(active_named(defs, p, i, "wayland"@));
        }
        if exists|i: int| #[trigger] active_named(defs.drop_last(), p, i, "x11"@) {
            let i = choose|i: int| #[trigger] active_named(defs.drop_last(), p, i, "x11"@);
            assert(active_named(defs, p, i, "x11"@));
        }
        if def_active(d, p) {
            if d.name@ == "network"@ {
                assert(active_named(defs, p, n, "network"@));
            }
            if d.name@ == "wayland"@ {
                assert(active_named(defs, p, n, "wayland"@));
            }
            if d.name@ == "x11"@ {
                assert(active_named(defs, p, n, "x11"@));
            }
        }
    }
}

/// The capability flags of a resolved profile: networking is on exactly
/// when an active definition (`base`, or one named in the profile) is
/// called `network`, and the GUI exactly when one is called `wayland` or
/// `x11`.
pub proof fn law_capability_flags(p: Profile, defs: Seq<ModuleDef>, h: HostView)
    ensures
        resolve_spec(p, defs, h).network <==> exists|i: int| #[trigger] active_named(defs, p, i, "network"@),
        resolve_spec(p, defs, h).gui <==> (exists|i: int| #[trigger] active_named(defs, p, i, "wayland"@))
            || (exists|i: int| #[trigger] active_named(defs, p, i, "x11"@)),
{
    let empty = ResolvedSpec {
        ro: seq![],
        rw: seq![],
        dev: seq![],
        env: Map::empty(),
        network: false,
        gui: false,
    };
    lemma_defs_flags(empty, defs, p, h);
}

proof fn lemma_pair_views_push(s: Seq<(String, String)>, x: (String, String))
    ensures
        pair_views(s.push(x)) == pair_views(s).push((x.0@, x.1@)),
{
    assert(pair_views(s.push(x)) =~= pair_views(s).push((x.0@, x.1@)));
}

fn push_pair(v: &mut Vec<(String, String)>, a: String, b: String)
    ensures
        pair_views(final(v)@) == pair_views(old(v)@).push((a@, b@)),
{
    let ghost before = v@;
    v.push((a, b));
    proof {
        lemma_pair_views_push(before, (a, b));
    }
}

fn join_full_exec(base: &str, p: &str) -> (r: String)
    ensures
        r@ == join_full(base@, p@),
{
    let pv = chars_of(p);
    if pv.len() > 0 && pv[0] == '/' {
        return String::from_str(p);
    }
    let bv = chars_of(base);
    let mut v = crate::text::slice_chars(&bv, 0, bv.len());
    assert(v@ =~= bv@);
    if bv.len() == 0 {
        return String::from_str(p);
    }
    if bv[bv.len() - 1] != '/' {
        push_str(&mut v, "/");
    }
    crate::text::push_all(&mut v, &pv);
    string_of(v.as_slice())
}

fn resolve_user_path_exec(p: &str, home: &Option<String>) -> (r: String)
    ensures
        r@ == resolve_user_path(p@, match home {
            Some(h) => Some(h@),
            None => None,
        }),
{
    let v = chars_of(p);
    if starts_with_str(&v, "~/") {
        match home {
            Some(h) => {
                proof {
                    reveal_strlit("~/");
                }
                let rest = crate::text::slice_chars(&v, 2, v.len());
                let rs = string_of(rest.as_slice());
                proof {
                    assert(rest@ =~= p@.skip(2));
                }
                return join_full_exec(h.as_str(), rs.as_str());
            },
            None => {},
        }
    }
    String::from_str(p)
}

fn opt_or_exec(o: &Option<String>, d: &str) -> (r: String)
    ensures
        r@ == opt_or(*o, d@),
{
    match o {
        Some(s) => s.clone(),
        None => String::from_str(d),
    }
}

fn apply_mounts_exec(r: &mut ResolvedProfile, ms: &Vec<ModuleDefMount>, host: &HostView)
    ensures
        resolved_view(*final(r)) == apply_def_mounts(resolved_view(*old(r)), ms@, *host),
{
    let home = host.var("HOME");
    let ghost start = resolved_view(*r);
    let mut i: usize = 0;
    while i < ms.len()
        invariant
            i <= ms.len(),
            match home {
                Some(h) => env_var(*host, "HOME"@) == Some(h@),
                None => env_var(*host, "HOME"@) is None,
            },
            resolved_view(*r) == apply_def_mounts(start, ms@.take(i as int), *host),
        decreases ms.len() - i,
    {
        let m = &ms[i];
        proof {
            assert(ms@.take(i + 1).drop_last() =~= ms@.take(i as int));
            assert(ms@.take(i + 1).last() == ms@[i as int]);
        }
        let kind = opt_or_exec(&m.kind, "ro-bind");
        let src = opt_or_exec(&m.src, "");
        let dst = opt_or_exec(&m.dst, "");
        let sv = chars_of(src.as_str());
        let dv = chars_of(dst.as_str());
        proof {
            reveal_strlit("");
        }
        if sv.len() > 0 && dv.len() > 0 {
            let sp = resolve_user_path_exec(src.as_str(), &home);
            if host.has_path(sp.as_str()) {
                let kv = chars_of(kind.as_str());
                if chars_eq_str(&kv, "ro-bind") {
                    push_pair(&mut r.ro_mounts, sp, dst);
                } else if chars_eq_str(&kv, "bind") {
                    push_pair(&mut r.rw_mounts, sp, dst);
                } else if chars_eq_str(&kv, "dev-bind") {
                    push_pair(&mut r.dev_mounts, sp, dst);
                }
            }
        }
        i += 1;
    }
    proof {
        assert(ms@.take(ms.len() as int) =~= ms@);
    }
}

fn apply_sockets_exec(r: &mut ResolvedProfile, socks: &Vec<String>, host: &HostView)
    ensures
        resolved_view(*final(r)) == apply_sockets(resolved_view(*old(r)), socks@, *host),
{
    let rd = host.var("XDG_RUNTIME_DIR");
    let ghost start = resolved_view(*r);
    let mut i: usize = 0;
    while i < socks.len()
        invariant
            i <= socks.len(),
            match rd {
                Some(d) => env_var(*host, "XDG_RUNTIME_DIR"@) == Some(d@),
                None => env_var(*host, "XDG_RUNTIME_DIR"@) is None,
            },
            resolved_view(*r) == apply_sockets(start, socks@.take(i as int), *host),
        decreases socks.len() - i,
    {
        proof {
            assert(socks@.take(i + 1).drop_last() =~= socks@.take(i as int));
            assert(socks@.take(i + 1).last() == socks@[i as int]);
        }
        match &rd {
            Some(d) => {
                let p = join_full_exec(d.as_str(), socks[i].as_str());
                if host.has_path(p.as_str()) {
                    let q = p.clone();
                    push_pair(&mut r.ro_mounts, p, q);
                }
            },
            None => {},
        }
        i += 1;
    }
    proof {
        assert(socks@.take(socks.len() as int) =~= socks@);
    }
}

fn apply_env_exec(r: &mut ResolvedProfile, keys: &Vec<String>, host: &HostView)
    ensures
        resolved_view(*final(r)) == apply_env(resolved_view(*old(r)), keys@, *host),
{
    let ghost start = resolved_view(*r);
    let mut i: usize = 0;
    while i < keys.len()
        invariant
            i <= keys.len(),
            resolved_view(*r) == apply_env(start, keys@.take(i as int), *host),
        decreases keys.len() - i,
    {
        proof {
            assert(keys@.take(i + 1).drop_last() =~= keys@.take(i as int));
            assert(keys@.take(i + 1).last() == keys@[i as int]);
        }
        match host.var(keys[i].as_str()) {
            Some(v) => {
                let ghost before = r.env_vars@;
                r.env_vars.push(EnvVar { name: keys[i].clone(), value: v });
                proof {
                    assert(r.env_vars@.drop_last() =~= before);
                }
            },
            None => {},
        }
        i += 1;
    }
    proof {
        assert(keys@.take(keys.len() as int) =~= keys@);
    }
}

fn apply_def_exec(r: &mut ResolvedProfile, d: &ModuleDef, host: &HostView)
    ensures
        resolved_view(*final(r)) == apply_def(resolved_view(*old(r)), *d, *host),
{
    let ghost a0 = resolved_view(*r);
    apply_mounts_exec(r, &d.mounts, host);
    apply_sockets_exec(r, &d.runtime_sockets, host);
    apply_env_exec(r, &d.env, host);
    let ghost a = resolved_view(*r);
    let nv = chars_of(d.name.as_str());
    if chars_eq_str(&nv, "network") {
        r.network_enabled = true;
    }
    if chars_eq_str(&nv, "wayland") || chars_eq_str(&nv, "x11") {
        r.gui_enabled = true;
    }
    proof {
        assert(a == apply_env(apply_sockets(apply_def_mounts(a0, d.mounts@, *host), d.runtime_sockets@, *host), d.env@, *host));
        assert(resolved_view(*r) == (ResolvedSpec {
            network: a.network || d.name@ == "network"@,
            gui: a.gui || d.name@ == "wayland"@ || d.name@ == "x11"@,
            ..a
        }));
    }
}

fn bind_custom_paths(r: &mut ResolvedProfile, paths: &Vec<String>)
    ensures
        resolved_view(*final(r)) == (ResolvedSpec {
            rw: resolved_view(*old(r)).rw + custom_binds(paths@),
            ..resolved_view(*old(r))
        }),
{
    let ghost start = resolved_view(*r);
    let mut j: usize = 0;
    while j < paths.len()
        invariant
            j <= paths.len(),
            resolved_view(*r) == (ResolvedSpec {
                rw: start.rw + custom_binds(paths@.take(j as int)),
                ..start
            }),
        decreases paths.len() - j,
    {
        let p = paths[j].clone();
        let q = p.clone();
        push_pair(&mut r.rw_mounts, p, q);
        proof {
            assert(custom_binds(paths@.take(j + 1)) =~= custom_binds(paths@.take(j as int)).push(
                (paths@[j as int]@, paths@[j as int]@),
            ));
            assert(start.rw + custom_binds(paths@.take(j + 1)) =~= (start.rw + custom_binds(
                paths@.take(j as int),
            )).push((paths@[j as int]@, paths@[j as int]@)));
        }
        j += 1;
    }
    proof {
        assert(paths@.take(paths.len() as int) =~= paths@);
    }
}

/// Translates a profile into concrete mounts and variables: every active
/// module definition of `defs` ("base" always, the others when the profile
/// enables them) in order, then the custom paths as read-write binds.
pub fn resolve_profile(profile: &Profile, defs: &Vec<ModuleDef>, host: &HostView) -> (r: ResolvedProfile)
    ensures
        resolved_view(r) == resolve_spec(*profile, defs@, *host),
{
    let mut r = ResolvedProfile {
        ro_mounts: Vec::new(),
        rw_mounts: Vec::new(),
        dev_mounts: Vec::new(),
        env_vars: Vec::new(),
        network_enabled: false,
        gui_enabled: false,
    };
    let ghost start = resolved_view(r);
    proof {
        assert(pair_views(r.ro_mounts@) =~= Seq::<(Seq<char>, Seq<char>)>::empty());
        assert(pair_views(r.rw_mounts@) =~= Seq::<(Seq<char>, Seq<char>)>::empty());
        assert(pair_views(r.dev_mounts@) =~= Seq::<(Seq<char>, Seq<char>)>::empty());
        assert(start == (ResolvedSpec {
            ro: seq![],
            rw: seq![],
            dev: seq![],
            env: Map::empty(),
            network: false,
            gui: false,
        }));
    }
    let mut i: usize = 0;
    while i < defs.len()
        invariant
            i <= defs.len(),
            start == (ResolvedSpec {
                ro: seq![],
                rw: seq![],
                dev: seq![],
                env: Map::empty(),
                network: false,
                gui: false,
            }),
            resolved_view(r) == apply_defs(start, defs@.take(i as int), *profile, *host),
        decreases defs.len() - i,
    {
        let d = &defs[i];
        proof {
            assert(defs@.take(i + 1).drop_last() =~= defs@.take(i as int));
            assert(defs@.take(i + 1).last() == defs@[i as int]);
        }
        let nv = chars_of(d.name.as_str());
        if chars_eq_str(&nv, "base") || crate::sandbox_engine::runner::contains_name(&profile.modules, &d.name) {
            proof {
                assert(def_active(*d, *profile));
            }
            apply_def_exec(&mut r, d, host);
        } else {
            proof {
                assert(!def_active(*d, *profile));
            }
        }
        i += 1;
    }
    proof {
        assert(defs@.take(defs.len() as int) =~= defs@);
    }
    bind_custom_paths(&mut r, &profile.custom_paths);
    r
}

/// The host paths whose existence resolving a profile with `defs` looks
/// up: each mount's source (after `~/`) and each runtime socket under the
/// runtime directory, definition by definition.
pub open spec fn def_mount_probes(ms: Seq<ModuleDefMount>, h: HostView) -> Seq<Seq<char>>
    decreases ms.len(),
{
    if ms.len() == 0 {
        seq![]
    } else {
        def_mount_probes(ms.drop_last(), h).push(resolve_user_path(opt_or(ms.last().src, ""@), env_var(h, "HOME"@)))
    }
}

pub open spec fn socket_probes(socks: Seq<String>, h: HostView) -> Seq<Seq<char>> {
    match env_var(h, "XDG_RUNTIME_DIR"@) {
        Some(rd) => socks.map_values(|s: String| join_full(rd, s@)),
        None => seq![],
    }
}

pub open spec fn def_probes(defs: Seq<ModuleDef>, h: HostView) -> Seq<Seq<char>>
    decreases defs.len(),
{
    if defs.len() == 0 {
        seq![]
    } else {
        def_probes(defs.drop_last(), h) + def_mount_probes(defs.last().mounts@, h) + socket_probes(
            defs.last().runtime_sockets@,
            h,
        )
    }
}

fn push_def_probes(out: &mut Vec<String>, d: &ModuleDef, host: &HostView, home: &Option<String>, rd: &Option<String>)
    requires
        match *home {
            Some(x) => env_var(*host, "HOME"@) == Some(x@),
            None => env_var(*host, "HOME"@) is None,
        },
        match *rd {
            Some(x) => env_var(*host, "XDG_RUNTIME_DIR"@) == Some(x@),
            None => env_var(*host, "XDG_RUNTIME_DIR"@) is None,
        },
    ensures
        string_views(final(out)@) == string_views(old(out)@) + def_mount_probes(d.mounts@, *host) + socket_probes(
            d.runtime_sockets@,
            *host,
        ),
{
    let ghost before = string_views(out@);
    let mut i: usize = 0;
    while i < d.mounts.len()
        invariant
            i <= d.mounts.len(),
            match *home {
                Some(x) => env_var(*host, "HOME"@) == Some(x@),
                None => env_var(*host, "HOME"@) is None,
            },
            string_views(out@) == before + def_mount_probes(d.mounts@.take(i as int), *host),
        decreases d.mounts.len() - i,
    {
        let src = opt_or_exec(&d.mounts[i].src, "");
        let sp = resolve_user_path_exec(src.as_str(), home);
        crate::text::push_string(out, sp);
        proof {
            reveal_strlit("");
            assert(d.mounts@.take(i + 1).drop_last() =~= d.mounts@.take(i as int));
            assert(d.mounts@.take(i + 1).last() == d.mounts@[i as int]);
            assert(before + def_mount_probes(d.mounts@.take(i + 1), *host) =~= (before + def_mount_probes(
                d.mounts@.take(i as int),
                *host,
            )).push(sp@));
        }
        i += 1;
    }
    assert(d.mounts@.take(d.mounts.len() as int) =~= d.mounts@);
    let ghost mid = string_views(out@);
    match rd {
        Some(r) => {
            let mut j: usize = 0;
            while j < d.runtime_sockets.len()
                invariant
                    j <= d.runtime_sockets.len(),
                    env_var(*host, "XDG_RUNTIME_DIR"@) == Some(r@),
                    string_views(out@) == mid + d.runtime_sockets@.take(j as int).map_values(
                        |s: String| join_full(r@, s@),
                    ),
                decreases d.runtime_sockets.len() - j,
            {
                let p = join_full_exec(r.as_str(), d.runtime_sockets[j].as_str());
                crate::text::push_string(out, p);
                proof {
                    assert(d.runtime_sockets@.take(j + 1).map_values(|s: String| join_full(r@, s@))
                        =~= d.runtime_sockets@.take(j as int).map_values(|s: String| join_full(r@, s@)).push(
                        p@,
                    ));
                    assert(mid + d.runtime_sockets@.take(j + 1).map_values(|s: String| join_full(r@, s@))
                        =~= (mid + d.runtime_sockets@.take(j as int).map_values(|s: String| join_full(r@, s@))).push(
                        p@,
                    ));
                }
                j += 1;
            }
            assert(d.runtime_sockets@.take(d.runtime_sockets.len() as int) =~= d.runtime_sockets@);
        },
        None => {
            assert(socket_probes(d.runtime_sockets@, *host) =~= Seq::<Seq<char>>::empty());
            assert(string_views(out@) =~= mid + Seq::<Seq<char>>::empty());
        },
    }
}

/// The paths to look up on the host before resolving a profile with
/// `defs`: see `def_probes`.
pub fn profile_probes(defs: &Vec<ModuleDef>, host: &HostView) -> (r: Vec<String>)
    ensures
        string_views(r@) == def_probes(defs@, *host),
{
    let home = host.var("HOME");
    let rd = host.var("XDG_RUNTIME_DIR");
    let mut out: Vec<String> = Vec::new();
    assert(string_views(out@) =~= Seq::<Seq<char>>::empty());
    let mut i: usize = 0;
    while i < defs.len()
        invariant
            i <= defs.len(),
            match home {
                Some(x) => env_var(*host, "HOME"@) == Some(x@),
                None => env_var(*host, "HOME"@) is None,
            },
            match rd {
                Some(x) => env_var(*host, "XDG_RUNTIME_DIR"@) == Some(x@),
                None => env_var(*host, "XDG_RUNTIME_DIR"@) is None,
            },
            string_views(out@) == def_probes(defs@.take(i as int), *host),
        decreases defs.len() - i,
    {
        push_def_probes(&mut out, &defs[i], host, &home, &rd);
        proof {
            assert(defs@.take(i + 1).drop_last() =~= defs@.take(i as int));
            assert(defs@.take(i + 1).last() == defs@[i as int]);
        }
        i += 1;
    }
    assert(defs@.take(defs.len() as int) =~= defs@);
    out
}

/// Whether a module shows as enabled in the status: the profile enables it
/// or it is mandatory.
pub fn module_enabled(profile: &Profile, def: &ModuleDef) -> (r: bool)
    ensures
        r == (set_view(profile.modules@).contains(def.name@) || def.mandatory),
{
    let c = crate::sandbox_engine::runner::contains_name(&profile.modules, &def.name);
    proof {
        if c {
            assert(string_views(profile.modules@).contains(def.name@));
        }
    }
    c || def.mandatory
}

} // verus!
