//! The full `bwrap` command line of a run, the paths it exposes, and how its
//! end is reported.
//!
//! The caller does the outside work around these decisions: it gathers the
//! host facts ([`HostView`]), loads the configuration files, starts the
//! filtering proxy for `--net=allow`, runs `bwrap` with the arguments
//! planned here, and hands the exit status back to [`finalize_execution`].

use vstd::prelude::*;
use crate::config::{LionConfig, MountEntry, access_is_ro, resolve_home};
use crate::host::{HostView, env_var, path_executable, path_exists};
use crate::errors::LionError;
use crate::optional_modules::{ExpansionEnd, ModuleMount, OptionalModule, OptionalModulesConfig, ends_within, expanded, expansion_finishes, expansion_outcome, lemma_ends_within_finishes, resolve_vars};
use crate::sandbox_engine::builder::{base_args, bind_if_exists, build_bwrap, network_args, push_bind, push_bind_if_exists, push_ro_bind_if_exists, ro_bind_if_exists};
use crate::sandbox_engine::environment::{apply_environment, environment_args, push_setenv_from_host, setenv_from_host};
use crate::sandbox_engine::mounts::{apply_system_mounts, system_mount_args};
use crate::sandbox_engine::network::NetworkMode;
use crate::text::{chars_eq_str, chars_of, dec_nat, push_arg, push_args, push_str, push_string, string_of, string_views, u64_to_chars};

verus! {

/// What the command line of `lion run` asks for.
pub struct RunRequest {
    /// The program and its arguments.
    pub cmd: Vec<String>,
    pub network_mode: NetworkMode,
    /// Extra host paths to bind read-only (`--ro`).
    pub ro_paths: Vec<String>,
    /// Modules activated for this run (`--optional`).
    pub optional_names: Vec<String>,
    /// The project directory: where `lion run` was started.
    pub project_path: String,
}

// ── The src/ overlay ────────────────────────────────────────────────────────

pub open spec fn src_path(project: Seq<char>) -> Seq<char> {
    project + "/src"@
}

/// Whether `src/` gets a read-only bind over a read-write project.
pub open spec fn src_overlaid(project: Seq<char>, project_ro: bool, src_ro: bool, h: HostView) -> bool {
    !project_ro && src_ro && path_exists(h, src_path(project))
}

pub open spec fn src_overlay_args(
    project: Seq<char>,
    project_ro: bool,
    src_ro: bool,
    h: HostView,
) -> Seq<Seq<char>> {
    if src_overlaid(project, project_ro, src_ro, h) {
        seq!["--ro-bind"@, src_path(project), src_path(project)]
    } else {
        seq![]
    }
}

fn make_src_path(project: &str) -> (r: String)
    ensures
        r@ == src_path(project@),
{
    let mut v = chars_of(project);
    push_str(&mut v, "/src");
    string_of(v.as_slice())
}

// ── `[[mount]]` entries ─────────────────────────────────────────────────────

/// The host path of a `[[mount]]` entry.
pub open spec fn entry_host_path(m: MountEntry, h: HostView) -> Seq<char> {
    resolve_home(m.path@, env_var(h, "HOME"@))
}

/// The bind of one `[[mount]]` entry, when its path exists.
pub open spec fn entry_args(m: MountEntry, h: HostView) -> Seq<Seq<char>> {
    let p = entry_host_path(m, h);
    if path_exists(h, p) {
        seq![if access_is_ro(m.access@) { "--ro-bind"@ } else { "--bind"@ }, p, p]
    } else {
        seq![]
    }
}

pub open spec fn config_mount_args(ms: Seq<MountEntry>, h: HostView) -> Seq<Seq<char>>
    decreases ms.len(),
{
    if ms.len() == 0 {
        seq![]
    } else {
        config_mount_args(ms.drop_last(), h) + entry_args(ms.last(), h)
    }
}

fn opt_str(o: &Option<String>) -> (r: Option<&str>)
    ensures
        match o {
            Some(s) => r is Some && r->0@ == s@,
            None => r is None,
        },
{
    match o {
        Some(s) => Some(s.as_str()),
        None => None,
    }
}

/// Appends the binds of the `[[mount]]` entries whose paths exist.
pub fn push_config_mounts(args: &mut Vec<String>, mounts: &Vec<MountEntry>, host: &HostView)
    ensures
        string_views(final(args)@) == string_views(old(args)@) + config_mount_args(mounts@, *host),
{
    let home = host.var("HOME");
    let ghost before = string_views(args@);
    let mut i: usize = 0;
    while i < mounts.len()
        invariant
            i <= mounts.len(),
            match home {
                Some(h) => env_var(*host, "HOME"@) == Some(h@),
                None => env_var(*host, "HOME"@) is None,
            },
            string_views(args@) == before + config_mount_args(mounts@.take(i as int), *host),
        decreases mounts.len() - i,
    {
        let m = &mounts[i];
        let p = m.resolved_path(opt_str(&home));
        let ghost mid = string_views(args@);
        if host.has_path(p.as_str()) {
            if m.is_readonly() {
                push_bind(args, "--ro-bind", p.as_str());
            } else {
                push_bind(args, "--bind", p.as_str());
            }
        }
        proof {
            assert(mounts@.take(i + 1).drop_last() =~= mounts@.take(i as int));
            assert(string_views(args@) =~= mid + entry_args(mounts@[i as int], *host));
        }
        i += 1;
    }
    proof {
        assert(mounts@.take(mounts.len() as int) =~= mounts@);
    }
}

// ── `--ro` paths ────────────────────────────────────────────────────────────

pub open spec fn ro_path_args(ps: Seq<Seq<char>>, h: HostView) -> Seq<Seq<char>>
    decreases ps.len(),
{
    if ps.len() == 0 {
        seq![]
    } else {
        ro_path_args(ps.drop_last(), h) + ro_bind_if_exists(h, ps.last())
    }
}

/// Appends a read-only bind of each `--ro` path that exists.
pub fn push_ro_paths(args: &mut Vec<String>, paths: &Vec<String>, host: &HostView)
    ensures
        string_views(final(args)@) == string_views(old(args)@) + ro_path_args(
            string_views(paths@),
            *host,
        ),
{
    let ghost before = string_views(args@);
    let ghost ps = string_views(paths@);
    let mut i: usize = 0;
    while i < paths.len()
        invariant
            i <= paths.len(),
            ps == string_views(paths@),
            string_views(args@) == before + ro_path_args(ps.take(i as int), *host),
        decreases paths.len() - i,
    {
        let ghost mid = string_views(args@);
        push_ro_bind_if_exists(args, host, paths[i].as_str());
        proof {
            assert(ps.take(i + 1).drop_last() =~= ps.take(i as int));
            assert(ps.take(i + 1).last() == paths@[i as int]@);
            assert(string_views(args@) =~= mid + ro_bind_if_exists(*host, paths@[i as int]@));
        }
        i += 1;
    }
    proof {
        assert(ps.take(paths.len() as int) =~= ps);
    }
}


// ── Optional modules ────────────────────────────────────────────────────────

/// Whether a saved module takes part in the run: enabled in `saved.toml`,
/// or asked for with `--optional`.
pub open spec fn is_active(m: OptionalModule, requested: Seq<Seq<char>>) -> bool {
    m.state == 1 || requested.contains(m.name@)
}

/// The bind flag of a module mount mode.
pub open spec fn mount_flag(mode: Seq<char>) -> Seq<char> {
    if mode == "rw"@ || mode == "bind"@ {
        "--bind"@
    } else if mode == "dev"@ || mode == "dev-bind"@ {
        "--dev-bind"@
    } else {
        "--ro-bind"@
    }
}

pub open spec fn module_mount_args(ms: Seq<ModuleMount>, h: HostView) -> Seq<Seq<char>>
    decreases ms.len(),
{
    if ms.len() == 0 {
        seq![]
    } else {
        let mm = ms.last();
        let src = expanded(mm.src@, h.env@);
        let dst = expanded(mm.dst@, h.env@);
        module_mount_args(ms.drop_last(), h) + if path_exists(h, src) {
            seq![mount_flag(mm.mode@), src, dst]
        } else {
            seq![]
        }
    }
}

pub open spec fn module_path_args(m: OptionalModule, h: HostView) -> Seq<Seq<char>> {
    match m.path {
        Some(p) => bind_if_exists(h, expanded(p@, h.env@)),
        None => seq![],
    }
}

pub open spec fn module_env_args(vars: Seq<String>, h: HostView) -> Seq<Seq<char>>
    decreases vars.len(),
{
    if vars.len() == 0 {
        seq![]
    } else {
        module_env_args(vars.drop_last(), h) + setenv_from_host(h, vars.last()@)
    }
}

/// The arguments of one active module: its mounts whose host paths exist,
/// its single path when it exists, and its forwarded variables that are set.
pub open spec fn module_args(m: OptionalModule, h: HostView) -> Seq<Seq<char>> {
    module_mount_args(m.mounts@, h) + module_path_args(m, h) + module_env_args(m.env@, h)
}

pub open spec fn modules_args(mods: Seq<OptionalModule>, requested: Seq<Seq<char>>, h: HostView) -> Seq<Seq<char>>
    decreases mods.len(),
{
    if mods.len() == 0 {
        seq![]
    } else {
        modules_args(mods.drop_last(), requested, h) + if is_active(mods.last(), requested) {
            module_args(mods.last(), h)
        } else {
            seq![]
        }
    }
}

/// The names of the active modules, in order.
pub open spec fn active_names(mods: Seq<OptionalModule>, requested: Seq<Seq<char>>) -> Seq<Seq<char>>
    decreases mods.len(),
{
    if mods.len() == 0 {
        seq![]
    } else {
        active_names(mods.drop_last(), requested) + if is_active(mods.last(), requested) {
            seq![mods.last().name@]
        } else {
            seq![]
        }
    }
}

/// The `${VAR}` expansion of every path of `m` comes to an end.
pub open spec fn module_expands(m: OptionalModule, env: Seq<crate::host::EnvVar>) -> bool {
    &&& forall|k: int|
        0 <= k < m.mounts@.len() ==> expansion_finishes(#[trigger] m.mounts@[k].src@, env)
            && expansion_finishes(m.mounts@[k].dst@, env)
    &&& match m.path {
        Some(p) => expansion_finishes(p@, env),
        None => true,
    }
}

/// The expansion of every path of every active module comes to an end.
pub open spec fn active_modules_expand(
    mods: Seq<OptionalModule>,
    requested: Seq<Seq<char>>,
    env: Seq<crate::host::EnvVar>,
) -> bool {
    forall|i: int| 0 <= i < mods.len() && is_active(#[trigger] mods[i], requested) ==> module_expands(mods[i], env)
}

/// Every path of `m` expands within `fuel` steps.
pub open spec fn module_ends_within(m: OptionalModule, env: Seq<crate::host::EnvVar>, fuel: nat) -> bool {
    &&& forall|k: int|
        0 <= k < m.mounts@.len() ==> ends_within(#[trigger] m.mounts@[k].src@, env, fuel)
            && ends_within(m.mounts@[k].dst@, env, fuel)
    &&& match m.path {
        Some(p) => ends_within(p@, env, fuel),
        None => true,
    }
}

/// Every path of every active module expands within `fuel` steps.
pub open spec fn active_modules_end_within(
    mods: Seq<OptionalModule>,
    requested: Seq<Seq<char>>,
    env: Seq<crate::host::EnvVar>,
    fuel: nat,
) -> bool {
    forall|i: int|
        0 <= i < mods.len() && is_active(#[trigger] mods[i], requested) ==> module_ends_within(mods[i], env, fuel)
}

/// What the outcome of one path says of its expansion.
pub open spec fn outcome_holds(r: ExpansionEnd, s: Seq<char>, env: Seq<crate::host::EnvVar>) -> bool {
    match r {
        ExpansionEnd::Ends => expansion_finishes(s, env),
        ExpansionEnd::Cycles => !expansion_finishes(s, env) && !ends_within(s, env, usize::MAX as nat),
        ExpansionEnd::GivenUp => !ends_within(s, env, usize::MAX as nat),
    }
}

fn path_outcome(path: &String, env: &Vec<crate::host::EnvVar>) -> (r: ExpansionEnd)
    ensures
        outcome_holds(r, path@, env@),
{
    let r = expansion_outcome(path.as_str(), env);
    proof {
        if r == ExpansionEnd::Cycles && ends_within(path@, env@, usize::MAX as nat) {
            lemma_ends_within_finishes(path@, env@, usize::MAX as nat);
        }
    }
    r
}

/// What the outcome of a module, or of all active modules, says of them.
pub open spec fn modules_outcome_holds(r: ExpansionEnd, expands: bool, ends_within_bound: bool) -> bool {
    match r {
        ExpansionEnd::Ends => expands,
        ExpansionEnd::Cycles => !expands && !ends_within_bound,
        ExpansionEnd::GivenUp => !ends_within_bound,
    }
}

fn module_outcome(m: &OptionalModule, env: &Vec<crate::host::EnvVar>) -> (r: ExpansionEnd)
    ensures
        modules_outcome_holds(r, module_expands(*m, env@), module_ends_within(*m, env@, usize::MAX as nat)),
{
    let mut i: usize = 0;
    while i < m.mounts.len()
        invariant
            i <= m.mounts@.len(),
            forall|k: int|
                0 <= k < i ==> expansion_finishes(#[trigger] m.mounts@[k].src@, env@)
                    && expansion_finishes(m.mounts@[k].dst@, env@),
        decreases m.mounts@.len() - i,
    {
        let a = path_outcome(&m.mounts[i].src, env);
        if a != ExpansionEnd::Ends {
            return a;
        }
        let b = path_outcome(&m.mounts[i].dst, env);
        if b != ExpansionEnd::Ends {
            return b;
        }
        i += 1;
    }
    let r = match &m.path {
        Some(p) => path_outcome(p, env),
        None => ExpansionEnd::Ends,
    };
    proof {
        assert(forall|k: int|
            0 <= k < m.mounts@.len() ==> expansion_finishes(#[trigger] m.mounts@[k].src@, env@)
                && expansion_finishes(m.mounts@[k].dst@, env@));
        if r == ExpansionEnd::Ends {
            assert(module_expands(*m, env@));
        }
    }
    r
}

/// Follows the expansion of every path of every module active for
/// `requested` (enabled in the file or asked for by name): `Ends` when all
/// end; else the outcome of the first path that does not.
pub fn modules_outcome(
    modules: &OptionalModulesConfig,
    requested: &Vec<String>,
    env: &Vec<crate::host::EnvVar>,
) -> (r: ExpansionEnd)
    ensures
        modules_outcome_holds(
            r,
            active_modules_expand(modules.modules@, string_views(requested@), env@),
            active_modules_end_within(modules.modules@, string_views(requested@), env@, usize::MAX as nat),
        ),
{
    let mods = &modules.modules;
    let ghost req = string_views(requested@);
    let mut i: usize = 0;
    while i < mods.len()
        invariant
            i <= mods@.len(),
            mods@ == modules.modules@,
            req == string_views(requested@),
            forall|j: int|
                0 <= j < i && is_active(#[trigger] mods@[j], req) ==> module_expands(mods@[j], env@),
        decreases mods@.len() - i,
    {
        let m = &mods[i];
        if m.state == 1 || contains_name(requested, &m.name) {
            let o = module_outcome(m, env);
            if o != ExpansionEnd::Ends {
                proof {
                    assert(is_active(mods@[i as int], req));
                }
                return o;
            }
        }
        i += 1;
    }
    ExpansionEnd::Ends
}

/// The first check of a run: `bwrap_ok` says whether `bwrap --version`
/// answered; when it did not, bubblewrap is a missing dependency.
pub fn require_bwrap(bwrap_ok: bool) -> (r: Result<(), LionError>)
    ensures
        bwrap_ok <==> r is Ok,
        !bwrap_ok ==> (r matches Err(LionError::DependencyMissing(s)) && s@ == "bubblewrap (bwrap)"@),
{
    if bwrap_ok {
        Ok(())
    } else {
        Err(LionError::DependencyMissing(String::from_str("bubblewrap (bwrap)")))
    }
}

/// The message of a run refused because the expansion of a module path
/// comes back to a string it already reached, and so never ends.
pub open spec fn endless_expansion_message() -> Seq<char> {
    "the ${VAR} expansion of a path of an active module never ends: it comes back to a string it already reached"@
}

/// The message of a run refused because the expansion of a module path
/// went on for as many steps as a `usize` counts.
pub open spec fn given_up_expansion_message() -> Seq<char> {
    "the ${VAR} expansion of a path of an active module did not end within usize::MAX steps"@
}

/// The errors of a module path check, and when they come.
pub open spec fn expansion_check(
    r: Result<(), LionError>,
    mods: Seq<OptionalModule>,
    requested: Seq<Seq<char>>,
    env: Seq<crate::host::EnvVar>,
) -> bool {
    &&& r is Ok ==> active_modules_expand(mods, requested, env)
    &&& active_modules_end_within(mods, requested, env, usize::MAX as nat) ==> r is Ok
    &&& r matches Err(e) ==> ({
        ||| !active_modules_expand(mods, requested, env)
            && (e matches LionError::EnvironmentError(m) && m@ == endless_expansion_message())
        ||| !active_modules_end_within(mods, requested, env, usize::MAX as nat)
            && (e matches LionError::EnvironmentError(m) && m@ == given_up_expansion_message())
    })
}

/// Checks that the expansion of every path of every module active for
/// `requested` ends, as `plan_run` needs: an `EnvironmentError` when one
/// comes back to a string it already reached (it never ends), or runs for
/// as many steps as a `usize` counts.
pub fn check_module_expansion(
    modules: &OptionalModulesConfig,
    requested: &Vec<String>,
    env: &Vec<crate::host::EnvVar>,
) -> (r: Result<(), LionError>)
    ensures
        expansion_check(r, modules.modules@, string_views(requested@), env@),
{
    match modules_outcome(modules, requested, env) {
        ExpansionEnd::Ends => Ok(()),
        ExpansionEnd::Cycles => {
            let msg = "the ${VAR} expansion of a path of an active module never ends: it comes back to a string it already reached";
            Err(LionError::EnvironmentError(String::from_str(msg)))
        },
        ExpansionEnd::GivenUp => {
            let msg = "the ${VAR} expansion of a path of an active module did not end within usize::MAX steps";
            Err(LionError::EnvironmentError(String::from_str(msg)))
        },
    }
}

/// Plans a run as `plan_run` does, once `check_module_expansion` has found
/// that every path of every active module finishes expanding; its error
/// when not.
pub fn plan_run_checked(
    req: &RunRequest,
    cfg: &LionConfig,
    modules: &OptionalModulesConfig,
    host: &HostView,
    proxy_port: Option<u16>,
) -> (r: Result<RunPlan, LionError>)
    ensures
        expansion_check(
            match r {
                Ok(_) => Ok(()),
                Err(e) => Err(e),
            },
            modules.modules@,
            string_views(req.optional_names@),
            host.env@,
        ),
        r matches Ok(p) ==> {
            &&& string_views(p.args@) == run_args(*req, *cfg, modules.modules@, *host, proxy_port)
            &&& string_views(p.active_modules@) == active_names(
                modules.modules@,
                string_views(req.optional_names@),
            )
        },
{
    match check_module_expansion(modules, &req.optional_names, &host.env) {
        Ok(()) => Ok(plan_run(req, cfg, modules, host, proxy_port)),
        Err(e) => Err(e),
    }
}

fn flag_for_mode(mode: &String) -> (r: &'static str)
    ensures
        r@ == mount_flag(mode@),
{
    let v = chars_of(mode.as_str());
    if chars_eq_str(&v, "rw") || chars_eq_str(&v, "bind") {
        "--bind"
    } else if chars_eq_str(&v, "dev") || chars_eq_str(&v, "dev-bind") {
        "--dev-bind"
    } else {
        "--ro-bind"
    }
}

fn push_module_mounts(args: &mut Vec<String>, m: &OptionalModule, host: &HostView)
    requires
        module_expands(*m, host.env@),
    ensures
        string_views(final(args)@) == string_views(old(args)@) + module_mount_args(m.mounts@, *host),
{
    let ghost before = string_views(args@);
    let mut i: usize = 0;
    while i < m.mounts.len()
        invariant
            i <= m.mounts.len(),
            module_expands(*m, host.env@),
            string_views(args@) == before + module_mount_args(m.mounts@.take(i as int), *host),
        decreases m.mounts.len() - i,
    {
        let mm = &m.mounts[i];
        proof {
            assert(expansion_finishes(m.mounts@[i as int].src@, host.env@));
        }
        let src = resolve_vars(mm.src.as_str(), &host.env);
        let dst = resolve_vars(mm.dst.as_str(), &host.env);
        let ghost mid = string_views(args@);
        if host.has_path(src.as_str()) {
            let flag = flag_for_mode(&mm.mode);
            push_arg(args, flag);
            push_string(args, src);
            push_string(args, dst);
        }
        proof {
            let t = m.mounts@.take(i + 1);
            assert(t.drop_last() =~= m.mounts@.take(i as int));
            assert(t.last() == m.mounts@[i as int]);
            assert(string_views(args@) =~= mid + (if path_exists(*host, expanded(mm.src@, host.env@)) {
                seq![mount_flag(mm.mode@), expanded(mm.src@, host.env@), expanded(mm.dst@, host.env@)]
            } else {
                Seq::<Seq<char>>::empty()
            }));
        }
        i += 1;
    }
    proof {
        assert(m.mounts@.take(m.mounts.len() as int) =~= m.mounts@);
    }
}

fn push_module_env(args: &mut Vec<String>, vars: &Vec<String>, host: &HostView)
    ensures
        string_views(final(args)@) == string_views(old(args)@) + module_env_args(vars@, *host),
{
    let ghost before = string_views(args@);
    let mut i: usize = 0;
    while i < vars.len()
        invariant
            i <= vars.len(),
            string_views(args@) == before + module_env_args(vars@.take(i as int), *host),
        decreases vars.len() - i,
    {
        let ghost mid = string_views(args@);
        push_setenv_from_host(args, host, vars[i].as_str());
        proof {
            let t = vars@.take(i + 1);
            assert(t.drop_last() =~= vars@.take(i as int));
            assert(t.last() == vars@[i as int]);
            assert(string_views(args@) =~= mid + setenv_from_host(*host, vars@[i as int]@));
        }
        i += 1;
    }
    proof {
        assert(vars@.take(vars.len() as int) =~= vars@);
    }
}

/// Appends the arguments of one active module.
pub fn push_module(args: &mut Vec<String>, m: &OptionalModule, host: &HostView)
    requires
        module_expands(*m, host.env@),
    ensures
        string_views(final(args)@) == string_views(old(args)@) + module_args(*m, *host),
{
    let ghost before = string_views(args@);
    push_module_mounts(args, m, host);
    let ghost mid = string_views(args@);
    match &m.path {
        Some(p) => {
            let r = resolve_vars(p.as_str(), &host.env);
            push_bind_if_exists(args, host, r.as_str());
        },
        None => {},
    }
    proof {
        assert(string_views(args@) =~= mid + module_path_args(*m, *host));
    }
    push_module_env(args, &m.env, host);
    proof {
        assert(string_views(args@) =~= before + module_args(*m, *host));
    }
}

/// Whether `name` is one of `names`.
pub fn contains_name(names: &Vec<String>, name: &String) -> (r: bool)
    ensures
        r == string_views(names@).contains(name@),
{
    let mut i: usize = 0;
    while i < names.len()
        invariant
            i <= names.len(),
            forall|k: int| 0 <= k < i ==> names@[k]@ != name@,
        decreases names.len() - i,
    {
        if names[i] == *name {
            proof {
                assert(string_views(names@)[i as int] == name@);
            }
            return true;
        }
        i += 1;
    }
    proof {
        if string_views(names@).contains(name@) {
            let k = choose|k: int| 0 <= k < string_views(names@).len() && #[trigger] string_views(names@)[k] == name@;
            assert(names@[k]@ == name@);
        }
    }
    false
}

/// Appends the arguments of every active module and returns the names of
/// the active modules.
pub fn push_modules(
    args: &mut Vec<String>,
    modules: &OptionalModulesConfig,
    requested: &Vec<String>,
    host: &HostView,
) -> (active: Vec<String>)
    requires
        active_modules_expand(modules.modules@, string_views(requested@), host.env@),
    ensures
        string_views(final(args)@) == string_views(old(args)@) + modules_args(
            modules.modules@,
            string_views(requested@),
            *host,
        ),
        string_views(active@) == active_names(modules.modules@, string_views(requested@)),
{
    let ghost before = string_views(args@);
    let ghost req = string_views(requested@);
    let mods = &modules.modules;
    let mut active: Vec<String> = Vec::new();
    let mut i: usize = 0;
    while i < mods.len()
        invariant
            i <= mods.len(),
            mods == &modules.modules,
            req == string_views(requested@),
            active_modules_expand(mods@, req, host.env@),
            string_views(args@) == before + modules_args(mods@.take(i as int), req, *host),
            string_views(active@) == active_names(mods@.take(i as int), req),
        decreases mods.len() - i,
    {
        let m = &mods[i];
        let ghost mid = string_views(args@);
        let ghost mid_active = string_views(active@);
        let on = m.state == 1 || contains_name(requested, &m.name);
        if on {
            proof {
                assert(is_active(mods@[i as int], req));
            }
            push_module(args, m, host);
            push_string(&mut active, m.name.clone());
        }
        proof {
            let t = mods@.take(i + 1);
            assert(t.drop_last() =~= mods@.take(i as int));
            assert(t.last() == mods@[i as int]);
            assert(string_views(args@) =~= mid + (if is_active(mods@[i as int], req) {
                module_args(mods@[i as int], *host)
            } else {
                Seq::<Seq<char>>::empty()
            }));
            assert(string_views(active@) =~= mid_active + (if is_active(mods@[i as int], req) {
                seq![mods@[i as int].name@]
            } else {
                Seq::<Seq<char>>::empty()
            }));
        }
        i += 1;
    }
    proof {
        assert(mods@.take(mods.len() as int) =~= mods@);
    }
    active
}


// ── Proxy and command ───────────────────────────────────────────────────────

/// The address of the filtering proxy listening on `port`.
pub open spec fn proxy_url(port: u16) -> Seq<char> {
    "http://127.0.0.1:"@ + dec_nat(port as nat)
}

/// The proxy variables that point HTTP clients, npm and pip at `url`.
pub open spec fn proxy_env_args(url: Seq<char>) -> Seq<Seq<char>> {
    seq![
        "--setenv"@, "HTTP_PROXY"@, url,
        "--setenv"@, "HTTPS_PROXY"@, url,
        "--setenv"@, "http_proxy"@, url,
        "--setenv"@, "https_proxy"@, url,
        "--setenv"@, "ALL_PROXY"@, url,
        "--setenv"@, "all_proxy"@, url,
        "--setenv"@, "npm_config_proxy"@, url,
        "--setenv"@, "npm_config_https_proxy"@, url,
        "--setenv"@, "PIP_PROXY"@, url,
    ]
}

/// The proxy variables, for `--net=allow` when the proxy started.
pub open spec fn proxy_args(mode: NetworkMode, port: Option<u16>) -> Seq<Seq<char>> {
    match (mode, port) {
        (NetworkMode::Allow, Some(p)) => proxy_env_args(proxy_url(p)),
        _ => seq![],
    }
}

/// The address of the filtering proxy listening on `port`.
pub fn make_proxy_url(port: u16) -> (r: String)
    ensures
        r@ == proxy_url(port),
{
    let mut v = chars_of("http://127.0.0.1:");
    let d = u64_to_chars(port as u64);
    crate::text::push_all(&mut v, &d);
    string_of(v.as_slice())
}

fn push_setenv(args: &mut Vec<String>, name: &str, value: &str)
    ensures
        string_views(final(args)@) == string_views(old(args)@) + seq!["--setenv"@, name@, value@],
{
    let ghost before = string_views(args@);
    push_arg(args, "--setenv");
    push_arg(args, name);
    push_arg(args, value);
    assert(string_views(args@) =~= before + seq!["--setenv"@, name@, value@]);
}

/// Appends the proxy variables pointing at `url`.
pub fn push_proxy_env(args: &mut Vec<String>, url: &str)
    ensures
        string_views(final(args)@) == string_views(old(args)@) + proxy_env_args(url@),
{
    let ghost before = string_views(args@);
    push_setenv(args, "HTTP_PROXY", url);
    push_setenv(args, "HTTPS_PROXY", url);
    push_setenv(args, "http_proxy", url);
    push_setenv(args, "https_proxy", url);
    push_setenv(args, "ALL_PROXY", url);
    push_setenv(args, "all_proxy", url);
    push_setenv(args, "npm_config_proxy", url);
    push_setenv(args, "npm_config_https_proxy", url);
    push_setenv(args, "PIP_PROXY", url);
    assert(string_views(args@) =~= before + proxy_env_args(url@));
}

/// The end of the command line: the working directory, then the command.
pub open spec fn command_args(project: Seq<char>, cmd: Seq<Seq<char>>) -> Seq<Seq<char>> {
    seq!["--chdir"@, project, "--"@] + cmd
}

/// A copy of a list of strings.
pub fn clone_strings(v: &Vec<String>) -> (r: Vec<String>)
    ensures
        string_views(r@) == string_views(v@),
{
    let mut r: Vec<String> = Vec::new();
    let mut i: usize = 0;
    while i < v.len()
        invariant
            i <= v.len(),
            string_views(r@) == string_views(v@.take(i as int)),
        decreases v.len() - i,
    {
        push_string(&mut r, v[i].clone());
        proof {
            assert(string_views(v@.take(i + 1)) =~= string_views(v@.take(i as int)).push(v@[i as int]@));
        }
        i += 1;
    }
    proof {
        assert(v@.take(v.len() as int) =~= v@);
    }
    r
}

// ── The whole command line ──────────────────────────────────────────────────

/// The `bwrap` arguments of a run, in order: isolation and project
/// directory, network profile, system mounts, the `src/` overlay, the
/// `[[mount]]` entries, the `--ro` paths, the environment, the active
/// modules, the proxy variables, then the working directory and command.
pub open spec fn run_args(
    req: RunRequest,
    cfg: LionConfig,
    mods: Seq<OptionalModule>,
    h: HostView,
    proxy_port: Option<u16>,
) -> Seq<Seq<char>> {
    let project = req.project_path@;
    let pro = access_is_ro(cfg.sandbox.project_access@);
    let sro = access_is_ro(cfg.sandbox.src_access@);
    base_args(project, pro) + network_args(req.network_mode, h) + system_mount_args(h)
        + src_overlay_args(project, pro, sro, h) + config_mount_args(cfg.mount@, h) + ro_path_args(
        string_views(req.ro_paths@),
        h,
    ) + environment_args(false, h) + modules_args(mods, string_views(req.optional_names@), h)
        + proxy_args(req.network_mode, proxy_port) + command_args(project, string_views(req.cmd@))
}

/// The command line of a run and the modules it activates.
pub struct RunPlan {
    /// The arguments of `bwrap`.
    pub args: Vec<String>,
    /// The names of the active modules, in the order of `saved.toml`.
    pub active_modules: Vec<String>,
}

/// Plans a run: the `bwrap` arguments for the request, the merged
/// configuration and the saved modules, on a host described by `host`.
/// `proxy_port` is the port of the filtering proxy when it was started for
/// `--net=allow`.
pub fn plan_run(
    req: &RunRequest,
    cfg: &LionConfig,
    modules: &OptionalModulesConfig,
    host: &HostView,
    proxy_port: Option<u16>,
) -> (r: RunPlan)
    requires
        active_modules_expand(modules.modules@, string_views(req.optional_names@), host.env@),
    ensures
        string_views(r.args@) == run_args(*req, *cfg, modules.modules@, *host, proxy_port),
        string_views(r.active_modules@) == active_names(
            modules.modules@,
            string_views(req.optional_names@),
        ),
{
    let project_ro = cfg.project_is_readonly();
    let src_ro = cfg.src_is_readonly();
    let mut args = build_bwrap(req.project_path.as_str(), req.network_mode, project_ro, host);
    apply_system_mounts(&mut args, host);
    let sp = make_src_path(req.project_path.as_str());
    let ghost a1 = string_views(args@);
    if !project_ro && src_ro && host.has_path(sp.as_str()) {
        push_bind(&mut args, "--ro-bind", sp.as_str());
    }
    proof {
        assert(string_views(args@) =~= a1 + src_overlay_args(req.project_path@, project_ro, src_ro, *host));
    }
    push_config_mounts(&mut args, &cfg.mount, host);
    push_ro_paths(&mut args, &req.ro_paths, host);
    apply_environment(&mut args, false, host);
    let active = push_modules(&mut args, modules, &req.optional_names, host);
    let ghost a2 = string_views(args@);
    match (req.network_mode, proxy_port) {
        (NetworkMode::Allow, Some(port)) => {
            let url = make_proxy_url(port);
            push_proxy_env(&mut args, url.as_str());
        },
        _ => {},
    }
    proof {
        assert(string_views(args@) =~= a2 + proxy_args(req.network_mode, proxy_port));
    }
    let ghost a3 = string_views(args@);
    push_arg(&mut args, "--chdir");
    push_arg(&mut args, req.project_path.as_str());
    push_arg(&mut args, "--");
    let cmd = clone_strings(&req.cmd);
    push_args(&mut args, cmd);
    proof {
        assert(string_views(args@) =~= a3 + command_args(req.project_path@, string_views(req.cmd@)));
        assert(string_views(args@) =~= run_args(*req, *cfg, modules.modules@, *host, proxy_port));
    }
    RunPlan { args, active_modules: active }
}


// ── The end of a run ────────────────────────────────────────────────────────

/// `PathBuf::join` of a directory and a relative file name.
pub open spec fn path_join(dir: Seq<char>, name: Seq<char>) -> Seq<char> {
    if dir.len() == 0 {
        name
    } else if dir.last() == '/' {
        dir + name
    } else {
        dir + "/"@ + name
    }
}

/// The paths where a program name is looked for: the name itself when it
/// holds a `/`, else the name in each directory of `PATH`.
pub open spec fn binary_candidates_spec(name: Seq<char>, path_var: Option<Seq<char>>) -> Seq<Seq<char>> {
    if crate::text::has_sub(name, "/"@) {
        seq![name]
    } else {
        match path_var {
            Some(pv) => crate::text::split_on(pv, ':').map_values(|d: Seq<char>| path_join(d, name)),
            None => seq![],
        }
    }
}

/// The first of `cands` that exists.
pub open spec fn first_existing(cands: Seq<Seq<char>>, h: HostView) -> Option<Seq<char>>
    decreases cands.len(),
{
    if cands.len() == 0 {
        None
    } else if path_exists(h, cands[0]) {
        Some(cands[0])
    } else {
        first_existing(cands.drop_first(), h)
    }
}

/// Where a program is found: the first existing candidate.
pub open spec fn find_binary_spec(name: Seq<char>, h: HostView) -> Option<Seq<char>> {
    first_existing(binary_candidates_spec(name, env_var(h, "PATH"@)), h)
}

fn join_path(dir: &Vec<char>, name: &Vec<char>) -> (r: Vec<char>)
    ensures
        r@ == path_join(dir@, name@),
{
    let mut v = crate::text::slice_chars(dir, 0, dir.len());
    assert(v@ =~= dir@);
    if dir.len() == 0 {
        return crate::text::slice_chars(name, 0, name.len());
    }
    if dir[dir.len() - 1] != '/' {
        push_str(&mut v, "/");
    }
    crate::text::push_all(&mut v, name);
    v
}

/// The paths where `name` is looked for, given the value of `PATH`.
pub fn binary_candidates(name: &str, path_var: Option<&str>) -> (r: Vec<String>)
    ensures
        string_views(r@) == binary_candidates_spec(name@, match path_var {
            Some(p) => Some(p@),
            None => None,
        }),
{
    let nv = chars_of(name);
    let mut r: Vec<String> = Vec::new();
    if crate::text::contains_str(&nv, "/") {
        push_string(&mut r, String::from_str(name));
        assert(string_views(r@) =~= seq![name@]);
        return r;
    }
    match path_var {
        None => {
            assert(string_views(r@) =~= Seq::<Seq<char>>::empty());
            r
        },
        Some(pv) => {
            let pvc = chars_of(pv);
            let dirs = crate::text::split_on_char(&pvc, ':');
            let ghost target = crate::text::split_on(pv@, ':').map_values(
                |d: Seq<char>| path_join(d, name@),
            );
            let mut i: usize = 0;
            while i < dirs.len()
                invariant
                    i <= dirs.len(),
                    nv@ == name@,
                    crate::text::seq_views(dirs@) == crate::text::split_on(pv@, ':'),
                    target == crate::text::split_on(pv@, ':').map_values(
                        |d: Seq<char>| path_join(d, name@),
                    ),
                    string_views(r@) == target.take(i as int),
                decreases dirs.len() - i,
            {
                let j = join_path(&dirs[i], &nv);
                push_string(&mut r, string_of(j.as_slice()));
                proof {
                    assert(crate::text::seq_views(dirs@)[i as int] == dirs@[i as int]@);
                    assert(target.take(i + 1) =~= target.take(i as int).push(j@));
                }
                i += 1;
            }
            proof {
                assert(target.take(dirs.len() as int) =~= target);
            }
            r
        },
    }
}

/// `find_binary`: where the program `name` is found on the host, if
/// anywhere.
pub fn find_binary(name: &str, host: &HostView) -> (r: Option<String>)
    ensures
        match r {
            Some(p) => find_binary_spec(name@, *host) == Some(p@),
            None => find_binary_spec(name@, *host) is None,
        },
{
    let path_var = host.var("PATH");
    let pv = opt_str(&path_var);
    let cands = binary_candidates(name, pv);
    let ghost cv = string_views(cands@);
    proof {
        let m: Option<Seq<char>> = match pv {
            Some(p) => Some(p@),
            None => None,
        };
        assert(m == env_var(*host, "PATH"@));
        assert(cv == binary_candidates_spec(name@, env_var(*host, "PATH"@)));
    }
    let mut i: usize = 0;
    assert(cv.skip(0) =~= cv);
    while i < cands.len()
        invariant
            i <= cands.len(),
            cv == string_views(cands@),
            cv == binary_candidates_spec(name@, env_var(*host, "PATH"@)),
            first_existing(cv, *host) == first_existing(cv.skip(i as int), *host),
        decreases cands.len() - i,
    {
        proof {
            assert(cv.skip(i as int).drop_first() =~= cv.skip(i + 1));
            assert(cv.skip(i as int)[0] == cands@[i as int]@);
        }
        if host.has_path(cands[i].as_str()) {
            proof {
                assert(cv.skip(i as int).len() > 0);
                assert(first_existing(cv.skip(i as int), *host) == Some(cands@[i as int]@));
            }
            return Some(cands[i].clone());
        }
        i += 1;
    }
    None
}

/// Whether the sandbox counts as finished although `bwrap` has not exited:
/// its leader is gone and nothing but `bwrap` is left in its tree.
pub fn sandbox_finished(leader_alive: bool, tree_size: usize) -> (r: bool)
    ensures
        r == (!leader_alive && tree_size <= 1),
{
    !leader_alive && tree_size <= 1
}

/// How a run that ended is reported.
pub enum RunOutcome {
    Success,
    /// The program could not be found.
    NotFound,
    /// The program was found without an execute bit.
    NotExecutable,
    /// The program failed with this exit code.
    Failed(i32),
}

/// The outcome of a run.  A success is a success.  A failure with exit code
/// 1, 126 or 127 (no code counts as 1) whose program cannot be found, or is
/// found without an execute bit, is reported as such; any other failure
/// with its code.
pub open spec fn run_outcome(success: bool, code: Option<i32>, cmd: Seq<Seq<char>>, h: HostView) -> RunOutcome {
    if success {
        RunOutcome::Success
    } else {
        let c: i32 = match code {
            Some(c) => c,
            None => 1,
        };
        let program = run_program(cmd);
        if c == 1 || c == 126 || c == 127 {
            match find_binary_spec(program, h) {
                Some(p) => if !path_executable(h, p) {
                    RunOutcome::NotExecutable
                } else {
                    RunOutcome::Failed(c)
                },
                None => RunOutcome::NotFound,
            }
        } else {
            RunOutcome::Failed(c)
        }
    }
}

/// The program of a command, as errors name it.
pub open spec fn run_program(cmd: Seq<Seq<char>>) -> Seq<char> {
    if cmd.len() > 0 { cmd[0] } else { "unknown"@ }
}

/// Reports the end of a run from its exit status: `success`, and the exit
/// code when the process exited (`None` when a signal ended it).
pub fn finalize_execution(success: bool, code: Option<i32>, cmd: &Vec<String>, host: &HostView) -> (r: Result<(), LionError>)
    ensures
        match run_outcome(success, code, string_views(cmd@), *host) {
            RunOutcome::Success => r is Ok,
            RunOutcome::NotFound => r matches Err(LionError::CommandNotFound(p)) && p@ == run_program(
                string_views(cmd@),
            ),
            RunOutcome::NotExecutable => r matches Err(LionError::PermissionDenied(p)) && p@
                == run_program(string_views(cmd@)),
            RunOutcome::Failed(c) => r matches Err(LionError::ExecutionError(k)) && k == c,
        },
{
    if success {
        return Ok(());
    }
    let c: i32 = match code {
        Some(c) => c,
        None => 1,
    };
    let program = if cmd.len() > 0 { cmd[0].clone() } else { String::from_str("unknown") };
    proof {
        if cmd@.len() > 0 {
            assert(string_views(cmd@)[0] == cmd@[0]@);
        }
    }
    if c == 1 || c == 126 || c == 127 {
        match find_binary(program.as_str(), host) {
            Some(p) => {
                if !host.is_executable(p.as_str()) {
                    return Err(LionError::PermissionDenied(program));
                }
            },
            None => {
                return Err(LionError::CommandNotFound(program));
            },
        }
    }
    Err(LionError::ExecutionError(c))
}


// ── What the run exposes ────────────────────────────────────────────────────

/// A path with its access in brackets: `path (tag)`.
pub open spec fn labelled(p: Seq<char>, tag: Seq<char>) -> Seq<char> {
    p + " ("@ + tag + ")"@
}

/// The part of a label before its first ` (`.
pub open spec fn label_path(l: Seq<char>) -> Seq<char> {
    match crate::text::first_occ_from(l, " ("@, 0) {
        Some(k) => l.subrange(0, k),
        None => l,
    }
}

pub open spec fn access_tag(ro: bool) -> Seq<char> {
    if ro { "ro"@ } else { "rw"@ }
}

/// `labels` without those whose path is `p`.
pub open spec fn without_path(labels: Seq<Seq<char>>, p: Seq<char>) -> Seq<Seq<char>>
    decreases labels.len(),
{
    if labels.len() == 0 {
        seq![]
    } else {
        let r = without_path(labels.drop_last(), p);
        if label_path(labels.last()) == p {
            r
        } else {
            r.push(labels.last())
        }
    }
}

/// The labels after the `[[mount]]` entries: each existing entry replaces
/// the labels of its path.
pub open spec fn entry_labels(start: Seq<Seq<char>>, ms: Seq<MountEntry>, h: HostView) -> Seq<Seq<char>>
    decreases ms.len(),
{
    if ms.len() == 0 {
        start
    } else {
        let prev = entry_labels(start, ms.drop_last(), h);
        let m = ms.last();
        let p = entry_host_path(m, h);
        if path_exists(h, p) {
            without_path(prev, p).push(labelled(p, access_tag(access_is_ro(m.access@))))
        } else {
            prev
        }
    }
}

pub open spec fn ro_labels(ps: Seq<Seq<char>>, h: HostView) -> Seq<Seq<char>>
    decreases ps.len(),
{
    if ps.len() == 0 {
        seq![]
    } else {
        ro_labels(ps.drop_last(), h) + if path_exists(h, ps.last()) {
            seq![labelled(ps.last(), "ro"@)]
        } else {
            seq![]
        }
    }
}

pub open spec fn module_mount_labels(ms: Seq<ModuleMount>, h: HostView) -> Seq<Seq<char>>
    decreases ms.len(),
{
    if ms.len() == 0 {
        seq![]
    } else {
        let src = expanded(ms.last().src@, h.env@);
        module_mount_labels(ms.drop_last(), h) + if path_exists(h, src) {
            seq![labelled(src, ms.last().mode@)]
        } else {
            seq![]
        }
    }
}

pub open spec fn module_labels(m: OptionalModule, h: HostView) -> Seq<Seq<char>> {
    module_mount_labels(m.mounts@, h) + match m.path {
        Some(p) => if path_exists(h, expanded(p@, h.env@)) {
            seq![labelled(expanded(p@, h.env@), "rw"@)]
        } else {
            seq![]
        },
        None => seq![],
    }
}

pub open spec fn modules_labels(mods: Seq<OptionalModule>, requested: Seq<Seq<char>>, h: HostView) -> Seq<Seq<char>>
    decreases mods.len(),
{
    if mods.len() == 0 {
        seq![]
    } else {
        modules_labels(mods.drop_last(), requested, h) + if is_active(mods.last(), requested) {
            module_labels(mods.last(), h)
        } else {
            seq![]
        }
    }
}

/// The exposed host paths of a run, labelled with their access, before
/// sorting: the project directory, the `src/` overlay, the `[[mount]]`
/// entries (each replacing earlier labels of its path), the `--ro` paths
/// and the paths of the active modules.
pub open spec fn exposed_list(req: RunRequest, cfg: LionConfig, mods: Seq<OptionalModule>, h: HostView) -> Seq<Seq<char>> {
    let project = req.project_path@;
    let pro = access_is_ro(cfg.sandbox.project_access@);
    let sro = access_is_ro(cfg.sandbox.src_access@);
    let start = seq![labelled(project, access_tag(pro))] + if src_overlaid(project, pro, sro, h) {
        seq![labelled(src_path(project), "ro"@)]
    } else {
        seq![]
    };
    entry_labels(start, cfg.mount@, h) + ro_labels(string_views(req.ro_paths@), h) + modules_labels(
        mods,
        string_views(req.optional_names@),
        h,
    )
}

fn make_label(p: &str, tag: &str) -> (r: String)
    ensures
        r@ == labelled(p@, tag@),
{
    let mut v = chars_of(p);
    push_str(&mut v, " (");
    push_str(&mut v, tag);
    push_str(&mut v, ")");
    string_of(v.as_slice())
}

fn label_path_exec(l: &String) -> (r: Vec<char>)
    ensures
        r@ == label_path(l@),
{
    let v = chars_of(l.as_str());
    let pat = chars_of(" (");
    match crate::text::find_from(&v, &pat, 0) {
        Some(k) => {
            proof {
                crate::text::lemma_first_occ_from(v@, pat@, 0);
            }
            crate::text::slice_chars(&v, 0, k)
        },
        None => v,
    }
}

fn drop_path(labels: Vec<String>, p: &String) -> (r: Vec<String>)
    ensures
        string_views(r@) == without_path(string_views(labels@), p@),
{
    let mut out: Vec<String> = Vec::new();
    let ghost lv = string_views(labels@);
    let pv = chars_of(p.as_str());
    let mut i: usize = 0;
    while i < labels.len()
        invariant
            i <= labels.len(),
            lv == string_views(labels@),
            pv@ == p@,
            string_views(out@) == without_path(lv.take(i as int), p@),
        decreases labels.len() - i,
    {
        let lp = label_path_exec(&labels[i]);
        proof {
            assert(lv.take(i + 1).drop_last() =~= lv.take(i as int));
            assert(lv.take(i + 1).last() == labels@[i as int]@);
        }
        if !crate::text::chars_eq(&lp, &pv) {
            push_string(&mut out, labels[i].clone());
        }
        i += 1;
    }
    proof {
        assert(lv.take(labels.len() as int) =~= lv);
    }
    out
}

/// The exposed host paths of a run, labelled `path (ro)` or `path (rw)`
/// (module mounts with their mode), sorted, each once.
pub fn exposed_paths(
    req: &RunRequest,
    cfg: &LionConfig,
    modules: &OptionalModulesConfig,
    host: &HostView,
) -> (r: Vec<String>)
    requires
        active_modules_expand(modules.modules@, string_views(req.optional_names@), host.env@),
    ensures
        crate::order::strictly_sorted(string_views(r@)),
        forall|x: Seq<char>| string_views(r@).contains(x) <==> exposed_list(*req, *cfg, modules.modules@, *host).contains(x),
{
    let project_ro = cfg.project_is_readonly();
    let src_ro = cfg.src_is_readonly();
    let mut labels: Vec<String> = Vec::new();
    push_string(&mut labels, make_label(req.project_path.as_str(), if project_ro { "ro" } else { "rw" }));
    let sp = make_src_path(req.project_path.as_str());
    if !project_ro && src_ro && host.has_path(sp.as_str()) {
        push_string(&mut labels, make_label(sp.as_str(), "ro"));
    }
    let ghost start = string_views(labels@);
    proof {
        let project = req.project_path@;
        assert(start =~= seq![labelled(project, access_tag(project_ro))] + if src_overlaid(project, project_ro, src_ro, *host) {
            seq![labelled(src_path(project), "ro"@)]
        } else {
            Seq::<Seq<char>>::empty()
        });
    }
    let home = host.var("HOME");
    let mut i: usize = 0;
    while i < cfg.mount.len()
        invariant
            i <= cfg.mount.len(),
            match home {
                Some(h) => env_var(*host, "HOME"@) == Some(h@),
                None => env_var(*host, "HOME"@) is None,
            },
            string_views(labels@) == entry_labels(start, cfg.mount@.take(i as int), *host),
        decreases cfg.mount.len() - i,
    {
        let m = &cfg.mount[i];
        let res = m.resolved_path(opt_str(&home));
        proof {
            assert(cfg.mount@.take(i + 1).drop_last() =~= cfg.mount@.take(i as int));
            assert(cfg.mount@.take(i + 1).last() == cfg.mount@[i as int]);
        }
        if host.has_path(res.as_str()) {
            let ro = m.is_readonly();
            let kept = drop_path(labels, &res);
            labels = kept;
            push_string(&mut labels, make_label(res.as_str(), if ro { "ro" } else { "rw" }));
        }
        i += 1;
    }
    proof {
        assert(cfg.mount@.take(cfg.mount.len() as int) =~= cfg.mount@);
    }
    let ghost after_entries = string_views(labels@);
    let ghost ps = string_views(req.ro_paths@);
    let mut j: usize = 0;
    while j < req.ro_paths.len()
        invariant
            j <= req.ro_paths.len(),
            ps == string_views(req.ro_paths@),
            string_views(labels@) == after_entries + ro_labels(ps.take(j as int), *host),
        decreases req.ro_paths.len() - j,
    {
        let ghost mid = string_views(labels@);
        proof {
            assert(ps.take(j + 1).drop_last() =~= ps.take(j as int));
            assert(ps.take(j + 1).last() == req.ro_paths@[j as int]@);
        }
        if host.has_path(req.ro_paths[j].as_str()) {
            push_string(&mut labels, make_label(req.ro_paths[j].as_str(), "ro"));
        }
        proof {
            assert(string_views(labels@) =~= after_entries + ro_labels(ps.take(j + 1), *host));
        }
        j += 1;
    }
    proof {
        assert(ps.take(req.ro_paths.len() as int) =~= ps);
    }
    let ghost after_ro = string_views(labels@);
    let ml = module_labels_of(modules, &req.optional_names, host);
    push_args(&mut labels, ml);
    r_sorted(labels)
}

fn r_sorted(labels: Vec<String>) -> (r: Vec<String>)
    ensures
        crate::order::strictly_sorted(string_views(r@)),
        forall|x: Seq<char>| string_views(r@).contains(x) <==> string_views(labels@).contains(x),
{
    crate::order::sort_dedup(&labels)
}

fn module_mount_labels_of(m: &OptionalModule, host: &HostView) -> (r: Vec<String>)
    requires
        module_expands(*m, host.env@),
    ensures
        string_views(r@) == module_labels(*m, *host),
{
    let mut out: Vec<String> = Vec::new();
    let mut i: usize = 0;
    while i < m.mounts.len()
        invariant
            i <= m.mounts.len(),
            module_expands(*m, host.env@),
            string_views(out@) == module_mount_labels(m.mounts@.take(i as int), *host),
        decreases m.mounts.len() - i,
    {
        let mm = &m.mounts[i];
        proof {
            assert(expansion_finishes(m.mounts@[i as int].src@, host.env@));
            assert(m.mounts@.take(i + 1).drop_last() =~= m.mounts@.take(i as int));
            assert(m.mounts@.take(i + 1).last() == m.mounts@[i as int]);
        }
        let src = resolve_vars(mm.src.as_str(), &host.env);
        let ghost mid = string_views(out@);
        if host.has_path(src.as_str()) {
            push_string(&mut out, make_label(src.as_str(), mm.mode.as_str()));
        }
        proof {
            assert(string_views(out@) =~= module_mount_labels(m.mounts@.take(i + 1), *host));
        }
        i += 1;
    }
    proof {
        assert(m.mounts@.take(m.mounts.len() as int) =~= m.mounts@);
    }
    let ghost mid = string_views(out@);
    match &m.path {
        Some(p) => {
            let r = resolve_vars(p.as_str(), &host.env);
            if host.has_path(r.as_str()) {
                push_string(&mut out, make_label(r.as_str(), "rw"));
            }
        },
        None => {},
    }
    proof {
        assert(string_views(out@) =~= module_labels(*m, *host));
    }
    out
}

fn module_labels_of(modules: &OptionalModulesConfig, requested: &Vec<String>, host: &HostView) -> (r: Vec<String>)
    requires
        active_modules_expand(modules.modules@, string_views(requested@), host.env@),
    ensures
        string_views(r@) == modules_labels(modules.modules@, string_views(requested@), *host),
{
    let ghost req = string_views(requested@);
    let mods = &modules.modules;
    let mut out: Vec<String> = Vec::new();
    let mut i: usize = 0;
    while i < mods.len()
        invariant
            i <= mods.len(),
            mods == &modules.modules,
            req == string_views(requested@),
            active_modules_expand(mods@, req, host.env@),
            string_views(out@) == modules_labels(mods@.take(i as int), req, *host),
        decreases mods.len() - i,
    {
        let m = &mods[i];
        proof {
            assert(mods@.take(i + 1).drop_last() =~= mods@.take(i as int));
            assert(mods@.take(i + 1).last() == mods@[i as int]);
        }
        let ghost mid = string_views(out@);
        if m.state == 1 || contains_name(requested, &m.name) {
            let ml = module_mount_labels_of(m, host);
            push_args(&mut out, ml);
        }
        proof {
            assert(string_views(out@) =~= modules_labels(mods@.take(i + 1), req, *host));
        }
        i += 1;
    }
    proof {
        assert(mods@.take(mods.len() as int) =~= mods@);
    }
    out
}


/// Whether a label shows the home directory exposed read-write.
pub open spec fn is_rw_label_of(l: Seq<char>, home: Seq<char>) -> bool {
    label_path(l) == home && crate::text::has_sub(l, "(rw)"@)
}

/// Whether the exposed paths show `$HOME` bound read-write (the home
/// directory is otherwise an empty directory, never bound).
pub open spec fn home_exposed(labels: Seq<Seq<char>>, h: HostView) -> bool {
    match env_var(h, "HOME"@) {
        Some(home) => exists|i: int| 0 <= i < labels.len() && is_rw_label_of(#[trigger] labels[i], home),
        None => false,
    }
}

/// Whether the exposed paths show `$HOME` bound read-write.
pub fn is_home_exposed(labels: &Vec<String>, host: &HostView) -> (r: bool)
    ensures
        r == home_exposed(string_views(labels@), *host),
{
    let home = match host.var("HOME") {
        Some(h) => h,
        None => return false,
    };
    let hv = chars_of(home.as_str());
    let ghost lv = string_views(labels@);
    let mut i: usize = 0;
    while i < labels.len()
        invariant
            i <= labels.len(),
            lv == string_views(labels@),
            hv@ == home@,
            env_var(*host, "HOME"@) == Some(home@),
            forall|k: int| 0 <= k < i ==> !is_rw_label_of(#[trigger] lv[k], home@),
        decreases labels.len() - i,
    {
        let lp = label_path_exec(&labels[i]);
        let lc = chars_of(labels[i].as_str());
        if crate::text::chars_eq(&lp, &hv) && crate::text::contains_str(&lc, "(rw)") {
            proof {
                assert(is_rw_label_of(string_views(labels@)[i as int], home@));
                assert(exists|k: int| 0 <= k < string_views(labels@).len() && is_rw_label_of(#[trigger] string_views(labels@)[k], home@));
            }
            return true;
        }
        i += 1;
    }
    false
}

/// The paths the monitor watches: the project directory and the `--ro`
/// paths, with consecutive repeats collapsed.
pub fn watch_paths(project_path: &String, ro_paths: &Vec<String>) -> (r: Vec<String>)
    ensures
        string_views(r@) == crate::order::dedup_consecutive(seq![project_path@] + string_views(ro_paths@)),
{
    let mut all: Vec<String> = Vec::new();
    push_string(&mut all, project_path.clone());
    let more = clone_strings(ro_paths);
    push_args(&mut all, more);
    proof {
        assert(string_views(all@) =~= seq![project_path@] + string_views(ro_paths@));
    }
    crate::order::dedup_strings(&all)
}

/// The modules `--gui` stands for, in the order they are added.
pub open spec fn gui_module_names() -> Seq<Seq<char>> {
    seq!["X11"@, "Wayland"@, "GPU"@, "Fonts"@, "D-Bus"@]
}

/// `names` with each name of `extra` that it lacks appended, in order.
pub open spec fn add_missing(names: Seq<Seq<char>>, extra: Seq<Seq<char>>) -> Seq<Seq<char>>
    decreases extra.len(),
{
    if extra.len() == 0 {
        names
    } else {
        let prev = add_missing(names, extra.drop_last());
        if prev.contains(extra.last()) {
            prev
        } else {
            prev.push(extra.last())
        }
    }
}

proof fn lemma_add_missing_step(names: Seq<Seq<char>>, extra: Seq<Seq<char>>, k: int)
    requires
        0 < k <= extra.len(),
    ensures
        add_missing(names, extra.take(k)) == ({
            let prev = add_missing(names, extra.take(k - 1));
            if prev.contains(extra[k - 1]) {
                prev
            } else {
                prev.push(extra[k - 1])
            }
        }),
{
    assert(extra.take(k).drop_last() =~= extra.take(k - 1));
    assert(extra.take(k).last() == extra[k - 1]);
}

fn push_if_missing(names: &mut Vec<String>, name: &str)
    ensures
        string_views(final(names)@) == if string_views(old(names)@).contains(name@) {
            string_views(old(names)@)
        } else {
            string_views(old(names)@).push(name@)
        },
{
    let n = String::from_str(name);
    if !contains_name(names, &n) {
        push_string(names, n);
    }
}

/// The modules a run activates: those named with `--optional`, and with
/// `--gui` the desktop modules among them that are not named already.
pub fn with_gui_modules(optional: &Vec<String>, gui: bool) -> (r: Vec<String>)
    ensures
        string_views(r@) == if gui {
            add_missing(string_views(optional@), gui_module_names())
        } else {
            string_views(optional@)
        },
{
    let mut r: Vec<String> = Vec::new();
    let mut i: usize = 0;
    while i < optional.len()
        invariant
            i <= optional.len(),
            string_views(r@) == string_views(optional@).take(i as int),
        decreases optional.len() - i,
    {
        push_string(&mut r, optional[i].clone());
        proof {
            assert(string_views(optional@).take(i + 1) =~= string_views(optional@).take(i as int).push(
                optional@[i as int]@,
            ));
        }
        i += 1;
    }
    assert(string_views(optional@).take(optional.len() as int) =~= string_views(optional@));
    if gui {
        let ghost base = string_views(optional@);
        let ghost g = gui_module_names();
        assert(g.take(0) =~= Seq::<Seq<char>>::empty());
        push_if_missing(&mut r, "X11");
        proof {
            lemma_add_missing_step(base, g, 1);
        }
        push_if_missing(&mut r, "Wayland");
        proof {
            lemma_add_missing_step(base, g, 2);
        }
        push_if_missing(&mut r, "GPU");
        proof {
            lemma_add_missing_step(base, g, 3);
        }
        push_if_missing(&mut r, "Fonts");
        proof {
            lemma_add_missing_step(base, g, 4);
        }
        push_if_missing(&mut r, "D-Bus");
        proof {
            lemma_add_missing_step(base, g, 5);
            assert(g.take(5) =~= g);
        }
    }
    r
}

} // verus!
