//! The host paths whose existence the plan of a run consults, so that the
//! caller knows which paths to look up before planning.

use vstd::prelude::*;
use crate::config::{LionConfig, MountEntry};
use crate::host::{EnvVar, HostView, env_var};
use crate::optional_modules::{ModuleMount, OptionalModule, OptionalModulesConfig, expanded, resolve_vars};
use crate::config::access_is_ro;
use crate::host::{path_executable, path_exists};
use crate::sandbox_engine::builder::{network_args};
use crate::sandbox_engine::environment::setenv_from_host;
use crate::sandbox_engine::mounts::{agent_args, agent_socket, home_dir_args, snapd_args, standard_dir_args, system_mount_args};
use crate::sandbox_engine::runner::{RunRequest, active_modules_expand, binary_candidates, binary_candidates_spec, config_mount_args, contains_name, entry_args, entry_host_path, find_binary_spec, first_existing, is_active, module_args, module_env_args, module_expands, module_mount_args, module_path_args, modules_args, ro_path_args, run_args, run_outcome, run_program, src_overlay_args, src_path};
use crate::text::{chars_of, push_arg, push_str, push_string, string_of, string_views};

verus! {

/// The fixed host paths a plan looks up: the system directories, the snapd
/// sockets and the network configuration.
pub open spec fn fixed_probes() -> Seq<Seq<char>> {
    seq![
        "/usr"@,
        "/bin"@,
        "/lib"@,
        "/lib64"@,
        "/etc/alternatives"@,
        "/snap"@,
        "/opt"@,
        "/run/snapd.socket"@,
        "/run/snapd-snap.socket"@,
        "/run/snapd/ns"@,
        "/etc/resolv.conf"@,
        "/etc/ssl"@,
        "/etc/pki"@,
    ]
}

/// The snapd session agent socket, when the runtime directory is known.
pub open spec fn agent_probes(h: HostView) -> Seq<Seq<char>> {
    match env_var(h, "XDG_RUNTIME_DIR"@) {
        Some(rd) => seq![agent_socket(rd)],
        None => seq![],
    }
}

/// The host path of each `[[mount]]` entry.
pub open spec fn entry_probes(ms: Seq<MountEntry>, h: HostView) -> Seq<Seq<char>>
    decreases ms.len(),
{
    if ms.len() == 0 {
        seq![]
    } else {
        entry_probes(ms.drop_last(), h).push(entry_host_path(ms.last(), h))
    }
}

/// The expanded host path of each mount of a module.
pub open spec fn module_mount_probes(ms: Seq<ModuleMount>, env: Seq<EnvVar>) -> Seq<Seq<char>>
    decreases ms.len(),
{
    if ms.len() == 0 {
        seq![]
    } else {
        module_mount_probes(ms.drop_last(), env).push(expanded(ms.last().src@, env))
    }
}

/// The host paths of a module: its mounts' sources and its single path.
pub open spec fn module_probes(m: OptionalModule, env: Seq<EnvVar>) -> Seq<Seq<char>> {
    module_mount_probes(m.mounts@, env) + match m.path {
        Some(p) => seq![expanded(p@, env)],
        None => seq![],
    }
}

/// The host paths of the active modules, in order.
pub open spec fn active_module_probes(
    mods: Seq<OptionalModule>,
    requested: Seq<Seq<char>>,
    env: Seq<EnvVar>,
) -> Seq<Seq<char>>
    decreases mods.len(),
{
    if mods.len() == 0 {
        seq![]
    } else {
        active_module_probes(mods.drop_last(), requested, env) + if is_active(mods.last(), requested) {
            module_probes(mods.last(), env)
        } else {
            seq![]
        }
    }
}

/// Every host path whose existence the plan of a run, and the report of
/// its end, look up: the fixed paths, the agent socket, `src/`, the
/// `[[mount]]` entries, the `--ro` paths, the active modules' paths, and
/// the places where the program is looked for.
pub open spec fn run_probes(req: RunRequest, cfg: LionConfig, mods: Seq<OptionalModule>, h: HostView) -> Seq<Seq<char>> {
    fixed_probes() + agent_probes(h) + seq![src_path(req.project_path@)] + entry_probes(cfg.mount@, h)
        + string_views(req.ro_paths@) + active_module_probes(mods, string_views(req.optional_names@), h.env@)
        + binary_candidates_spec(run_program(string_views(req.cmd@)), env_var(h, "PATH"@))
}

fn push_fixed_probes(out: &mut Vec<String>)
    ensures
        string_views(final(out)@) == string_views(old(out)@) + fixed_probes(),
{
    let ghost before = string_views(out@);
    push_arg(out, "/usr");
    push_arg(out, "/bin");
    push_arg(out, "/lib");
    push_arg(out, "/lib64");
    push_arg(out, "/etc/alternatives");
    push_arg(out, "/snap");
    push_arg(out, "/opt");
    push_arg(out, "/run/snapd.socket");
    push_arg(out, "/run/snapd-snap.socket");
    push_arg(out, "/run/snapd/ns");
    push_arg(out, "/etc/resolv.conf");
    push_arg(out, "/etc/ssl");
    push_arg(out, "/etc/pki");
    assert(string_views(out@) =~= before + fixed_probes());
}

fn push_entry_probes(out: &mut Vec<String>, ms: &Vec<MountEntry>, host: &HostView)
    ensures
        string_views(final(out)@) == string_views(old(out)@) + entry_probes(ms@, *host),
{
    let home = host.var("HOME");
    let ghost before = string_views(out@);
    let mut i: usize = 0;
    while i < ms.len()
        invariant
            i <= ms.len(),
            match home {
                Some(h) => env_var(*host, "HOME"@) == Some(h@),
                None => env_var(*host, "HOME"@) is None,
            },
            string_views(out@) == before + entry_probes(ms@.take(i as int), *host),
        decreases ms.len() - i,
    {
        let p = match &home {
            Some(h) => ms[i].resolved_path(Some(h.as_str())),
            None => ms[i].resolved_path(None),
        };
        push_string(out, p);
        proof {
            assert(ms@.take(i + 1).drop_last() =~= ms@.take(i as int));
            assert(ms@.take(i + 1).last() == ms@[i as int]);
        }
        i += 1;
    }
    assert(ms@.take(ms.len() as int) =~= ms@);
}

fn push_module_probes(out: &mut Vec<String>, m: &OptionalModule, env: &Vec<EnvVar>)
    requires
        module_expands(*m, env@),
    ensures
        string_views(final(out)@) == string_views(old(out)@) + module_probes(*m, env@),
{
    let ghost before = string_views(out@);
    let mut i: usize = 0;
    while i < m.mounts.len()
        invariant
            i <= m.mounts.len(),
            module_expands(*m, env@),
            string_views(out@) == before + module_mount_probes(m.mounts@.take(i as int), env@),
        decreases m.mounts.len() - i,
    {
        proof {
            assert(crate::optional_modules::expansion_finishes(m.mounts@[i as int].src@, env@));
        }
        let p = resolve_vars(m.mounts[i].src.as_str(), env);
        push_string(out, p);
        proof {
            assert(m.mounts@.take(i + 1).drop_last() =~= m.mounts@.take(i as int));
            assert(m.mounts@.take(i + 1).last() == m.mounts@[i as int]);
        }
        i += 1;
    }
    assert(m.mounts@.take(m.mounts.len() as int) =~= m.mounts@);
    let ghost mid = string_views(out@);
    match &m.path {
        Some(p) => {
            let e = resolve_vars(p.as_str(), env);
            push_string(out, e);
        },
        None => {},
    }
    assert(string_views(out@) =~= before + module_probes(*m, env@));
}

fn push_active_module_probes(
    out: &mut Vec<String>,
    modules: &OptionalModulesConfig,
    requested: &Vec<String>,
    env: &Vec<EnvVar>,
)
    requires
        active_modules_expand(modules.modules@, string_views(requested@), env@),
    ensures
        string_views(final(out)@) == string_views(old(out)@) + active_module_probes(
            modules.modules@,
            string_views(requested@),
            env@,
        ),
{
    let ghost before = string_views(out@);
    let ghost req = string_views(requested@);
    let mut i: usize = 0;
    while i < modules.modules.len()
        invariant
            i <= modules.modules.len(),
            req == string_views(requested@),
            active_modules_expand(modules.modules@, req, env@),
            string_views(out@) == before + active_module_probes(modules.modules@.take(i as int), req, env@),
        decreases modules.modules.len() - i,
    {
        let m = &modules.modules[i];
        proof {
            assert(modules.modules@.take(i + 1).drop_last() =~= modules.modules@.take(i as int));
            assert(modules.modules@.take(i + 1).last() == modules.modules@[i as int]);
        }
        let ghost mid = string_views(out@);
        if m.state == 1 || contains_name(requested, &m.name) {
            proof {
                assert(is_active(modules.modules@[i as int], req));
            }
            push_module_probes(out, m, env);
            proof {
                assert(string_views(out@) =~= before + active_module_probes(
                    modules.modules@.take(i + 1),
                    req,
                    env@,
                ));
            }
        } else {
            proof {
                assert(!is_active(modules.modules@[i as int], req));
                assert(string_views(out@) =~= before + active_module_probes(
                    modules.modules@.take(i + 1),
                    req,
                    env@,
                ));
            }
        }
        i += 1;
    }
    assert(modules.modules@.take(modules.modules.len() as int) =~= modules.modules@);
}

/// The host paths to look up before planning the run `req`: see
/// `run_probes`.
pub fn probe_paths(
    req: &RunRequest,
    cfg: &LionConfig,
    modules: &OptionalModulesConfig,
    host: &HostView,
) -> (r: Vec<String>)
    requires
        active_modules_expand(modules.modules@, string_views(req.optional_names@), host.env@),
    ensures
        string_views(r@) == run_probes(*req, *cfg, modules.modules@, *host),
{
    let mut out: Vec<String> = Vec::new();
    assert(string_views(out@) =~= Seq::<Seq<char>>::empty());
    push_fixed_probes(&mut out);
    let ghost a0 = string_views(out@);
    match host.var("XDG_RUNTIME_DIR") {
        Some(rd) => {
            let mut v = chars_of(rd.as_str());
            push_str(&mut v, "/snapd-session-agent.socket");
            push_string(&mut out, string_of(v.as_slice()));
        },
        None => {},
    }
    assert(string_views(out@) =~= a0 + agent_probes(*host));
    let mut sv = chars_of(req.project_path.as_str());
    push_str(&mut sv, "/src");
    push_string(&mut out, string_of(sv.as_slice()));
    push_entry_probes(&mut out, &cfg.mount, host);
    let ghost a1 = string_views(out@);
    let mut i: usize = 0;
    while i < req.ro_paths.len()
        invariant
            i <= req.ro_paths.len(),
            string_views(out@) == a1 + string_views(req.ro_paths@).take(i as int),
        decreases req.ro_paths.len() - i,
    {
        push_string(&mut out, req.ro_paths[i].clone());
        proof {
            assert(string_views(req.ro_paths@).take(i + 1) =~= string_views(req.ro_paths@).take(
                i as int,
            ).push(req.ro_paths@[i as int]@));
        }
        i += 1;
    }
    assert(string_views(req.ro_paths@).take(req.ro_paths.len() as int) =~= string_views(req.ro_paths@));
    push_active_module_probes(&mut out, modules, &req.optional_names, &host.env);
    let ghost a2 = string_views(out@);
    let program = if req.cmd.len() > 0 {
        req.cmd[0].clone()
    } else {
        String::from_str("unknown")
    };
    assert(program@ == run_program(string_views(req.cmd@)));
    let path_var = host.var("PATH");
    let cands = match &path_var {
        Some(p) => binary_candidates(program.as_str(), Some(p.as_str())),
        None => binary_candidates(program.as_str(), None),
    };
    let mut j: usize = 0;
    while j < cands.len()
        invariant
            j <= cands.len(),
            string_views(out@) == a2 + string_views(cands@).take(j as int),
        decreases cands.len() - j,
    {
        push_string(&mut out, cands[j].clone());
        proof {
            assert(string_views(cands@).take(j + 1) =~= string_views(cands@).take(j as int).push(
                cands@[j as int]@,
            ));
        }
        j += 1;
    }
    assert(string_views(cands@).take(cands.len() as int) =~= string_views(cands@));
    assert(string_views(out@) =~= run_probes(*req, *cfg, modules.modules@, *host));
    out
}

// ── The plan reads the host only through the probes ─────────────────────────

/// Two host views agree on the existence of every path of `s`.
pub open spec fn agree_on(s: Seq<Seq<char>>, h1: HostView, h2: HostView) -> bool {
    forall|p: Seq<char>| #[trigger] s.contains(p) ==> path_exists(h1, p) == path_exists(h2, p)
}

proof fn lemma_agree_split(a: Seq<Seq<char>>, b: Seq<Seq<char>>, h1: HostView, h2: HostView)
    requires
        agree_on(a + b, h1, h2),
    ensures
        agree_on(a, h1, h2),
        agree_on(b, h1, h2),
{
    assert forall|p: Seq<char>| #[trigger] a.contains(p) implies path_exists(h1, p) == path_exists(h2, p) by {
        let k = choose|k: int| 0 <= k < a.len() && a[k] == p;
        assert((a + b)[k] == p);
        assert((a + b).contains(p));
    }
    assert forall|p: Seq<char>| #[trigger] b.contains(p) implies path_exists(h1, p) == path_exists(h2, p) by {
        let k = choose|k: int| 0 <= k < b.len() && b[k] == p;
        assert((a + b)[a.len() + k] == p);
        assert((a + b).contains(p));
    }
}

proof fn lemma_agree_at(s: Seq<Seq<char>>, k: int, h1: HostView, h2: HostView)
    requires
        agree_on(s, h1, h2),
        0 <= k < s.len(),
    ensures
        path_exists(h1, s[k]) == path_exists(h2, s[k]),
{
    assert(s.contains(s[k]));
}

proof fn lemma_entries_agree(ms: Seq<MountEntry>, h1: HostView, h2: HostView)
    requires
        h1.env@ == h2.env@,
        agree_on(entry_probes(ms, h1), h1, h2),
    ensures
        config_mount_args(ms, h1) == config_mount_args(ms, h2),
    decreases ms.len(),
{
    if ms.len() > 0 {
        let e = entry_probes(ms, h1);
        assert(e =~= entry_probes(ms.drop_last(), h1) + seq![entry_host_path(ms.last(), h1)]);
        lemma_agree_split(entry_probes(ms.drop_last(), h1), seq![entry_host_path(ms.last(), h1)], h1, h2);
        lemma_entries_agree(ms.drop_last(), h1, h2);
        lemma_agree_at(seq![entry_host_path(ms.last(), h1)], 0, h1, h2);
        assert(entry_args(ms.last(), h1) == entry_args(ms.last(), h2));
    }
}

proof fn lemma_ro_paths_agree(ps: Seq<Seq<char>>, h1: HostView, h2: HostView)
    requires
        agree_on(ps, h1, h2),
    ensures
        ro_path_args(ps, h1) == ro_path_args(ps, h2),
    decreases ps.len(),
{
    if ps.len() > 0 {
        assert(ps =~= ps.drop_last() + seq![ps.last()]);
        lemma_agree_split(ps.drop_last(), seq![ps.last()], h1, h2);
        lemma_ro_paths_agree(ps.drop_last(), h1, h2);
        lemma_agree_at(seq![ps.last()], 0, h1, h2);
    }
}

proof fn lemma_module_mounts_agree(ms: Seq<ModuleMount>, h1: HostView, h2: HostView)
    requires
        h1.env@ == h2.env@,
        agree_on(module_mount_probes(ms, h1.env@), h1, h2),
    ensures
        module_mount_args(ms, h1) == module_mount_args(ms, h2),
    decreases ms.len(),
{
    if ms.len() > 0 {
        let last = seq![expanded(ms.last().src@, h1.env@)];
        assert(module_mount_probes(ms, h1.env@) =~= module_mount_probes(ms.drop_last(), h1.env@) + last);
        lemma_agree_split(module_mount_probes(ms.drop_last(), h1.env@), last, h1, h2);
        lemma_module_mounts_agree(ms.drop_last(), h1, h2);
        lemma_agree_at(last, 0, h1, h2);
    }
}

proof fn lemma_module_env_agree(vars: Seq<String>, h1: HostView, h2: HostView)
    requires
        h1.env@ == h2.env@,
    ensures
        module_env_args(vars, h1) == module_env_args(vars, h2),
    decreases vars.len(),
{
    if vars.len() > 0 {
        lemma_module_env_agree(vars.drop_last(), h1, h2);
        assert(setenv_from_host(h1, vars.last()@) == setenv_from_host(h2, vars.last()@));
    }
}

proof fn lemma_module_agree(m: OptionalModule, h1: HostView, h2: HostView)
    requires
        h1.env@ == h2.env@,
        agree_on(module_probes(m, h1.env@), h1, h2),
    ensures
        module_args(m, h1) == module_args(m, h2),
{
    let tail = match m.path {
        Some(p) => seq![expanded(p@, h1.env@)],
        None => seq![],
    };
    lemma_agree_split(module_mount_probes(m.mounts@, h1.env@), tail, h1, h2);
    lemma_module_mounts_agree(m.mounts@, h1, h2);
    lemma_module_env_agree(m.env@, h1, h2);
    match m.path {
        Some(p) => {
            lemma_agree_at(tail, 0, h1, h2);
        },
        None => {},
    }
    assert(module_path_args(m, h1) == module_path_args(m, h2));
}

proof fn lemma_modules_agree(mods: Seq<OptionalModule>, requested: Seq<Seq<char>>, h1: HostView, h2: HostView)
    requires
        h1.env@ == h2.env@,
        agree_on(active_module_probes(mods, requested, h1.env@), h1, h2),
    ensures
        modules_args(mods, requested, h1) == modules_args(mods, requested, h2),
    decreases mods.len(),
{
    if mods.len() > 0 {
        let last = if is_active(mods.last(), requested) {
            module_probes(mods.last(), h1.env@)
        } else {
            seq![]
        };
        lemma_agree_split(active_module_probes(mods.drop_last(), requested, h1.env@), last, h1, h2);
        lemma_modules_agree(mods.drop_last(), requested, h1, h2);
        if is_active(mods.last(), requested) {
            lemma_module_agree(mods.last(), h1, h2);
        }
    }
}

proof fn lemma_first_existing_agree(cands: Seq<Seq<char>>, h1: HostView, h2: HostView)
    requires
        agree_on(cands, h1, h2),
    ensures
        first_existing(cands, h1) == first_existing(cands, h2),
        first_existing(cands, h1) matches Some(p) ==> cands.contains(p),
    decreases cands.len(),
{
    if cands.len() > 0 {
        assert(cands =~= seq![cands[0]] + cands.drop_first());
        lemma_agree_split(seq![cands[0]], cands.drop_first(), h1, h2);
        lemma_agree_at(seq![cands[0]], 0, h1, h2);
        lemma_first_existing_agree(cands.drop_first(), h1, h2);
        if !path_exists(h1, cands[0]) {
            match first_existing(cands.drop_first(), h1) {
                Some(p) => {
                    let k = choose|k: int| 0 <= k < cands.drop_first().len() && cands.drop_first()[k] == p;
                    assert(cands[k + 1] == p);
                },
                None => {},
            }
        }
    }
}

/// What a run's plan and the report of its end take from the host's file
/// system is whether the probed paths exist and, for those, whether they
/// are executable: two hosts with the same environment that agree on the
/// probes give the same `bwrap` arguments and the same outcome.
pub proof fn law_plan_reads_only_probes(
    req: RunRequest,
    cfg: LionConfig,
    mods: Seq<OptionalModule>,
    h1: HostView,
    h2: HostView,
    port: Option<u16>,
    success: bool,
    code: Option<i32>,
)
    requires
        h1.env@ == h2.env@,
        agree_on(run_probes(req, cfg, mods, h1), h1, h2),
        forall|p: Seq<char>|
            #[trigger] run_probes(req, cfg, mods, h1).contains(p) ==> path_executable(h1, p)
                == path_executable(h2, p),
    ensures
        run_args(req, cfg, mods, h1, port) == run_args(req, cfg, mods, h2, port),
        run_outcome(success, code, string_views(req.cmd@), h1) == run_outcome(
            success,
            code,
            string_views(req.cmd@),
            h2,
        ),
{
    let project = req.project_path@;
    let f = fixed_probes();
    let ag = agent_probes(h1);
    let sp = seq![src_path(project)];
    let ep = entry_probes(cfg.mount@, h1);
    let rp = string_views(req.ro_paths@);
    let mp = active_module_probes(mods, string_views(req.optional_names@), h1.env@);
    let bp = binary_candidates_spec(run_program(string_views(req.cmd@)), env_var(h1, "PATH"@));
    let all = run_probes(req, cfg, mods, h1);
    assert(all == f + ag + sp + ep + rp + mp + bp);
    lemma_agree_split(f + ag + sp + ep + rp + mp, bp, h1, h2);
    lemma_agree_split(f + ag + sp + ep + rp, mp, h1, h2);
    lemma_agree_split(f + ag + sp + ep, rp, h1, h2);
    lemma_agree_split(f + ag + sp, ep, h1, h2);
    lemma_agree_split(f + ag, sp, h1, h2);
    lemma_agree_split(f, ag, h1, h2);
    // the fixed paths
    assert forall|k: int| 0 <= k < f.len() implies path_exists(h1, f[k]) == path_exists(h2, f[k]) by {
        lemma_agree_at(f, k, h1, h2);
    }
    assert(f[0] == "/usr"@ && f[1] == "/bin"@ && f[2] == "/lib"@ && f[3] == "/lib64"@);
    assert(f[4] == "/etc/alternatives"@ && f[5] == "/snap"@ && f[6] == "/opt"@);
    assert(f[7] == "/run/snapd.socket"@ && f[8] == "/run/snapd-snap.socket"@ && f[9] == "/run/snapd/ns"@);
    assert(f[10] == "/etc/resolv.conf"@ && f[11] == "/etc/ssl"@ && f[12] == "/etc/pki"@);
    assert(network_args(req.network_mode, h1) == network_args(req.network_mode, h2));
    assert(standard_dir_args(h1) == standard_dir_args(h2));
    assert(snapd_args(h1) == snapd_args(h2));
    assert(env_var(h1, "HOME"@) == env_var(h2, "HOME"@));
    assert(home_dir_args(h1) == home_dir_args(h2));
    match env_var(h1, "XDG_RUNTIME_DIR"@) {
        Some(rd) => {
            lemma_agree_at(ag, 0, h1, h2);
        },
        None => {},
    }
    assert(agent_args(h1) == agent_args(h2));
    assert(system_mount_args(h1) == system_mount_args(h2));
    lemma_agree_at(sp, 0, h1, h2);
    let pro = access_is_ro(cfg.sandbox.project_access@);
    let sro = access_is_ro(cfg.sandbox.src_access@);
    assert(src_overlay_args(project, pro, sro, h1) == src_overlay_args(project, pro, sro, h2));
    lemma_entries_agree(cfg.mount@, h1, h2);
    lemma_ro_paths_agree(rp, h1, h2);
    lemma_modules_agree(mods, string_views(req.optional_names@), h1, h2);
    // the end of the run
    lemma_first_existing_agree(bp, h1, h2);
    let program = run_program(string_views(req.cmd@));
    assert(env_var(h1, "PATH"@) == env_var(h2, "PATH"@));
    assert(find_binary_spec(program, h1) == find_binary_spec(program, h2));
    match find_binary_spec(program, h1) {
        Some(p) => {
            assert(bp.contains(p));
            let k = choose|k: int| 0 <= k < bp.len() && bp[k] == p;
            assert(all[all.len() - bp.len() + k] == p);
            assert(all.contains(p));
            assert(path_executable(h1, p) == path_executable(h2, p));
        },
        None => {},
    }
}

} // verus!
