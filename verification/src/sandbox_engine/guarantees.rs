//! What every sandbox command line guarantees, whatever the request, the
//! configuration, the modules and the host.

use vstd::prelude::*;
use crate::config::{LionConfig, access_is_ro};
use crate::host::{HostView, path_exists};
use crate::optional_modules::{OptionalModule, ModuleMount, agree_except, lemma_expansion_ignores, never_names};
use crate::sandbox_engine::builder::{base_args, network_args, ro_bind_if_exists};
use crate::sandbox_engine::environment::environment_args;
use crate::sandbox_engine::mounts::system_mount_args;
use crate::sandbox_engine::network::NetworkMode;
use crate::config::MountEntry;
use crate::sandbox_engine::runner::{
    RunRequest, command_args, config_mount_args, entry_args, entry_host_path, is_active, module_args,
    module_env_args, module_expands, module_mount_args, module_path_args, modules_args, proxy_args,
    proxy_env_args, proxy_url, ro_path_args, run_args, src_overlay_args, src_path,
};
use crate::sandbox_engine::environment::setenv_from_host;
use crate::sandbox_engine::mounts::{agent_args, home_dir_args, snapd_args, standard_dir_args};
use crate::text::string_views;

verus! {

/// The namespace flags and the synthetic root every run starts with.
pub open spec fn isolation_prefix() -> Seq<Seq<char>> {
    seq![
        "--unshare-user"@,
        "--unshare-ipc"@,
        "--unshare-pid"@,
        "--unshare-uts"@,
        "--unshare-cgroup"@,
        "--die-with-parent"@,
        "--hostname"@,
        "lion"@,
        "--new-session"@,
        "--tmpfs"@,
        "/"@,
        "--dir"@,
        "/usr"@,
        "--dir"@,
        "/bin"@,
        "--dir"@,
        "/lib"@,
        "--dir"@,
        "/tmp"@,
        "--dir"@,
        "/run"@,
        "--proc"@,
        "/proc"@,
        "--dev"@,
        "/dev"@,
    ]
}

/// The environment every run starts from: the host's cleared, then only
/// fixed, harmless values.
pub open spec fn scrubbed_environment() -> Seq<Seq<char>> {
    seq![
        "--clearenv"@,
        "--setenv"@,
        "PATH"@,
        "/usr/bin:/bin"@,
        "--setenv"@,
        "HOME"@,
        "/home/lion"@,
        "--setenv"@,
        "USER"@,
        "lion"@,
        "--setenv"@,
        "LOGNAME"@,
        "lion"@,
        "--setenv"@,
        "LANG"@,
        "C.UTF-8"@,
    ]
}

/// The arguments of a run up to its network profile.
pub open spec fn head_args(req: RunRequest, cfg: LionConfig, h: HostView) -> Seq<Seq<char>> {
    base_args(req.project_path@, access_is_ro(cfg.sandbox.project_access@)) + network_args(
        req.network_mode,
        h,
    )
}

/// Every run starts in fresh namespaces on an empty root: the arguments
/// begin with the namespace flags, `--tmpfs /` and the bare system
/// directories, then bind the project directory onto itself, read-only
/// exactly when the configuration says so.
pub proof fn law_fresh_isolated_root(
    req: RunRequest,
    cfg: LionConfig,
    mods: Seq<OptionalModule>,
    h: HostView,
    port: Option<u16>,
)
    ensures
        ({
            let a = run_args(req, cfg, mods, h, port);
            &&& a.len() >= 28
            &&& a.take(25) == isolation_prefix()
            &&& a[25] == if access_is_ro(cfg.sandbox.project_access@) {
                "--ro-bind"@
            } else {
                "--bind"@
            }
            &&& a[26] == req.project_path@
            &&& a[27] == req.project_path@
        }),
{
    let a = run_args(req, cfg, mods, h, port);
    let b = base_args(req.project_path@, access_is_ro(cfg.sandbox.project_access@));
    assert(a.take(28) =~= b);
    assert(a.take(25) =~= isolation_prefix());
    assert(a[25] == a.take(28)[25]);
    assert(a[26] == a.take(28)[26]);
    assert(a[27] == a.take(28)[27]);
}

/// A file of the host that a shared network profile binds read-only.
pub open spec fn network_file(s: Seq<char>) -> bool {
    s == "/etc/resolv.conf"@ || s == "/etc/ssl"@ || s == "/etc/pki"@
}

/// Each argument is `--unshare-net`, `--ro-bind` or a network file, and
/// each `--ro-bind` is followed by a network file.
pub open spec fn network_shaped(n: Seq<Seq<char>>) -> bool {
    &&& forall|j: int| 0 <= j < n.len() ==> #[trigger] n[j] == "--unshare-net"@ || n[j] == "--ro-bind"@ || network_file(n[j])
    &&& forall|j: int| 0 <= j < n.len() && #[trigger] n[j] == "--ro-bind"@ ==> j + 1 < n.len() && network_file(n[j + 1])
}

proof fn lemma_shaped_concat(x: Seq<Seq<char>>, y: Seq<Seq<char>>)
    requires
        network_shaped(x),
        network_shaped(y),
    ensures
        network_shaped(x + y),
{
    let n = x + y;
    assert forall|j: int| 0 <= j < n.len() implies #[trigger] n[j] == "--unshare-net"@ || n[j] == "--ro-bind"@
        || network_file(n[j]) by {
        if j < x.len() {
            assert(n[j] == x[j]);
        } else {
            assert(n[j] == y[j - x.len()]);
        }
    }
    assert forall|j: int| 0 <= j < n.len() && #[trigger] n[j] == "--ro-bind"@ implies j + 1 < n.len() && network_file(
        n[j + 1],
    ) by {
        if j < x.len() {
            assert(n[j] == x[j]);
            assert(n[j + 1] == x[j + 1]);
        } else {
            assert(n[j] == y[j - x.len()]);
            assert(n[j + 1] == y[j + 1 - x.len()]);
        }
    }
}

proof fn lemma_ro_bind_shaped(h: HostView, f: Seq<char>)
    requires
        network_file(f),
    ensures
        network_shaped(ro_bind_if_exists(h, f)),
{
    reveal_strlit("--ro-bind");
    reveal_strlit("/etc/resolv.conf");
    reveal_strlit("/etc/ssl");
    reveal_strlit("/etc/pki");
    let n = ro_bind_if_exists(h, f);
    if path_exists(h, f) {
        assert(n =~= seq!["--ro-bind"@, f, f]);
        assert(f.len() != 9);
        assert forall|j: int| 0 <= j < n.len() && #[trigger] n[j] == "--ro-bind"@ implies j + 1 < n.len()
            && network_file(n[j + 1]) by {
            if j > 0 {
                assert(n[j] == f);
            }
        }
    } else {
        assert(n =~= Seq::<Seq<char>>::empty());
    }
}

/// The network arguments are `--unshare-net`, or read-only binds of the
/// name service and certificate files onto themselves.
proof fn lemma_network_args_shape(mode: NetworkMode, h: HostView)
    ensures
        network_shaped(network_args(mode, h)),
{
    let r = ro_bind_if_exists(h, "/etc/resolv.conf"@);
    let s = ro_bind_if_exists(h, "/etc/ssl"@);
    let p = ro_bind_if_exists(h, "/etc/pki"@);
    lemma_ro_bind_shaped(h, "/etc/resolv.conf"@);
    lemma_ro_bind_shaped(h, "/etc/ssl"@);
    lemma_ro_bind_shaped(h, "/etc/pki"@);
    match mode {
        NetworkMode::Isolated => {
            reveal_strlit("--unshare-net");
            reveal_strlit("--ro-bind");
            let n = network_args(mode, h);
            assert(n =~= seq!["--unshare-net"@]);
            assert(n[0] != "--ro-bind"@) by {
                assert(n[0].len() != "--ro-bind"@.len());
            }
        },
        NetworkMode::Dns => {},
        _ => {
            lemma_shaped_concat(r, s);
            lemma_shaped_concat(r + s, p);
        },
    }
}

/// What `build_bwrap` gives, whatever the project, network mode and host:
/// every namespace it can is unshared (user, IPC, PID, UTS, cgroup), the
/// sandbox dies with its parent, runs in a new session and is named `lion`;
/// the fresh root `--tmpfs /` comes before every directory and bind; and
/// the project directory is bound onto itself exactly once, right after the
/// bare system directories.  (When the project is read-only and the
/// network arguments name it, as when it is one of the files a shared
/// network binds read-only, a second such bind follows: those inputs are
/// left out.)
pub proof fn law_bwrap_core_isolation(project: Seq<char>, mode: NetworkMode, project_ro: bool, h: HostView)
    requires
        project_ro && network_args(mode, h).contains(project) ==> project == "--unshare-net"@,
    ensures
        ({
            let a = base_args(project, project_ro) + network_args(mode, h);
            let flag = if project_ro { "--ro-bind"@ } else { "--bind"@ };
            &&& a.contains("--unshare-user"@)
            &&& a.contains("--unshare-ipc"@)
            &&& a.contains("--unshare-pid"@)
            &&& a.contains("--unshare-uts"@)
            &&& a.contains("--unshare-cgroup"@)
            &&& a.contains("--die-with-parent"@)
            &&& a.contains("--new-session"@)
            &&& a[6] == "--hostname"@ && a[7] == "lion"@
            &&& a[9] == "--tmpfs"@ && a[10] == "/"@
            &&& forall|i: int|
                0 <= i < a.len() && (#[trigger] a[i] == "--dir"@ || a[i] == "--bind"@ || a[i] == "--ro-bind"@)
                    ==> 10 < i
            &&& a[25] == flag && a[26] == project && a[27] == project
            &&& forall|i: int|
                0 <= i && i + 2 < a.len() && #[trigger] a[i] == flag && a[i + 1] == project && a[i + 2] == project
                    ==> i == 25
        }),
{
    reveal_strlit("--unshare-user");
    reveal_strlit("--unshare-ipc");
    reveal_strlit("--unshare-pid");
    reveal_strlit("--unshare-uts");
    reveal_strlit("--unshare-cgroup");
    reveal_strlit("--die-with-parent");
    reveal_strlit("--hostname");
    reveal_strlit("lion");
    reveal_strlit("--new-session");
    reveal_strlit("--tmpfs");
    reveal_strlit("/");
    reveal_strlit("--dir");
    reveal_strlit("/usr");
    reveal_strlit("/bin");
    reveal_strlit("/lib");
    reveal_strlit("/tmp");
    reveal_strlit("/run");
    reveal_strlit("--proc");
    reveal_strlit("/proc");
    reveal_strlit("--dev");
    reveal_strlit("/dev");
    reveal_strlit("--bind");
    reveal_strlit("--ro-bind");
    reveal_strlit("--unshare-net");
    reveal_strlit("/etc/resolv.conf");
    reveal_strlit("/etc/ssl");
    reveal_strlit("/etc/pki");
    let b = base_args(project, project_ro);
    let n = network_args(mode, h);
    let a = b + n;
    let flag = if project_ro { "--ro-bind"@ } else { "--bind"@ };
    lemma_network_args_shape(mode, h);
    assert(a.take(25) =~= isolation_prefix());
    assert forall|k: int| 0 <= k < 28 implies #[trigger] a[k] == b[k] by {}
    assert(a[0] == "--unshare-user"@);
    assert(a[1] == "--unshare-ipc"@);
    assert(a[2] == "--unshare-pid"@);
    assert(a[3] == "--unshare-uts"@);
    assert(a[4] == "--unshare-cgroup"@);
    assert(a[5] == "--die-with-parent"@);
    assert(a[8] == "--new-session"@);
    assert forall|i: int| 0 <= i < a.len() && (#[trigger] a[i] == "--dir"@ || a[i] == "--bind"@ || a[i]
        == "--ro-bind"@) implies 10 < i by {
        if i <= 10 {
            assert(a[i] == isolation_prefix()[i]);
        }
    }
    assert forall|i: int| 0 <= i && i + 2 < a.len() && #[trigger] a[i] == flag && a[i + 1] == project && a[i
        + 2] == project implies i == 25 by {
        if i < 25 {
            assert(a[i] == isolation_prefix()[i]);
            assert(a[i].len() != flag.len() || a[i][2] != flag[2]);
        } else if i == 26 || i == 27 {
            assert(a[28] == n[0]);
            assert(project == flag);
            if project_ro {
                assert(n.contains(project));
            } else {
                assert(n[0] != flag);
            }
        } else if i > 27 {
            let j = i - 28;
            assert(a[i] == n[j]);
            assert(a[i + 1] == n[j + 1]);
            if project_ro {
                assert(n[j] == "--ro-bind"@);
                assert(n.contains(project));
                assert(network_file(project));
            } else {
                assert(n[j].len() != 6);
            }
        }
    }
}

/// Source protection by default: with the default `[sandbox]` section the
/// project directory is bound read-only, and no writable bind of it, nor
/// any `src/` overlay, is made.
pub proof fn law_default_project_read_only(
    req: RunRequest,
    cfg: LionConfig,
    mods: Seq<OptionalModule>,
    h: HostView,
    port: Option<u16>,
)
    requires
        crate::config::is_default_sandbox(cfg.sandbox),
    ensures
        run_args(req, cfg, mods, h, port)[25] == "--ro-bind"@,
        src_overlay_args(
            req.project_path@,
            access_is_ro(cfg.sandbox.project_access@),
            access_is_ro(cfg.sandbox.src_access@),
            h,
        ) == Seq::<Seq<char>>::empty(),
{
    crate::config::law_default_is_read_only(cfg.sandbox);
    law_fresh_isolated_root(req, cfg, mods, h, port);
}

/// Without a network profile the sandbox gets a network namespace of its
/// own, right after the project directory.
pub proof fn law_no_network_by_default(
    req: RunRequest,
    cfg: LionConfig,
    mods: Seq<OptionalModule>,
    h: HostView,
    port: Option<u16>,
)
    requires
        req.network_mode == NetworkMode::Isolated,
    ensures
        run_args(req, cfg, mods, h, port)[28] == "--unshare-net"@,
{
    let a = run_args(req, cfg, mods, h, port);
    assert(a.take(29) =~= head_args(req, cfg, h));
    assert(a[28] == a.take(29)[28]);
}

/// The other network profiles share the host's network: their arguments
/// create no network namespace.
pub proof fn law_network_profiles_share_the_network(mode: NetworkMode, h: HostView)
    requires
        mode != NetworkMode::Isolated,
    ensures
        !network_args(mode, h).contains("--unshare-net"@),
{
    reveal_strlit("--unshare-net");
    reveal_strlit("--ro-bind");
    reveal_strlit("/etc/resolv.conf");
    reveal_strlit("/etc/ssl");
    reveal_strlit("/etc/pki");
    let n = network_args(mode, h);
    assert forall|i: int| 0 <= i < n.len() implies n[i] != "--unshare-net"@ by {
        assert(n[i].len() != "--unshare-net"@.len() || n[i][2] != "--unshare-net"@[2]);
    }
}

/// The program and its arguments come last, unchanged, after
/// `--chdir <project> --`: nothing of the request can be read as an option
/// of the sandbox.
pub proof fn law_command_comes_last(
    req: RunRequest,
    cfg: LionConfig,
    mods: Seq<OptionalModule>,
    h: HostView,
    port: Option<u16>,
)
    ensures
        ({
            let a = run_args(req, cfg, mods, h, port);
            let c = string_views(req.cmd@);
            &&& a.len() >= c.len() + 3
            &&& a.skip(a.len() - c.len()) == c
            &&& a.subrange(a.len() - c.len() - 3, a.len() - c.len()) == seq![
                "--chdir"@,
                req.project_path@,
                "--"@,
            ]
        }),
{
    let a = run_args(req, cfg, mods, h, port);
    let c = string_views(req.cmd@);
    let tail = command_args(req.project_path@, c);
    let front = a.take(a.len() - tail.len());
    assert(a =~= front + tail);
    assert(a.skip(a.len() - c.len()) =~= c);
    assert(a.subrange(a.len() - c.len() - 3, a.len() - c.len()) =~= seq![
        "--chdir"@,
        req.project_path@,
        "--"@,
    ]);
}

/// The environment is scrubbed: after the mounts, the host's variables
/// are cleared and only fixed, harmless values are set; whatever a module
/// or the proxy forwards comes after.
pub proof fn law_environment_scrubbed(
    req: RunRequest,
    cfg: LionConfig,
    mods: Seq<OptionalModule>,
    h: HostView,
    port: Option<u16>,
)
    ensures
        ({
            let a = run_args(req, cfg, mods, h, port);
            exists|e: int|
                28 <= e && e + 16 <= a.len() && #[trigger] a.subrange(e, e + 16) == scrubbed_environment()
                    && a.skip(e + 16) == modules_args(mods, string_views(req.optional_names@), h)
                    + proxy_args(req.network_mode, port) + command_args(
                    req.project_path@,
                    string_views(req.cmd@),
                )
        }),
{
    let a = run_args(req, cfg, mods, h, port);
    let project = req.project_path@;
    let pro = access_is_ro(cfg.sandbox.project_access@);
    let sro = access_is_ro(cfg.sandbox.src_access@);
    let mounts = base_args(project, pro) + network_args(req.network_mode, h) + system_mount_args(h)
        + src_overlay_args(project, pro, sro, h) + config_mount_args(cfg.mount@, h) + ro_path_args(
        string_views(req.ro_paths@),
        h,
    );
    let rest = modules_args(mods, string_views(req.optional_names@), h) + proxy_args(
        req.network_mode,
        port,
    ) + command_args(project, string_views(req.cmd@));
    let e = mounts.len() as int;
    assert(a =~= mounts + environment_args(false, h) + rest);
    assert(environment_args(false, h) =~= scrubbed_environment());
    assert(a.subrange(e, e + 16) =~= scrubbed_environment());
    assert(a.skip(e + 16) =~= rest);
}

/// Source protection: when the project is writable but `src/` is to stay
/// read-only and exists, a read-only bind of `src/` follows the project's
/// writable bind, and so shadows it.
pub proof fn law_src_stays_read_only(
    req: RunRequest,
    cfg: LionConfig,
    mods: Seq<OptionalModule>,
    h: HostView,
    port: Option<u16>,
)
    requires
        !access_is_ro(cfg.sandbox.project_access@),
        access_is_ro(cfg.sandbox.src_access@),
        path_exists(h, src_path(req.project_path@)),
    ensures
        ({
            let a = run_args(req, cfg, mods, h, port);
            let s = src_path(req.project_path@);
            exists|k: int|
                28 <= k && k + 3 <= a.len() && #[trigger] a.subrange(k, k + 3) == seq![
                    "--ro-bind"@,
                    s,
                    s,
                ]
        }),
{
    let a = run_args(req, cfg, mods, h, port);
    let project = req.project_path@;
    let s = src_path(project);
    let front = base_args(project, false) + network_args(req.network_mode, h) + system_mount_args(h);
    let k = front.len() as int;
    let overlay = src_overlay_args(project, false, true, h);
    assert(overlay == seq!["--ro-bind"@, s, s]);
    let rest = a.skip(k + 3);
    assert(a =~= front + overlay + rest);
    assert(a.subrange(k, k + 3) =~= overlay);
}

/// The proxy's port changes nothing outside `--net=allow`.
pub proof fn law_proxy_only_with_allow(
    req: RunRequest,
    cfg: LionConfig,
    mods: Seq<OptionalModule>,
    h: HostView,
    port: Option<u16>,
)
    requires
        req.network_mode != NetworkMode::Allow,
    ensures
        run_args(req, cfg, mods, h, port) == run_args(req, cfg, mods, h, None),
{
    assert(proxy_args(req.network_mode, port) =~= proxy_args(req.network_mode, None));
}

/// Under `--net=allow` with the proxy started, HTTP clients in the sandbox
/// are pointed at it.
pub proof fn law_allow_points_clients_at_proxy(
    req: RunRequest,
    cfg: LionConfig,
    mods: Seq<OptionalModule>,
    h: HostView,
    port: u16,
)
    requires
        req.network_mode == NetworkMode::Allow,
    ensures
        ({
            let a = run_args(req, cfg, mods, h, Some(port));
            exists|k: int|
                0 <= k && k + 6 <= a.len() && #[trigger] a.subrange(k, k + 6) == seq![
                    "--setenv"@,
                    "HTTP_PROXY"@,
                    proxy_url(port),
                    "--setenv"@,
                    "HTTPS_PROXY"@,
                    proxy_url(port),
                ]
        }),
{
    let a = run_args(req, cfg, mods, h, Some(port));
    let project = req.project_path@;
    let pro = access_is_ro(cfg.sandbox.project_access@);
    let sro = access_is_ro(cfg.sandbox.src_access@);
    let front = base_args(project, pro) + network_args(req.network_mode, h) + system_mount_args(h)
        + src_overlay_args(project, pro, sro, h) + config_mount_args(cfg.mount@, h) + ro_path_args(
        string_views(req.ro_paths@),
        h,
    ) + environment_args(false, h) + modules_args(mods, string_views(req.optional_names@), h);
    let px = proxy_env_args(proxy_url(port));
    let tail = command_args(project, string_views(req.cmd@));
    assert(a =~= front + px + tail);
    let k = front.len() as int;
    assert(a.subrange(k, k + 6) =~= px.take(6));
}

proof fn lemma_ro_path_bound(ps: Seq<Seq<char>>, h: HostView, i: int)
    requires
        0 <= i < ps.len(),
        path_exists(h, ps[i]),
    ensures
        exists|k: int|
            0 <= k && k + 3 <= ro_path_args(ps, h).len() && #[trigger] ro_path_args(ps, h).subrange(k, k + 3)
                == seq!["--ro-bind"@, ps[i], ps[i]],
    decreases ps.len(),
{
    let prev = ro_path_args(ps.drop_last(), h);
    let all = ro_path_args(ps, h);
    if i == ps.len() - 1 {
        let k = prev.len() as int;
        assert(all.subrange(k, k + 3) =~= seq!["--ro-bind"@, ps[i], ps[i]]);
    } else {
        lemma_ro_path_bound(ps.drop_last(), h, i);
        let k = choose|k: int|
            0 <= k && k + 3 <= prev.len() && #[trigger] prev.subrange(k, k + 3) == seq![
                "--ro-bind"@,
                ps.drop_last()[i],
                ps.drop_last()[i],
            ];
        assert(all.subrange(k, k + 3) =~= prev.subrange(k, k + 3));
    }
}

proof fn lemma_entry_bound(ms: Seq<MountEntry>, h: HostView, i: int)
    requires
        0 <= i < ms.len(),
        path_exists(h, entry_host_path(ms[i], h)),
    ensures
        exists|k: int|
            0 <= k && k + 3 <= config_mount_args(ms, h).len() && #[trigger] config_mount_args(ms, h).subrange(
                k,
                k + 3,
            ) == entry_args(ms[i], h),
    decreases ms.len(),
{
    let prev = config_mount_args(ms.drop_last(), h);
    let all = config_mount_args(ms, h);
    if i == ms.len() - 1 {
        let k = prev.len() as int;
        assert(all.subrange(k, k + 3) =~= entry_args(ms[i], h));
    } else {
        lemma_entry_bound(ms.drop_last(), h, i);
        let k = choose|k: int|
            0 <= k && k + 3 <= prev.len() && #[trigger] prev.subrange(k, k + 3) == entry_args(
                ms.drop_last()[i],
                h,
            );
        assert(all.subrange(k, k + 3) =~= prev.subrange(k, k + 3));
    }
}

/// The arguments of a run before its `[[mount]]` entries.
pub open spec fn before_entries(req: RunRequest, cfg: LionConfig, h: HostView) -> Seq<Seq<char>> {
    let project = req.project_path@;
    let pro = access_is_ro(cfg.sandbox.project_access@);
    let sro = access_is_ro(cfg.sandbox.src_access@);
    base_args(project, pro) + network_args(req.network_mode, h) + system_mount_args(h) + src_overlay_args(
        project,
        pro,
        sro,
        h,
    )
}

/// Each `--ro` path that exists is bound read-only onto itself, after the
/// project directory.
pub proof fn law_ro_paths_read_only(
    req: RunRequest,
    cfg: LionConfig,
    mods: Seq<OptionalModule>,
    h: HostView,
    port: Option<u16>,
    i: int,
)
    requires
        0 <= i < req.ro_paths@.len(),
        path_exists(h, req.ro_paths@[i]@),
    ensures
        ({
            let a = run_args(req, cfg, mods, h, port);
            let p = req.ro_paths@[i]@;
            exists|k: int|
                28 <= k && k + 3 <= a.len() && #[trigger] a.subrange(k, k + 3) == seq!["--ro-bind"@, p, p]
        }),
{
    let a = run_args(req, cfg, mods, h, port);
    let ps = string_views(req.ro_paths@);
    let p = req.ro_paths@[i]@;
    assert(ps[i] == p);
    lemma_ro_path_bound(ps, h, i);
    let ro = ro_path_args(ps, h);
    let j = choose|j: int| 0 <= j && j + 3 <= ro.len() && #[trigger] ro.subrange(j, j + 3) == seq!["--ro-bind"@, ps[i], ps[i]];
    let front = before_entries(req, cfg, h) + config_mount_args(cfg.mount@, h);
    let rest = a.skip((front.len() + ro.len()) as int);
    assert(a =~= front + ro + rest);
    assert(front.len() >= 28);
    let k = front.len() + j;
    assert(a.subrange(k, k + 3) =~= ro.subrange(j, j + 3));
}

/// Each `[[mount]]` entry whose host path exists is bound onto itself,
/// read-only or read-write as its access says, after the project directory
/// and the `src/` overlay.
pub proof fn law_config_mounts_bound(
    req: RunRequest,
    cfg: LionConfig,
    mods: Seq<OptionalModule>,
    h: HostView,
    port: Option<u16>,
    i: int,
)
    requires
        0 <= i < cfg.mount@.len(),
        path_exists(h, entry_host_path(cfg.mount@[i], h)),
    ensures
        ({
            let a = run_args(req, cfg, mods, h, port);
            let m = cfg.mount@[i];
            let p = entry_host_path(m, h);
            exists|k: int|
                before_entries(req, cfg, h).len() <= k && k + 3 <= a.len() && #[trigger] a.subrange(k, k + 3)
                    == seq![if access_is_ro(m.access@) { "--ro-bind"@ } else { "--bind"@ }, p, p]
        }),
{
    let a = run_args(req, cfg, mods, h, port);
    lemma_entry_bound(cfg.mount@, h, i);
    let cm = config_mount_args(cfg.mount@, h);
    let j = choose|j: int| 0 <= j && j + 3 <= cm.len() && #[trigger] cm.subrange(j, j + 3) == entry_args(cfg.mount@[i], h);
    let front = before_entries(req, cfg, h);
    let rest = a.skip((front.len() + cm.len()) as int);
    assert(a =~= front + cm + rest);
    let k = front.len() + j;
    assert(a.subrange(k, k + 3) =~= cm.subrange(j, j + 3));
}

// ── What the host's environment can reach ──────────────────────────────────

/// Two hosts that see the same paths and give every variable but `v` the
/// same value.
pub open spec fn differ_only_in(h1: HostView, h2: HostView, v: Seq<char>) -> bool {
    &&& string_views(h1.existing@) == string_views(h2.existing@)
    &&& agree_except(h1.env@, h2.env@, v)
}

/// `m` does not forward `v`, and no path of `m` expands `${v}` under `env`.
pub open spec fn module_ignores(m: OptionalModule, env: Seq<crate::host::EnvVar>, v: Seq<char>) -> bool {
    &&& !string_views(m.env@).contains(v)
    &&& forall|k: int|
        0 <= k < m.mounts@.len() ==> never_names(#[trigger] m.mounts@[k].src@, env, v) && never_names(
            m.mounts@[k].dst@,
            env,
            v,
        )
    &&& match m.path {
        Some(p) => never_names(p@, env, v),
        None => true,
    }
}

proof fn lemma_config_mounts_same(ms: Seq<MountEntry>, h1: HostView, h2: HostView, v: Seq<char>)
    requires
        differ_only_in(h1, h2, v),
        v != "HOME"@,
    ensures
        config_mount_args(ms, h1) == config_mount_args(ms, h2),
    decreases ms.len(),
{
    if ms.len() > 0 {
        lemma_config_mounts_same(ms.drop_last(), h1, h2, v);
        assert(crate::host::env_var(h1, "HOME"@) == crate::host::env_var(h2, "HOME"@));
        assert(entry_args(ms.last(), h1) == entry_args(ms.last(), h2));
    }
}

proof fn lemma_ro_paths_same(ps: Seq<Seq<char>>, h1: HostView, h2: HostView, v: Seq<char>)
    requires
        differ_only_in(h1, h2, v),
    ensures
        ro_path_args(ps, h1) == ro_path_args(ps, h2),
    decreases ps.len(),
{
    if ps.len() > 0 {
        lemma_ro_paths_same(ps.drop_last(), h1, h2, v);
        assert(ro_bind_if_exists(h1, ps.last()) == ro_bind_if_exists(h2, ps.last()));
    }
}

proof fn lemma_module_env_same(vars: Seq<String>, h1: HostView, h2: HostView, v: Seq<char>)
    requires
        differ_only_in(h1, h2, v),
        !string_views(vars).contains(v),
    ensures
        module_env_args(vars, h1) == module_env_args(vars, h2),
    decreases vars.len(),
{
    if vars.len() > 0 {
        assert(string_views(vars.drop_last()) =~= string_views(vars).drop_last());
        assert(string_views(vars)[vars.len() - 1] == vars.last()@);
        lemma_module_env_same(vars.drop_last(), h1, h2, v);
        assert(vars.last()@ != v);
        assert(setenv_from_host(h1, vars.last()@) == setenv_from_host(h2, vars.last()@));
    }
}

proof fn lemma_module_mounts_same(ms: Seq<ModuleMount>, h1: HostView, h2: HostView, v: Seq<char>)
    requires
        differ_only_in(h1, h2, v),
        forall|k: int|
            0 <= k < ms.len() ==> never_names(#[trigger] ms[k].src@, h1.env@, v) && never_names(ms[k].dst@, h1.env@, v),
        forall|k: int|
            0 <= k < ms.len() ==> crate::optional_modules::expansion_finishes(#[trigger] ms[k].src@, h1.env@)
                && crate::optional_modules::expansion_finishes(ms[k].dst@, h1.env@),
    ensures
        module_mount_args(ms, h1) == module_mount_args(ms, h2),
    decreases ms.len(),
{
    if ms.len() > 0 {
        let mm = ms.last();
        assert(ms[ms.len() - 1] == mm);
        lemma_module_mounts_same(ms.drop_last(), h1, h2, v);
        lemma_expansion_ignores(mm.src@, h1.env@, h2.env@, v);
        lemma_expansion_ignores(mm.dst@, h1.env@, h2.env@, v);
    }
}

#[verifier::spinoff_prover]
proof fn lemma_module_same(m: OptionalModule, h1: HostView, h2: HostView, v: Seq<char>)
    requires
        differ_only_in(h1, h2, v),
        module_ignores(m, h1.env@, v),
        module_expands(m, h1.env@),
    ensures
        module_args(m, h1) == module_args(m, h2),
{
    lemma_module_mounts_same(m.mounts@, h1, h2, v);
    lemma_module_env_same(m.env@, h1, h2, v);
    match m.path {
        Some(p) => {
            lemma_expansion_ignores(p@, h1.env@, h2.env@, v);
            assert(module_path_args(m, h1) == module_path_args(m, h2));
        },
        None => {},
    }
}

proof fn lemma_modules_same(
    mods: Seq<OptionalModule>,
    requested: Seq<Seq<char>>,
    h1: HostView,
    h2: HostView,
    v: Seq<char>,
)
    requires
        differ_only_in(h1, h2, v),
        forall|i: int|
            0 <= i < mods.len() && is_active(#[trigger] mods[i], requested) ==> module_ignores(mods[i], h1.env@, v)
                && module_expands(mods[i], h1.env@),
    ensures
        modules_args(mods, requested, h1) == modules_args(mods, requested, h2),
    decreases mods.len(),
{
    if mods.len() > 0 {
        let m = mods.last();
        assert(mods[mods.len() - 1] == m);
        assert forall|i: int|
            0 <= i < mods.drop_last().len() && is_active(#[trigger] mods.drop_last()[i], requested) implies module_ignores(
            mods.drop_last()[i],
            h1.env@,
            v,
        ) && module_expands(mods.drop_last()[i], h1.env@) by {
            assert(mods.drop_last()[i] == mods[i]);
        }
        lemma_modules_same(mods.drop_last(), requested, h1, h2, v);
        if is_active(m, requested) {
            lemma_module_same(m, h1, h2, v);
        }
    }
}

/// Host variables that nothing forwards never reach the sandbox: on two
/// hosts that see the same paths and differ only in the value of one
/// variable `v` (not `HOME` nor `XDG_RUNTIME_DIR`, which the system mounts
/// read), the command line is the same, as long as no active module
/// forwards `v` or expands `${v}` in one of its paths.
pub proof fn law_unforwarded_variable_stays_out(
    req: RunRequest,
    cfg: LionConfig,
    mods: Seq<OptionalModule>,
    h1: HostView,
    h2: HostView,
    port: Option<u16>,
    v: Seq<char>,
)
    requires
        differ_only_in(h1, h2, v),
        v != "HOME"@,
        v != "XDG_RUNTIME_DIR"@,
        crate::sandbox_engine::runner::active_modules_expand(mods, string_views(req.optional_names@), h1.env@),
        forall|i: int|
            0 <= i < mods.len() && is_active(#[trigger] mods[i], string_views(req.optional_names@))
                ==> module_ignores(mods[i], h1.env@, v),
    ensures
        run_args(req, cfg, mods, h1, port) == run_args(req, cfg, mods, h2, port),
{
    let project = req.project_path@;
    let pro = access_is_ro(cfg.sandbox.project_access@);
    let sro = access_is_ro(cfg.sandbox.src_access@);
    let names = string_views(req.optional_names@);
    assert(crate::host::env_var(h1, "HOME"@) == crate::host::env_var(h2, "HOME"@));
    assert(crate::host::env_var(h1, "XDG_RUNTIME_DIR"@) == crate::host::env_var(h2, "XDG_RUNTIME_DIR"@));
    assert(network_args(req.network_mode, h1) == network_args(req.network_mode, h2));
    assert(standard_dir_args(h1) == standard_dir_args(h2));
    assert(home_dir_args(h1) == home_dir_args(h2));
    assert(snapd_args(h1) == snapd_args(h2));
    assert(agent_args(h1) == agent_args(h2));
    assert(system_mount_args(h1) == system_mount_args(h2));
    assert(src_overlay_args(project, pro, sro, h1) == src_overlay_args(project, pro, sro, h2));
    lemma_config_mounts_same(cfg.mount@, h1, h2, v);
    lemma_ro_paths_same(string_views(req.ro_paths@), h1, h2, v);
    assert(environment_args(false, h1) == environment_args(false, h2));
    assert forall|i: int|
        0 <= i < mods.len() && is_active(#[trigger] mods[i], names) implies module_ignores(mods[i], h1.env@, v)
        && module_expands(mods[i], h1.env@) by {}
    lemma_modules_same(mods, names, h1, h2, v);
}

// ── What the saved modules bind ────────────────────────────────────────────

/// Whether `w` occurs in `s` as consecutive arguments.
pub open spec fn has_window(s: Seq<Seq<char>>, w: Seq<Seq<char>>) -> bool {
    exists|j: int| 0 <= j && j + w.len() <= s.len() && #[trigger] s.subrange(j, j + w.len()) == w
}

proof fn lemma_window_left(x: Seq<Seq<char>>, y: Seq<Seq<char>>, w: Seq<Seq<char>>)
    requires
        has_window(x, w),
    ensures
        has_window(x + y, w),
{
    let j = choose|j: int| 0 <= j && j + w.len() <= x.len() && #[trigger] x.subrange(j, j + w.len()) == w;
    assert((x + y).subrange(j, j + w.len()) =~= x.subrange(j, j + w.len()));
}

proof fn lemma_window_right(x: Seq<Seq<char>>, y: Seq<Seq<char>>, w: Seq<Seq<char>>)
    requires
        has_window(y, w),
    ensures
        has_window(x + y, w),
{
    let j = choose|j: int| 0 <= j && j + w.len() <= y.len() && #[trigger] y.subrange(j, j + w.len()) == w;
    assert((x + y).subrange(x.len() + j, x.len() + j + w.len()) =~= y.subrange(j, j + w.len()));
}

proof fn lemma_mount_window(ms: Seq<ModuleMount>, h: HostView, k: int)
    requires
        0 <= k < ms.len(),
        path_exists(h, crate::optional_modules::expanded(ms[k].src@, h.env@)),
    ensures
        has_window(
            module_mount_args(ms, h),
            seq![
                crate::sandbox_engine::runner::mount_flag(ms[k].mode@),
                crate::optional_modules::expanded(ms[k].src@, h.env@),
                crate::optional_modules::expanded(ms[k].dst@, h.env@),
            ],
        ),
    decreases ms.len(),
{
    let w = seq![
        crate::sandbox_engine::runner::mount_flag(ms[k].mode@),
        crate::optional_modules::expanded(ms[k].src@, h.env@),
        crate::optional_modules::expanded(ms[k].dst@, h.env@),
    ];
    let prev = module_mount_args(ms.drop_last(), h);
    let last = module_mount_args(ms, h).skip(prev.len() as int);
    assert(module_mount_args(ms, h) =~= prev + last);
    if k == ms.len() - 1 {
        assert(last =~= w);
        assert(last.subrange(0int, 0int + w.len()) =~= w);
        assert(has_window(last, w));
        lemma_window_right(prev, last, w);
    } else {
        assert(ms.drop_last()[k] == ms[k]);
        lemma_mount_window(ms.drop_last(), h, k);
        lemma_window_left(prev, last, w);
    }
}

proof fn lemma_module_window(mods: Seq<OptionalModule>, requested: Seq<Seq<char>>, h: HostView, i: int, w: Seq<Seq<char>>)
    requires
        0 <= i < mods.len(),
        is_active(mods[i], requested),
        has_window(module_args(mods[i], h), w),
    ensures
        has_window(modules_args(mods, requested, h), w),
    decreases mods.len(),
{
    let prev = modules_args(mods.drop_last(), requested, h);
    let last = modules_args(mods, requested, h).skip(prev.len() as int);
    assert(modules_args(mods, requested, h) =~= prev + last);
    if i == mods.len() - 1 {
        assert(last =~= module_args(mods[i], h));
        lemma_window_right(prev, last, w);
    } else {
        assert(mods.drop_last()[i] == mods[i]);
        lemma_module_window(mods.drop_last(), requested, h, i, w);
        lemma_window_left(prev, last, w);
    }
}

/// Every mount of an active saved module (enabled in the file or asked for
/// with `--optional`) whose source exists is bound as its mode says: `rw`
/// or `bind` read-write (`--bind`), `dev` or `dev-bind` as a device
/// (`--dev-bind`), anything else read-only (`--ro-bind`), from its expanded
/// source to its expanded destination; and its single path, when it
/// exists, is bound read-write onto itself.
#[verifier::spinoff_prover]
pub proof fn law_module_mounts_follow_their_mode(
    req: RunRequest,
    cfg: LionConfig,
    mods: Seq<OptionalModule>,
    h: HostView,
    port: Option<u16>,
    i: int,
    k: int,
)
    requires
        0 <= i < mods.len(),
        mods[i].state == 1 || string_views(req.optional_names@).contains(mods[i].name@),
    ensures
        ({
            let m = mods[i];
            let a = run_args(req, cfg, mods, h, port);
            &&& (0 <= k < m.mounts@.len() && path_exists(
                h,
                crate::optional_modules::expanded(m.mounts@[k].src@, h.env@),
            )) ==> {
                let mode = m.mounts@[k].mode@;
                let flag = if mode == "rw"@ || mode == "bind"@ {
                    "--bind"@
                } else if mode == "dev"@ || mode == "dev-bind"@ {
                    "--dev-bind"@
                } else {
                    "--ro-bind"@
                };
                has_window(
                    a,
                    seq![
                        flag,
                        crate::optional_modules::expanded(m.mounts@[k].src@, h.env@),
                        crate::optional_modules::expanded(m.mounts@[k].dst@, h.env@),
                    ],
                )
            }
            &&& (m.path is Some && path_exists(h, crate::optional_modules::expanded(m.path->0@, h.env@))) ==> {
                let e = crate::optional_modules::expanded(m.path->0@, h.env@);
                has_window(a, seq!["--bind"@, e, e])
            }
        }),
{
    let m = mods[i];
    let names = string_views(req.optional_names@);
    assert(is_active(m, names));
    if 0 <= k < m.mounts@.len() && path_exists(h, crate::optional_modules::expanded(m.mounts@[k].src@, h.env@)) {
        let mode = m.mounts@[k].mode@;
        let flag = if mode == "rw"@ || mode == "bind"@ {
            "--bind"@
        } else if mode == "dev"@ || mode == "dev-bind"@ {
            "--dev-bind"@
        } else {
            "--ro-bind"@
        };
        assert(crate::sandbox_engine::runner::mount_flag(mode) == flag);
        let w = seq![
            flag,
            crate::optional_modules::expanded(m.mounts@[k].src@, h.env@),
            crate::optional_modules::expanded(m.mounts@[k].dst@, h.env@),
        ];
        lemma_mount_in_module(m, h, k);
        lemma_module_window(mods, names, h, i, w);
        lemma_window_in_run(req, cfg, mods, h, port, w);
    }
    if m.path is Some && path_exists(h, crate::optional_modules::expanded(m.path->0@, h.env@)) {
        let e = crate::optional_modules::expanded(m.path->0@, h.env@);
        let w = seq!["--bind"@, e, e];
        lemma_path_in_module(m, h);
        lemma_module_window(mods, names, h, i, w);
        lemma_window_in_run(req, cfg, mods, h, port, w);
    }
}

proof fn lemma_mount_in_module(m: OptionalModule, h: HostView, k: int)
    requires
        0 <= k < m.mounts@.len(),
        path_exists(h, crate::optional_modules::expanded(m.mounts@[k].src@, h.env@)),
    ensures
        has_window(
            module_args(m, h),
            seq![
                crate::sandbox_engine::runner::mount_flag(m.mounts@[k].mode@),
                crate::optional_modules::expanded(m.mounts@[k].src@, h.env@),
                crate::optional_modules::expanded(m.mounts@[k].dst@, h.env@),
            ],
        ),
{
    let w = seq![
        crate::sandbox_engine::runner::mount_flag(m.mounts@[k].mode@),
        crate::optional_modules::expanded(m.mounts@[k].src@, h.env@),
        crate::optional_modules::expanded(m.mounts@[k].dst@, h.env@),
    ];
    let mounts = module_mount_args(m.mounts@, h);
    let pa = module_path_args(m, h);
    let ea = module_env_args(m.env@, h);
    lemma_mount_window(m.mounts@, h, k);
    lemma_window_left(mounts, pa, w);
    lemma_window_left(mounts + pa, ea, w);
}

proof fn lemma_path_in_module(m: OptionalModule, h: HostView)
    requires
        m.path is Some,
        path_exists(h, crate::optional_modules::expanded(m.path->0@, h.env@)),
    ensures
        has_window(
            module_args(m, h),
            seq![
                "--bind"@,
                crate::optional_modules::expanded(m.path->0@, h.env@),
                crate::optional_modules::expanded(m.path->0@, h.env@),
            ],
        ),
{
    let e = crate::optional_modules::expanded(m.path->0@, h.env@);
    let w = seq!["--bind"@, e, e];
    let mounts = module_mount_args(m.mounts@, h);
    let pa = module_path_args(m, h);
    let ea = module_env_args(m.env@, h);
    assert(pa =~= w);
    assert(pa.subrange(0int, 0int + w.len()) =~= w);
    assert(has_window(pa, w));
    lemma_window_right(mounts, pa, w);
    lemma_window_left(mounts + pa, ea, w);
}

proof fn lemma_window_in_run(
    req: RunRequest,
    cfg: LionConfig,
    mods: Seq<OptionalModule>,
    h: HostView,
    port: Option<u16>,
    w: Seq<Seq<char>>,
)
    requires
        has_window(modules_args(mods, string_views(req.optional_names@), h), w),
    ensures
        has_window(run_args(req, cfg, mods, h, port), w),
{
    let names = string_views(req.optional_names@);
    let project = req.project_path@;
    let pro = access_is_ro(cfg.sandbox.project_access@);
    let sro = access_is_ro(cfg.sandbox.src_access@);
    let before = base_args(project, pro) + network_args(req.network_mode, h) + system_mount_args(h)
        + src_overlay_args(project, pro, sro, h) + config_mount_args(cfg.mount@, h) + ro_path_args(
        string_views(req.ro_paths@),
        h,
    ) + environment_args(false, h);
    let after = proxy_args(req.network_mode, port) + command_args(project, string_views(req.cmd@));
    let ma = modules_args(mods, names, h);
    assert(run_args(req, cfg, mods, h, port) == before + ma + after);
    lemma_window_right(before, ma, w);
    lemma_window_left(before + ma, after, w);
}

} // verus!
