//! The start of the `bwrap` command line: the namespace unshares, the
//! synthetic root, the project directory and the network profile.

use vstd::prelude::*;
use crate::host::{HostView, path_exists};
use crate::sandbox_engine::network::NetworkMode;
use crate::text::{push_arg, string_views};

verus! {

/// The isolation flags and the synthetic root, then the project directory
/// bound read-only or read-write.
pub open spec fn base_args(project: Seq<char>, project_ro: bool) -> Seq<Seq<char>> {
    seq![
        "--unshare-user"@,
        "--unshare-ipc"@,
        "--unshare-pid"@,
        "--unshare-uts"@,
        "--unshare-cgroup"@,
        "--die-with-parent"@,
        "--hostname"@,
        "lion"@,
        "--new-session"@,
        "--tmpfs"@,
        "/"@,
        "--dir"@,
        "/usr"@,
        "--dir"@,
        "/bin"@,
        "--dir"@,
        "/lib"@,
        "--dir"@,
        "/tmp"@,
        "--dir"@,
        "/run"@,
        "--proc"@,
        "/proc"@,
        "--dev"@,
        "/dev"@,
        if project_ro { "--ro-bind"@ } else { "--bind"@ },
        project,
        project,
    ]
}

/// A read-only bind of `p` onto itself, when `p` exists on the host.
pub open spec fn ro_bind_if_exists(h: HostView, p: Seq<char>) -> Seq<Seq<char>> {
    if path_exists(h, p) {
        seq!["--ro-bind"@, p, p]
    } else {
        seq![]
    }
}

/// A read-write bind of `p` onto itself, when `p` exists on the host.
pub open spec fn bind_if_exists(h: HostView, p: Seq<char>) -> Seq<Seq<char>> {
    if path_exists(h, p) {
        seq!["--bind"@, p, p]
    } else {
        seq![]
    }
}

/// The name service and certificate files a shared network needs.
pub open spec fn full_network_args(h: HostView) -> Seq<Seq<char>> {
    ro_bind_if_exists(h, "/etc/resolv.conf"@) + ro_bind_if_exists(h, "/etc/ssl"@)
        + ro_bind_if_exists(h, "/etc/pki"@)
}

/// The arguments of a network profile.
pub open spec fn network_args(mode: NetworkMode, h: HostView) -> Seq<Seq<char>> {
    match mode {
        NetworkMode::Isolated => seq!["--unshare-net"@],
        NetworkMode::Dns => ro_bind_if_exists(h, "/etc/resolv.conf"@),
        _ => full_network_args(h),
    }
}

/// Appends a bind of `p` onto itself with `flag`.
pub fn push_bind(args: &mut Vec<String>, flag: &str, p: &str)
    ensures
        string_views(final(args)@) == string_views(old(args)@) + seq![flag@, p@, p@],
{
    let ghost before = string_views(args@);
    push_arg(args, flag);
    push_arg(args, p);
    push_arg(args, p);
    proof {
        assert(string_views(args@) =~= before + seq![flag@, p@, p@]);
    }
}

/// Appends a read-only bind of `p`, when `p` exists.
pub fn push_ro_bind_if_exists(args: &mut Vec<String>, host: &HostView, p: &str)
    ensures
        string_views(final(args)@) == string_views(old(args)@) + ro_bind_if_exists(*host, p@),
{
    if host.has_path(p) {
        push_bind(args, "--ro-bind", p);
    } else {
        assert(string_views(args@) =~= string_views(args@) + Seq::<Seq<char>>::empty());
    }
}

/// Appends a read-write bind of `p`, when `p` exists.
pub fn push_bind_if_exists(args: &mut Vec<String>, host: &HostView, p: &str)
    ensures
        string_views(final(args)@) == string_views(old(args)@) + bind_if_exists(*host, p@),
{
    if host.has_path(p) {
        push_bind(args, "--bind", p);
    } else {
        assert(string_views(args@) =~= string_views(args@) + Seq::<Seq<char>>::empty());
    }
}

/// Appends the name service and certificate binds of a shared network.
fn apply_full_network_mounts(args: &mut Vec<String>, host: &HostView)
    ensures
        string_views(final(args)@) == string_views(old(args)@) + full_network_args(*host),
{
    let ghost before = string_views(args@);
    push_ro_bind_if_exists(args, host, "/etc/resolv.conf");
    push_ro_bind_if_exists(args, host, "/etc/ssl");
    push_ro_bind_if_exists(args, host, "/etc/pki");
    proof {
        assert(string_views(args@) =~= before + full_network_args(*host));
    }
}

/// The start of the `bwrap` arguments: every namespace unshared, a fresh
/// empty root with stub directories, fresh `/proc` and `/dev`, the project
/// directory bound onto itself (read-only when `project_ro`), then the
/// network profile.
pub fn build_bwrap(
    project_path: &str,
    network_mode: NetworkMode,
    project_ro: bool,
    host: &HostView,
) -> (r: Vec<String>)
    ensures
        string_views(r@) == base_args(project_path@, project_ro) + network_args(network_mode, *host),
{
    let mut args: Vec<String> = Vec::new();
    push_arg(&mut args, "--unshare-user");
    push_arg(&mut args, "--unshare-ipc");
    push_arg(&mut args, "--unshare-pid");
    push_arg(&mut args, "--unshare-uts");
    push_arg(&mut args, "--unshare-cgroup");
    push_arg(&mut args, "--die-with-parent");
    push_arg(&mut args, "--hostname");
    push_arg(&mut args, "lion");
    push_arg(&mut args, "--new-session");
    push_arg(&mut args, "--tmpfs");
    push_arg(&mut args, "/");
    push_arg(&mut args, "--dir");
    push_arg(&mut args, "/usr");
    push_arg(&mut args, "--dir");
    push_arg(&mut args, "/bin");
    push_arg(&mut args, "--dir");
    push_arg(&mut args, "/lib");
    push_arg(&mut args, "--dir");
    push_arg(&mut args, "/tmp");
    push_arg(&mut args, "--dir");
    push_arg(&mut args, "/run");
    push_arg(&mut args, "--proc");
    push_arg(&mut args, "/proc");
    push_arg(&mut args, "--dev");
    push_arg(&mut args, "/dev");
    if project_ro {
        push_bind(&mut args, "--ro-bind", project_path);
    } else {
        push_bind(&mut args, "--bind", project_path);
    }
    let ghost base = string_views(args@);
    proof {
        assert(base =~= base_args(project_path@, project_ro));
    }
    match network_mode {
        NetworkMode::Isolated => {
            push_arg(&mut args, "--unshare-net");
        },
        NetworkMode::Dns => {
            push_ro_bind_if_exists(&mut args, host, "/etc/resolv.conf");
        },
        _ => {
            apply_full_network_mounts(&mut args, host);
        },
    }
    proof {
        assert(string_views(args@) =~= base + network_args(network_mode, *host));
    }
    args
}

} // verus!
