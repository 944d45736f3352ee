//! The host system directories a sandboxed program needs.

use vstd::prelude::*;
use crate::host::{HostView, env_var, path_exists};
use crate::sandbox_engine::builder::{bind_if_exists, ro_bind_if_exists, push_bind_if_exists, push_ro_bind_if_exists};
use crate::text::{chars_of, push_arg, push_str, push_string, string_of, string_views};

verus! {

/// The per-user snapd session agent socket under the runtime directory.
pub open spec fn agent_socket(runtime_dir: Seq<char>) -> Seq<char> {
    runtime_dir + "/snapd-session-agent.socket"@
}

/// The runtime directory and the snapd session agent socket, when the
/// socket exists.
pub open spec fn agent_args(h: HostView) -> Seq<Seq<char>> {
    match env_var(h, "XDG_RUNTIME_DIR"@) {
        Some(rd) => if path_exists(h, agent_socket(rd)) {
            seq!["--dir"@, rd, "--bind"@, agent_socket(rd), agent_socket(rd)]
        } else {
            seq![]
        },
        None => seq![],
    }
}

/// An empty directory at `$HOME`, when `HOME` is set.
pub open spec fn home_dir_args(h: HostView) -> Seq<Seq<char>> {
    match env_var(h, "HOME"@) {
        Some(home) => seq!["--dir"@, home],
        None => seq![],
    }
}

/// The standard system directories, read-only when they exist.
pub open spec fn standard_dir_args(h: HostView) -> Seq<Seq<char>> {
    ro_bind_if_exists(h, "/usr"@) + ro_bind_if_exists(h, "/bin"@) + ro_bind_if_exists(h, "/lib"@)
        + ro_bind_if_exists(h, "/lib64"@) + ro_bind_if_exists(h, "/etc/alternatives"@)
        + ro_bind_if_exists(h, "/snap"@) + ro_bind_if_exists(h, "/opt"@)
}

/// The snapd sockets and namespace directory, when they exist.
pub open spec fn snapd_args(h: HostView) -> Seq<Seq<char>> {
    bind_if_exists(h, "/run/snapd.socket"@) + bind_if_exists(h, "/run/snapd-snap.socket"@)
        + bind_if_exists(h, "/run/snapd/ns"@)
}

/// The system mounts: standard directories read-only, an empty home
/// directory, and the snapd sockets when they exist.
pub open spec fn system_mount_args(h: HostView) -> Seq<Seq<char>> {
    standard_dir_args(h) + home_dir_args(h) + snapd_args(h) + agent_args(h)
}

fn push_standard_dirs(args: &mut Vec<String>, host: &HostView)
    ensures
        string_views(final(args)@) == string_views(old(args)@) + standard_dir_args(*host),
{
    let ghost before = string_views(args@);
    push_ro_bind_if_exists(args, host, "/usr");
    push_ro_bind_if_exists(args, host, "/bin");
    push_ro_bind_if_exists(args, host, "/lib");
    push_ro_bind_if_exists(args, host, "/lib64");
    push_ro_bind_if_exists(args, host, "/etc/alternatives");
    push_ro_bind_if_exists(args, host, "/snap");
    push_ro_bind_if_exists(args, host, "/opt");
    proof {
        assert(string_views(args@) =~= before + standard_dir_args(*host));
    }
}

fn push_home_dir(args: &mut Vec<String>, host: &HostView)
    ensures
        string_views(final(args)@) == string_views(old(args)@) + home_dir_args(*host),
{
    let ghost before = string_views(args@);
    match host.var("HOME") {
        Some(home) => {
            push_arg(args, "--dir");
            push_string(args, home);
        },
        None => {},
    }
    proof {
        assert(string_views(args@) =~= before + home_dir_args(*host));
    }
}

fn push_snapd(args: &mut Vec<String>, host: &HostView)
    ensures
        string_views(final(args)@) == string_views(old(args)@) + snapd_args(*host),
{
    let ghost before = string_views(args@);
    push_bind_if_exists(args, host, "/run/snapd.socket");
    push_bind_if_exists(args, host, "/run/snapd-snap.socket");
    push_bind_if_exists(args, host, "/run/snapd/ns");
    proof {
        assert(string_views(args@) =~= before + snapd_args(*host));
    }
}

fn push_agent_socket(args: &mut Vec<String>, host: &HostView)
    ensures
        string_views(final(args)@) == string_views(old(args)@) + agent_args(*host),
{
    let ghost before = string_views(args@);
    match host.var("XDG_RUNTIME_DIR") {
        Some(rd) => {
            let mut sock = chars_of(rd.as_str());
            push_str(&mut sock, "/snapd-session-agent.socket");
            let sock_s = string_of(sock.as_slice());
            if host.has_path(sock_s.as_str()) {
                push_arg(args, "--dir");
                push_string(args, rd);
                push_arg(args, "--bind");
                push_arg(args, sock_s.as_str());
                push_string(args, sock_s);
            }
        },
        None => {},
    }
    proof {
        assert(string_views(args@) =~= before + agent_args(*host));
    }
}

/// Appends the system mounts: `/usr`, `/bin`, `/lib`, `/lib64`,
/// `/etc/alternatives`, `/snap` and `/opt` read-only when they exist; an
/// empty directory at `$HOME` (the real home is never bound); and the snapd
/// sockets, so that snap-packaged tools work inside.
pub fn apply_system_mounts(args: &mut Vec<String>, host: &HostView)
    ensures
        string_views(final(args)@) == string_views(old(args)@) + system_mount_args(*host),
{
    let ghost before = string_views(args@);
    push_standard_dirs(args, host);
    push_home_dir(args, host);
    push_snapd(args, host);
    push_agent_socket(args, host);
    proof {
        assert(string_views(args@) =~= before + system_mount_args(*host));
    }
}

} // verus!
