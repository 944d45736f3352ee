//! The environment of the sandboxed program: the host's is cleared, and only
//! a fixed safe set is given.

use vstd::prelude::*;
use crate::host::{HostView, env_var};
use crate::text::{push_arg, push_string, string_views};

verus! {

/// `--setenv name value` with the host's value, when it is set.
pub open spec fn setenv_from_host(h: HostView, name: Seq<char>) -> Seq<Seq<char>> {
    match env_var(h, name) {
        Some(v) => seq!["--setenv"@, name, v],
        None => seq![],
    }
}

/// The cleared environment and its safe variables, then the display
/// variables of the host when `gui`.
pub open spec fn environment_args(gui: bool, h: HostView) -> Seq<Seq<char>> {
    seq![
        "--clearenv"@,
        "--setenv"@,
        "PATH"@,
        "/usr/bin:/bin"@,
        "--setenv"@,
        "HOME"@,
        "/home/lion"@,
        "--setenv"@,
        "USER"@,
        "lion"@,
        "--setenv"@,
        "LOGNAME"@,
        "lion"@,
        "--setenv"@,
        "LANG"@,
        "C.UTF-8"@,
    ] + if gui {
        setenv_from_host(h, "DISPLAY"@) + setenv_from_host(h, "WAYLAND_DISPLAY"@)
    } else {
        seq![]
    }
}

/// Appends `--setenv name value` with the host's value of `name`, if set.
pub fn push_setenv_from_host(args: &mut Vec<String>, host: &HostView, name: &str)
    ensures
        string_views(final(args)@) == string_views(old(args)@) + setenv_from_host(*host, name@),
{
    let ghost before = string_views(args@);
    match host.var(name) {
        Some(v) => {
            push_arg(args, "--setenv");
            push_arg(args, name);
            push_string(args, v);
        },
        None => {},
    }
    proof {
        assert(string_views(args@) =~= before + setenv_from_host(*host, name@));
    }
}

/// Appends the environment: every host variable cleared, then `PATH`,
/// `HOME`, `USER`, `LOGNAME` and `LANG` set to fixed safe values, and with
/// `gui` the host's `DISPLAY` and `WAYLAND_DISPLAY`.
pub fn apply_environment(args: &mut Vec<String>, gui: bool, host: &HostView)
    ensures
        string_views(final(args)@) == string_views(old(args)@) + environment_args(gui, *host),
{
    let ghost before = string_views(args@);
    push_arg(args, "--clearenv");
    push_arg(args, "--setenv");
    push_arg(args, "PATH");
    push_arg(args, "/usr/bin:/bin");
    push_arg(args, "--setenv");
    push_arg(args, "HOME");
    push_arg(args, "/home/lion");
    push_arg(args, "--setenv");
    push_arg(args, "USER");
    push_arg(args, "lion");
    push_arg(args, "--setenv");
    push_arg(args, "LOGNAME");
    push_arg(args, "lion");
    push_arg(args, "--setenv");
    push_arg(args, "LANG");
    push_arg(args, "C.UTF-8");
    let ghost mid = string_views(args@);
    if gui {
        push_setenv_from_host(args, host, "DISPLAY");
        push_setenv_from_host(args, host, "WAYLAND_DISPLAY");
    }
    proof {
        assert(string_views(args@) =~= before + environment_args(gui, *host));
    }
}

} // verus!
