use lion::config::{LionConfig, MountEntry, SandboxConfig};
use lion::errors::LionError;
use lion::host::{EnvVar, HostView};
use lion::optional_modules::{ModuleMount, OptionalModule, OptionalModulesConfig};
use lion::sandbox_engine::builder::build_bwrap;
use lion::sandbox_engine::network::NetworkMode;
use lion::sandbox_engine::procfs::{
    get_direct_child, get_process_tree, kill_order, parse_proc_entry, parse_stat_ppid, ProcEntry,
};
use lion::sandbox_engine::runner::{
    sandbox_finished, binary_candidates, exposed_paths, find_binary, finalize_execution, is_home_exposed,
    make_proxy_url, plan_run, watch_paths, with_gui_modules, RunRequest, check_module_expansion,
    plan_run_checked, require_bwrap,
};
use lion::optional_modules::{expansion_outcome, ExpansionEnd};
use lion::sandbox_engine::userns::{check_userns_available, UsernsError};

fn s(v: &[&str]) -> Vec<String> {
    v.iter().map(|x| x.to_string()).collect()
}

fn host(existing: &[&str], executable: &[&str], env: &[(&str, &str)]) -> HostView {
    HostView {
        existing: s(existing),
        executable: s(executable),
        env: env
            .iter()
            .map(|(n, v)| EnvVar { name: n.to_string(), value: v.to_string() })
            .collect(),
    }
}

fn request(mode: NetworkMode, cmd: &[&str], ro: &[&str], optional: &[&str]) -> RunRequest {
    RunRequest {
        cmd: s(cmd),
        network_mode: mode,
        ro_paths: s(ro),
        optional_names: s(optional),
        project_path: "/work/proj".to_string(),
    }
}

fn cfg(project: &str, src: &str, mounts: Vec<MountEntry>) -> LionConfig {
    LionConfig {
        sandbox: SandboxConfig { project_access: project.to_string(), src_access: src.to_string() },
        mount: mounts,
    }
}

fn no_modules() -> OptionalModulesConfig {
    OptionalModulesConfig { modules: vec![] }
}

fn position(args: &[String], window: &[&str]) -> Option<usize> {
    args.windows(window.len()).position(|w| w.iter().zip(window).all(|(a, b)| a == b))
}

#[test]
fn build_bwrap_starts_with_isolation_and_project() {
    let h = host(&[], &[], &[]);
    let a = build_bwrap("/p", NetworkMode::Isolated, true, &h);
    assert_eq!(
        a,
        s(&[
            "--unshare-user", "--unshare-ipc", "--unshare-pid", "--unshare-uts", "--unshare-cgroup",
            "--die-with-parent", "--hostname", "lion", "--new-session", "--tmpfs", "/", "--dir", "/usr",
            "--dir", "/bin", "--dir", "/lib", "--dir", "/tmp", "--dir", "/run", "--proc", "/proc", "--dev",
            "/dev", "--ro-bind", "/p", "/p", "--unshare-net",
        ])
    );
    let a = build_bwrap("/p", NetworkMode::Full, false, &host(&["/etc/resolv.conf", "/etc/ssl"], &[], &[]));
    assert_eq!(
        a[25..].to_vec(),
        s(&["--bind", "/p", "/p", "--ro-bind", "/etc/resolv.conf", "/etc/resolv.conf", "--ro-bind", "/etc/ssl", "/etc/ssl"])
    );
    let a = build_bwrap("/p", NetworkMode::Dns, false, &host(&["/etc/resolv.conf", "/etc/ssl"], &[], &[]));
    assert_eq!(a[28..].to_vec(), s(&["--ro-bind", "/etc/resolv.conf", "/etc/resolv.conf"]));
}

#[test]
fn plan_run_default_is_isolated_and_scrubbed() {
    let req = request(NetworkMode::default(), &["ls", "-la"], &[], &[]);
    let h = host(&["/usr", "/bin", "/work/proj/src"], &[], &[("HOME", "/home/me"), ("AWS_SECRET", "x")]);
    let plan = plan_run(&req, &LionConfig::default(), &no_modules(), &h, None);
    let a = plan.args;
    assert_eq!(a[25], "--ro-bind");
    assert_eq!(a[26], "/work/proj");
    assert_eq!(a[28], "--unshare-net");
    assert!(position(&a, &["--dir", "/home/me"]).is_some());
    let e = position(&a, &["--clearenv"]).unwrap();
    assert_eq!(
        a[e..e + 16].to_vec(),
        s(&[
            "--clearenv", "--setenv", "PATH", "/usr/bin:/bin", "--setenv", "HOME", "/home/lion", "--setenv",
            "USER", "lion", "--setenv", "LOGNAME", "lion", "--setenv", "LANG", "C.UTF-8",
        ])
    );
    assert!(!a.iter().any(|x| x == "AWS_SECRET"));
    // project read-only: no src overlay
    assert!(position(&a, &["--ro-bind", "/work/proj/src", "/work/proj/src"]).is_none());
    assert_eq!(a[a.len() - 5..].to_vec(), s(&["--chdir", "/work/proj", "--", "ls", "-la"]));
    assert!(plan.active_modules.is_empty());
}

#[test]
fn plan_run_src_overlay_after_writable_project() {
    let req = request(NetworkMode::Full, &["make"], &[], &[]);
    let h = host(&["/work/proj/src"], &[], &[]);
    let a = plan_run(&req, &cfg("rw", "ro", vec![]), &no_modules(), &h, None).args;
    assert_eq!(a[25], "--bind");
    let k = position(&a, &["--ro-bind", "/work/proj/src", "/work/proj/src"]).unwrap();
    assert!(k > 27);
    assert!(!a.iter().any(|x| x == "--unshare-net"));
    // src rw: no overlay
    let a = plan_run(&req, &cfg("rw", "rw", vec![]), &no_modules(), &h, None).args;
    assert!(position(&a, &["--ro-bind", "/work/proj/src", "/work/proj/src"]).is_none());
}

#[test]
fn plan_run_mounts_config_ro_paths_and_modules() {
    let req = request(NetworkMode::Isolated, &["true"], &["/opt/data", "/missing"], &["GPU"]);
    let modules = OptionalModulesConfig {
        modules: vec![
            OptionalModule {
                name: "GPU".to_string(),
                path: None,
                mounts: vec![ModuleMount { src: "/dev/dri".into(), dst: "/dev/dri".into(), mode: "dev".into() }],
                env: s(&["LIBVA_DRIVER"]),
                state: 0,
            },
            OptionalModule {
                name: "Cache".to_string(),
                path: Some("${HOME}/.cache".to_string()),
                mounts: vec![],
                env: vec![],
                state: 1,
            },
            OptionalModule { name: "Off".to_string(), path: Some("/srv".into()), mounts: vec![], env: vec![], state: 0 },
        ],
    };
    let h = host(
        &["/home/me/data", "/opt/data", "/dev/dri", "/home/me/.cache", "/srv"],
        &[],
        &[("HOME", "/home/me"), ("LIBVA_DRIVER", "iHD")],
    );
    let c = cfg("ro", "ro", vec![MountEntry { path: "~/data".into(), access: "rw".into() }]);
    let plan = plan_run(&req, &c, &modules, &h, None);
    let a = &plan.args;
    assert!(position(a, &["--bind", "/home/me/data", "/home/me/data"]).is_some());
    assert!(position(a, &["--ro-bind", "/opt/data", "/opt/data"]).is_some());
    assert!(!a.iter().any(|x| x == "/missing"));
    assert!(position(a, &["--dev-bind", "/dev/dri", "/dev/dri"]).is_some());
    assert!(position(a, &["--setenv", "LIBVA_DRIVER", "iHD"]).is_some());
    assert!(position(a, &["--bind", "/home/me/.cache", "/home/me/.cache"]).is_some());
    assert!(!a.iter().any(|x| x == "/srv"));
    assert_eq!(plan.active_modules, s(&["GPU", "Cache"]));
    let clear = position(a, &["--clearenv"]).unwrap();
    let lib = position(a, &["--setenv", "LIBVA_DRIVER", "iHD"]).unwrap();
    assert!(lib > clear);
}

#[test]
fn plan_run_proxy_variables_only_for_allow() {
    let h = host(&[], &[], &[]);
    let req = request(NetworkMode::Allow, &["npm", "install"], &[], &[]);
    let a = plan_run(&req, &LionConfig::default(), &no_modules(), &h, Some(8080)).args;
    let k = position(&a, &["--setenv", "HTTP_PROXY", "http://127.0.0.1:8080"]).unwrap();
    assert_eq!(a[k + 3..k + 6].to_vec(), s(&["--setenv", "HTTPS_PROXY", "http://127.0.0.1:8080"]));
    assert!(position(&a, &["--setenv", "PIP_PROXY", "http://127.0.0.1:8080"]).is_some());
    let req = request(NetworkMode::Full, &["npm", "install"], &[], &[]);
    let with_port = plan_run(&req, &LionConfig::default(), &no_modules(), &h, Some(8080)).args;
    let without = plan_run(&req, &LionConfig::default(), &no_modules(), &h, None).args;
    assert_eq!(with_port, without);
    assert!(!with_port.iter().any(|x| x == "HTTP_PROXY"));
    // the proxy failed to start
    let req = request(NetworkMode::Allow, &["npm"], &[], &[]);
    let a = plan_run(&req, &LionConfig::default(), &no_modules(), &h, None).args;
    assert!(!a.iter().any(|x| x == "HTTP_PROXY"));
}

#[test]
fn proxy_url_format() {
    assert_eq!(make_proxy_url(0), "http://127.0.0.1:0");
    assert_eq!(make_proxy_url(65535), "http://127.0.0.1:65535");
}

#[test]
fn gui_adds_desktop_modules_once() {
    assert_eq!(
        with_gui_modules(&s(&["GPU", "Extra"]), true),
        s(&["GPU", "Extra", "X11", "Wayland", "Fonts", "D-Bus"])
    );
    assert_eq!(with_gui_modules(&s(&["GPU"]), false), s(&["GPU"]));
    assert_eq!(with_gui_modules(&vec![], true), s(&["X11", "Wayland", "GPU", "Fonts", "D-Bus"]));
}

#[test]
fn exposed_paths_sorted_and_overridden() {
    let req = request(NetworkMode::Isolated, &["true"], &["/opt/x"], &[]);
    let h = host(&["/work/proj", "/work/proj/src", "/home/me", "/opt/x"], &[], &[("HOME", "/home/me")]);
    let c = cfg(
        "rw",
        "ro",
        vec![
            MountEntry { path: "/work/proj".into(), access: "ro".into() },
            MountEntry { path: "~".into(), access: "rw".into() },
        ],
    );
    let labels = exposed_paths(&req, &c, &no_modules(), &h);
    assert_eq!(labels, s(&["/home/me (rw)", "/opt/x (ro)", "/work/proj (ro)", "/work/proj/src (ro)"]));
    assert!(is_home_exposed(&labels, &h));
    let labels2 = s(&["/home/me (ro)"]);
    assert!(!is_home_exposed(&labels2, &h));
    assert!(!is_home_exposed(&labels, &host(&[], &[], &[])));
}

#[test]
fn watch_paths_project_then_ro() {
    assert_eq!(
        watch_paths(&"/p".to_string(), &s(&["/p", "/a", "/a", "/b"])),
        s(&["/p", "/a", "/b"])
    );
}

#[test]
fn binary_lookup() {
    assert_eq!(binary_candidates("ls", Some("/usr/bin:/bin")), s(&["/usr/bin/ls", "/bin/ls"]));
    assert_eq!(binary_candidates("./run.sh", Some("/usr/bin")), s(&["./run.sh"]));
    assert!(binary_candidates("ls", None).is_empty());
    let h = host(&["/bin/ls"], &["/bin/ls"], &[("PATH", "/usr/bin:/bin")]);
    assert_eq!(find_binary("ls", &h), Some("/bin/ls".to_string()));
    assert_eq!(find_binary("nope", &h), None);
    assert_eq!(find_binary("/bin/ls", &h), Some("/bin/ls".to_string()));
}

#[test]
fn finalize_execution_outcomes() {
    let h = host(
        &["/bin/ls", "/bin/script"],
        &["/bin/ls"],
        &[("PATH", "/bin")],
    );
    assert!(finalize_execution(true, Some(0), &s(&["ls"]), &h).is_ok());
    assert!(matches!(
        finalize_execution(false, Some(127), &s(&["nope"]), &h),
        Err(LionError::CommandNotFound(p)) if p == "nope"
    ));
    assert!(matches!(
        finalize_execution(false, Some(126), &s(&["script"]), &h),
        Err(LionError::PermissionDenied(p)) if p == "script"
    ));
    assert!(matches!(
        finalize_execution(false, Some(1), &s(&["ls"]), &h),
        Err(LionError::ExecutionError(1))
    ));
    assert!(matches!(
        finalize_execution(false, Some(2), &s(&["nope"]), &h),
        Err(LionError::ExecutionError(2))
    ));
    assert!(matches!(
        finalize_execution(false, None, &vec![], &h),
        Err(LionError::CommandNotFound(p)) if p == "unknown"
    ));
}

#[test]
fn userns_check() {
    assert!(check_userns_available(true, Some("1")).is_ok());
    assert!(matches!(check_userns_available(false, Some(" 1\n")), Err(UsernsError::AppArmorBlocking)));
    assert!(matches!(check_userns_available(false, Some("0")), Err(UsernsError::Unavailable)));
    assert!(matches!(check_userns_available(false, None), Err(UsernsError::Unavailable)));
}

#[test]
fn process_tree_and_kill_order() {
    let entries = vec![
        ProcEntry { pid: 10, ppid: 1 },
        ProcEntry { pid: 11, ppid: 10 },
        ProcEntry { pid: 12, ppid: 11 },
        ProcEntry { pid: 13, ppid: 10 },
        ProcEntry { pid: 20, ppid: 1 },
    ];
    let tree = get_process_tree(10, &entries);
    assert_eq!(tree[0], 10);
    let mut sorted = tree.clone();
    sorted.sort();
    assert_eq!(sorted, vec![10, 11, 12, 13]);
    let pos = |p: u32| tree.iter().position(|&x| x == p).unwrap();
    assert!(pos(11) < pos(12));
    let order = kill_order(10, &entries);
    let mut rev = tree.clone();
    rev.reverse();
    assert_eq!(order, rev);
    assert_eq!(*order.last().unwrap(), 10);
    assert_eq!(get_process_tree(99, &entries), vec![99]);
    assert_eq!(get_direct_child(10, &entries), Some(11));
    assert_eq!(get_direct_child(12, &entries), None);
}

#[test]
fn proc_stat_parsing() {
    assert_eq!(parse_stat_ppid("42 (my prog) S 7 42 42 0"), Some(7));
    assert_eq!(parse_stat_ppid("42 (a) b) R 9 1"), Some(9));
    assert_eq!(parse_stat_ppid("42 no parens"), None);
    let e = parse_proc_entry("42", "42 (bash) S 7 42").unwrap();
    assert_eq!((e.pid, e.ppid), (42, 7));
    assert!(parse_proc_entry("self", "42 (bash) S 7 42").is_none());
}

#[test]
fn probes_cover_what_the_plan_reads() {
    let req = request(NetworkMode::Full, &["ls"], &["/opt/x"], &[]);
    let c = cfg("rw", "ro", vec![MountEntry { path: "~/data".into(), access: "ro".into() }]);
    let env_only = host(&[], &[], &[("HOME", "/home/me"), ("PATH", "/usr/bin:/bin"), ("XDG_RUNTIME_DIR", "/run/user/1")]);
    let probes = lion::sandbox_engine::probes::probe_paths(&req, &c, &no_modules(), &env_only);
    assert_eq!(
        probes,
        s(&[
            "/usr", "/bin", "/lib", "/lib64", "/etc/alternatives", "/snap", "/opt", "/run/snapd.socket",
            "/run/snapd-snap.socket", "/run/snapd/ns", "/etc/resolv.conf", "/etc/ssl", "/etc/pki",
            "/run/user/1/snapd-session-agent.socket", "/work/proj/src", "/home/me/data", "/opt/x", "/usr/bin/ls",
            "/bin/ls",
        ])
    );
    // a host with more paths than the probes gives the same plan
    let env = &[("HOME", "/home/me"), ("PATH", "/usr/bin:/bin"), ("XDG_RUNTIME_DIR", "/run/user/1")];
    let small = host(&["/usr", "/etc/ssl", "/opt/x"], &[], env);
    let large = host(&["/usr", "/etc/ssl", "/opt/x", "/srv", "/home/me/other"], &[], env);
    assert_eq!(
        plan_run(&req, &c, &no_modules(), &small, None).args,
        plan_run(&req, &c, &no_modules(), &large, None).args
    );
}

#[test]
fn finished_when_leader_gone_and_tree_empty() {
    assert!(sandbox_finished(false, 1));
    assert!(sandbox_finished(false, 0));
    assert!(!sandbox_finished(false, 2));
    assert!(!sandbox_finished(true, 1));
}

fn looping_module(state: i32) -> OptionalModulesConfig {
    OptionalModulesConfig {
        modules: vec![OptionalModule {
            name: "Loop".to_string(),
            path: Some("${A}/x".to_string()),
            mounts: vec![],
            env: vec![],
            state,
        }],
    }
}

#[test]
fn expansion_check_finds_cycles() {
    let env = vec![
        EnvVar { name: "A".into(), value: "${A}".into() },
        EnvVar { name: "B".into(), value: "/b".into() },
        EnvVar { name: "C".into(), value: "${D}".into() },
        EnvVar { name: "D".into(), value: "${C}".into() },
    ];
    assert_eq!(expansion_outcome("${A}/x", &env), ExpansionEnd::Cycles);
    assert_eq!(expansion_outcome("${C}", &env), ExpansionEnd::Cycles);
    assert_eq!(expansion_outcome("${B}/x", &env), ExpansionEnd::Ends);
    assert_eq!(expansion_outcome("${B}${B}", &env), ExpansionEnd::Ends);
    assert_eq!(expansion_outcome("plain", &env), ExpansionEnd::Ends);
    assert_eq!(expansion_outcome("/a/${B", &env), ExpansionEnd::Ends);
    let h = host(&[], &[], &[("A", "${A}")]);
    // an enabled module whose path never finishes expanding refuses the run
    let req = request(NetworkMode::Isolated, &["true"], &[], &[]);
    let err = plan_run_checked(&req, &LionConfig::default(), &looping_module(1), &h, None).err().unwrap();
    assert!(matches!(
        &err,
        LionError::EnvironmentError(m)
            if m == "the ${VAR} expansion of a path of an active module never ends: it comes back to a string it already reached"
    ));
    assert!(check_module_expansion(&looping_module(1), &vec![], &h.env).is_err());
    // an inactive one is not looked at, and the plan is the unchecked one
    let ok = plan_run_checked(&req, &LionConfig::default(), &looping_module(0), &h, None).ok().unwrap();
    assert_eq!(ok.args, plan_run(&req, &LionConfig::default(), &no_modules(), &h, None).args);
    assert!(check_module_expansion(&looping_module(0), &vec![], &h.env).is_ok());
    // asked for by name, it is active
    assert!(check_module_expansion(&looping_module(0), &s(&["Loop"]), &h.env).is_err());
}

#[test]
fn missing_bubblewrap_is_a_missing_dependency() {
    assert!(require_bwrap(true).is_ok());
    match require_bwrap(false) {
        Err(e @ LionError::DependencyMissing(_)) => {
            assert_eq!(e.message(), "dependency missing: bubblewrap (bwrap)");
        }
        _ => panic!("expected a missing dependency"),
    }
}

#[test]
fn unforwarded_variable_never_reaches_the_sandbox() {
    let req = request(NetworkMode::Full, &["env"], &[], &["GPU"]);
    let modules = OptionalModulesConfig {
        modules: vec![OptionalModule {
            name: "GPU".to_string(),
            path: Some("${HOME}/.nv".to_string()),
            mounts: vec![],
            env: s(&["LIBVA_DRIVER"]),
            state: 0,
        }],
    };
    let paths = ["/home/me/.nv", "/etc/resolv.conf", "/usr"];
    let a = host(&paths, &[], &[("HOME", "/home/me"), ("LIBVA_DRIVER", "iHD"), ("AWS_SECRET_ACCESS_KEY", "one")]);
    let b = host(&paths, &[], &[("HOME", "/home/me"), ("LIBVA_DRIVER", "iHD"), ("AWS_SECRET_ACCESS_KEY", "two")]);
    let pa = plan_run(&req, &LionConfig::default(), &modules, &a, None).args;
    let pb = plan_run(&req, &LionConfig::default(), &modules, &b, None).args;
    assert_eq!(pa, pb);
    assert!(!pa.iter().any(|x| x.contains("AWS_SECRET_ACCESS_KEY") || x == "one"));
    // a forwarded variable does reach it
    assert!(position(&pa, &["--setenv", "LIBVA_DRIVER", "iHD"]).is_some());
}

#[test]
fn build_bwrap_binds_project_once_after_fresh_root() {
    for (mode, ro) in [(NetworkMode::Isolated, true), (NetworkMode::Dns, false), (NetworkMode::Full, true)] {
        let h = host(&["/etc/resolv.conf", "/etc/ssl", "/etc/pki"], &[], &[]);
        let a = build_bwrap("/w", mode, ro, &h);
        let flag = if ro { "--ro-bind" } else { "--bind" };
        let triples: Vec<usize> = (0..a.len() - 2)
            .filter(|&i| a[i] == flag && a[i + 1] == "/w" && a[i + 2] == "/w")
            .collect();
        assert_eq!(triples, vec![25]);
        assert_eq!((a[9].as_str(), a[10].as_str()), ("--tmpfs", "/"));
        assert!(a.iter().enumerate().all(|(i, x)| !(x == "--dir" || x == "--bind" || x == "--ro-bind") || i > 10));
        for f in ["--unshare-user", "--unshare-ipc", "--unshare-pid", "--unshare-uts", "--unshare-cgroup", "--die-with-parent", "--new-session"] {
            assert!(a.iter().any(|x| x == f));
        }
        assert_eq!(position(&a, &["--hostname", "lion"]), Some(6));
    }
}

#[test]
fn long_but_finite_expansion_is_planned() {
    // V0 -> ${V1} -> ... -> ${V599} -> /deep: six hundred replacements
    let mut vars: Vec<(String, String)> = (0..600).map(|i| (format!("V{i}"), format!("${{V{}}}", i + 1))).collect();
    vars.push(("V600".to_string(), "/deep".to_string()));
    let env: Vec<EnvVar> = vars.iter().map(|(n, v)| EnvVar { name: n.clone(), value: v.clone() }).collect();
    assert_eq!(expansion_outcome("${V0}/x", &env), ExpansionEnd::Ends);
    let modules = OptionalModulesConfig {
        modules: vec![OptionalModule {
            name: "Deep".to_string(),
            path: Some("${V0}/x".to_string()),
            mounts: vec![],
            env: vec![],
            state: 1,
        }],
    };
    let h = HostView { existing: s(&["/deep/x"]), executable: vec![], env };
    let req = request(NetworkMode::Isolated, &["true"], &[], &[]);
    let plan = plan_run_checked(&req, &LionConfig::default(), &modules, &h, None).ok().unwrap();
    assert!(position(&plan.args, &["--bind", "/deep/x", "/deep/x"]).is_some());
}
