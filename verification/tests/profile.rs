use lion::host::{EnvVar, HostView};
use lion::profile::{
    handle_expose, handle_unexpose, module_enabled, resolve_profile, set_insert,
    validate_custom_path, ModuleDef, ModuleDefMount, PathError, PathProbe, Profile,
};

fn host(existing: &[&str], env: &[(&str, &str)]) -> HostView {
    HostView {
        existing: existing.iter().map(|s| s.to_string()).collect(),
        executable: vec![],
        env: env
            .iter()
            .map(|(n, v)| EnvVar { name: n.to_string(), value: v.to_string() })
            .collect(),
    }
}

fn mount(kind: Option<&str>, src: &str, dst: &str) -> ModuleDefMount {
    ModuleDefMount {
        kind: kind.map(|s| s.to_string()),
        src: Some(src.to_string()),
        dst: Some(dst.to_string()),
    }
}

fn def(name: &str, mounts: Vec<ModuleDefMount>, sockets: &[&str], env: &[&str]) -> ModuleDef {
    ModuleDef {
        name: name.to_string(),
        mounts,
        runtime_sockets: sockets.iter().map(|s| s.to_string()).collect(),
        env: env.iter().map(|s| s.to_string()).collect(),
        mandatory: name == "base",
    }
}

fn base_def() -> ModuleDef {
    def(
        "base",
        vec![mount(Some("ro-bind"), "/usr", "/usr"), mount(None, "/bin", "/bin")],
        &[],
        &[],
    )
}

fn probe(exists: bool, canonical: Option<&str>) -> PathProbe {
    PathProbe { exists, canonical: canonical.map(|s| s.to_string()) }
}

#[test]
fn test_resolve_base_only() {
    let profile = Profile::default();
    let resolved = resolve_profile(&profile, &vec![base_def()], &host(&["/usr", "/bin", "/tmp"], &[]));

    // Base should at least have /usr
    assert!(resolved.ro_mounts.iter().any(|(src, _)| src == "/usr"));
}

#[test]
fn test_resolve_with_custom_path() {
    let mut profile = Profile::default();
    set_insert(&mut profile.custom_paths, "/tmp".to_string()); // /tmp always exists
    let resolved = resolve_profile(&profile, &vec![base_def()], &host(&["/usr", "/bin", "/tmp"], &[]));

    assert!(resolved.rw_mounts.iter().any(|(src, dst)| src == "/tmp" && dst == "/tmp"));
}

#[test]
fn resolve_skips_inactive_modules_and_missing_sources() {
    let profile = Profile::default();
    let defs = vec![
        base_def(),
        def("gpu", vec![mount(Some("dev-bind"), "/dev/dri", "/dev/dri")], &[], &[]),
    ];
    let r = resolve_profile(&profile, &defs, &host(&["/usr"], &[]));
    assert_eq!(r.ro_mounts, vec![("/usr".to_string(), "/usr".to_string())]);
    assert!(r.dev_mounts.is_empty());
    assert!(!r.network_enabled);
    assert!(!r.gui_enabled);
}

#[test]
fn resolve_applies_enabled_modules_in_order() {
    let mut profile = Profile::default();
    set_insert(&mut profile.modules, "gpu".to_string());
    set_insert(&mut profile.modules, "network".to_string());
    set_insert(&mut profile.modules, "wayland".to_string());
    let defs = vec![
        base_def(),
        def("gpu", vec![mount(Some("dev-bind"), "/dev/dri", "/dev/dri")], &[], &[]),
        def("network", vec![mount(Some("bind"), "~/.cache", "/home/lion/.cache")], &[], &[]),
        def("wayland", vec![], &["wayland-0", "/abs/sock"], &["WAYLAND_DISPLAY", "UNSET_VAR"]),
    ];
    let h = host(
        &["/usr", "/bin", "/dev/dri", "/home/me/.cache", "/run/user/1000/wayland-0", "/abs/sock"],
        &[("HOME", "/home/me"), ("XDG_RUNTIME_DIR", "/run/user/1000"), ("WAYLAND_DISPLAY", "wayland-0")],
    );
    let r = resolve_profile(&profile, &defs, &h);
    assert_eq!(
        r.ro_mounts,
        vec![
            ("/usr".to_string(), "/usr".to_string()),
            ("/bin".to_string(), "/bin".to_string()),
            ("/run/user/1000/wayland-0".to_string(), "/run/user/1000/wayland-0".to_string()),
            ("/abs/sock".to_string(), "/abs/sock".to_string()),
        ]
    );
    assert_eq!(r.dev_mounts, vec![("/dev/dri".to_string(), "/dev/dri".to_string())]);
    assert_eq!(r.rw_mounts, vec![("/home/me/.cache".to_string(), "/home/lion/.cache".to_string())]);
    assert_eq!(r.env_vars.len(), 1);
    assert_eq!(r.env_vars[0].name, "WAYLAND_DISPLAY");
    assert_eq!(r.env_vars[0].value, "wayland-0");
    assert!(r.network_enabled);
    assert!(r.gui_enabled);
}

#[test]
fn validate_custom_path_errors() {
    assert!(matches!(
        validate_custom_path("relative/dir", &probe(true, Some("/x"))),
        Err(PathError::NotAbsolute(p)) if p == "relative/dir"
    ));
    assert!(matches!(
        validate_custom_path("/nope", &probe(false, None)),
        Err(PathError::DoesNotExist(p)) if p == "/nope"
    ));
    assert!(matches!(
        validate_custom_path("/loop", &probe(true, None)),
        Err(PathError::Unresolvable(p)) if p == "/loop"
    ));
    assert!(matches!(
        validate_custom_path("/link-to-etc", &probe(true, Some("/etc"))),
        Err(PathError::Restricted(d)) if d == "/etc"
    ));
    assert!(validate_custom_path("/home/me/project", &probe(true, Some("/home/me/project"))).is_ok());
}

#[test]
fn deny_list_applies_to_written_and_resolved_path() {
    assert!(matches!(
        validate_custom_path("/bin", &probe(true, Some("/usr/bin"))),
        Err(PathError::Restricted(d)) if d == "/bin"
    ));
    assert!(matches!(
        validate_custom_path("/tmp/../etc", &probe(true, Some("/etc"))),
        Err(PathError::Restricted(d)) if d == "/etc"
    ));
    assert!(matches!(
        validate_custom_path("/usr", &probe(true, Some("/usr"))),
        Err(PathError::Restricted(d)) if d == "/usr"
    ));
    assert!(validate_custom_path("/usr/local/share", &probe(true, Some("/usr/local/share"))).is_ok());
}

#[test]
fn path_error_messages() {
    assert_eq!(PathError::NotAbsolute("a".into()).message(), "Path must be absolute: a");
    assert_eq!(PathError::DoesNotExist("/a".into()).message(), "Path does not exist: /a");
    assert_eq!(PathError::Unresolvable("/a".into()).message(), "Path cannot be resolved: /a");
    assert_eq!(
        PathError::Restricted("/etc".into()).message(),
        "Access to /etc is restricted for security reasons"
    );
}

#[test]
fn expose_then_unexpose_restores_profile() {
    let mut p = Profile::default();
    let r = handle_expose(
        &mut p,
        Some(("/data".to_string(), probe(true, Some("/data")))),
        Some("gpu".to_string()),
        Some("example.com".to_string()),
    );
    assert!(r.is_ok());
    assert_eq!(p.custom_paths, vec!["/data".to_string()]);
    assert_eq!(p.modules, vec!["gpu".to_string()]);
    assert_eq!(p.allowed_domains, vec!["example.com".to_string()]);
    // exposing again changes nothing
    let r = handle_expose(
        &mut p,
        Some(("/data".to_string(), probe(true, Some("/data")))),
        Some("gpu".to_string()),
        None,
    );
    assert!(r.is_ok());
    assert_eq!(p.custom_paths.len(), 1);
    assert_eq!(p.modules.len(), 1);
    handle_unexpose(&mut p, Some("/data".to_string()), Some("gpu".to_string()), Some("example.com".to_string()));
    assert!(p.custom_paths.is_empty());
    assert!(p.modules.is_empty());
    assert!(p.allowed_domains.is_empty());
}

#[test]
fn refused_expose_leaves_profile() {
    let mut p = Profile::default();
    let r = handle_expose(
        &mut p,
        Some(("/usr".to_string(), probe(true, Some("/usr")))),
        Some("gpu".to_string()),
        None,
    );
    assert!(matches!(r, Err(PathError::Restricted(_))));
    assert!(p.modules.is_empty());
    assert!(p.custom_paths.is_empty());
}

#[test]
fn module_enabled_by_profile_or_mandatory() {
    let mut p = Profile::default();
    assert!(module_enabled(&p, &base_def()));
    let gpu = def("gpu", vec![], &[], &[]);
    assert!(!module_enabled(&p, &gpu));
    set_insert(&mut p.modules, "gpu".to_string());
    assert!(module_enabled(&p, &gpu));
}

#[test]
fn profile_probes_list_sources_and_sockets() {
    let defs = vec![
        def("base", vec![mount(None, "~/.cache", "/c"), ModuleDefMount { kind: None, src: None, dst: Some("/x".into()) }], &["bus"], &[]),
        def("gpu", vec![mount(Some("dev-bind"), "/dev/dri", "/dev/dri")], &["/abs"], &[]),
    ];
    let h = host(&[], &[("HOME", "/home/me"), ("XDG_RUNTIME_DIR", "/run/user/1")]);
    assert_eq!(
        lion::profile::profile_probes(&defs, &h),
        vec![
            "/home/me/.cache".to_string(),
            "".to_string(),
            "/run/user/1/bus".to_string(),
            "/dev/dri".to_string(),
            "/abs".to_string(),
        ]
    );
    assert_eq!(
        lion::profile::profile_probes(&defs, &host(&[], &[])),
        vec!["~/.cache".to_string(), "".to_string(), "/dev/dri".to_string()]
    );
}
