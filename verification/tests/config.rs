use lion::config::{is_ro_access, load, load_merged, LionConfig, Loaded, MountEntry, SandboxConfig};

fn entry(path: &str, access: &str) -> MountEntry {
    MountEntry { path: path.to_string(), access: access.to_string() }
}

fn cfg(project: &str, src: &str, mounts: Vec<MountEntry>) -> LionConfig {
    LionConfig {
        sandbox: SandboxConfig { project_access: project.to_string(), src_access: src.to_string() },
        mount: mounts,
    }
}

#[test]
fn defaults_are_read_only() {
    let c = LionConfig::default();
    assert_eq!(c.sandbox.project_access, "ro");
    assert_eq!(c.sandbox.src_access, "ro");
    assert!(c.mount.is_empty());
    assert!(c.project_is_readonly());
    assert!(c.src_is_readonly());
}

#[test]
fn access_is_trimmed_and_case_insensitive() {
    assert!(is_ro_access(&" RO ".to_string()));
    assert!(is_ro_access(&"Ro".to_string()));
    assert!(!is_ro_access(&"rw".to_string()));
    assert!(!is_ro_access(&"r o".to_string()));
    assert!(entry("/x", "\tro\n").is_readonly());
    assert!(!entry("/x", "RW").is_readonly());
}

#[test]
fn resolved_path_expands_tilde() {
    assert_eq!(entry("~/data", "ro").resolved_path(Some("/home/me")), "/home/me/data");
    assert_eq!(entry("~", "ro").resolved_path(Some("/home/me")), "/home/me");
    assert_eq!(entry("~/data", "ro").resolved_path(None), "~/data");
    assert_eq!(entry("/abs/~x", "ro").resolved_path(Some("/home/me")), "/abs/~x");
}

#[test]
fn load_falls_back_to_default() {
    let c = load(Loaded::Missing);
    assert_eq!(c.sandbox.project_access, "ro");
    let c = load(Loaded::Invalid);
    assert!(c.mount.is_empty());
    let c = load(Loaded::Parsed(cfg("rw", "rw", vec![entry("/a", "ro")])));
    assert_eq!(c.sandbox.project_access, "rw");
    assert_eq!(c.mount.len(), 1);
}

#[test]
fn merged_project_sandbox_wins_when_present() {
    let g = cfg("rw", "rw", vec![]);
    let p = cfg("ro", "rw", vec![]);
    let m = load_merged(Loaded::Parsed(g), Loaded::Parsed(p));
    assert_eq!(m.sandbox.project_access, "ro");
    let g = cfg("rw", "ro", vec![]);
    let m = load_merged(Loaded::Parsed(g), Loaded::Missing);
    assert_eq!(m.sandbox.project_access, "rw");
    // a project file that exists but does not parse gives the default
    let g = cfg("rw", "rw", vec![]);
    let m = load_merged(Loaded::Parsed(g), Loaded::Invalid);
    assert_eq!(m.sandbox.project_access, "ro");
    assert_eq!(m.sandbox.src_access, "ro");
}

#[test]
fn merged_mounts_last_entry_wins_in_order() {
    let g = cfg("ro", "ro", vec![entry("/a", "ro"), entry("/b", "ro"), entry("/a", "rw")]);
    let p = cfg("ro", "ro", vec![entry("/b", "rw"), entry("/c", "ro")]);
    let m = load_merged(Loaded::Parsed(g), Loaded::Parsed(p));
    let got: Vec<(String, String)> = m.mount.iter().map(|e| (e.path.clone(), e.access.clone())).collect();
    assert_eq!(
        got,
        vec![
            ("/a".to_string(), "rw".to_string()),
            ("/b".to_string(), "rw".to_string()),
            ("/c".to_string(), "ro".to_string()),
        ]
    );
}
