use lion::config::Loaded;
use lion::errors::{diagnostic_box_lines, exit_code_message, extract_exit_code, failure_headline, failure_reason, LionError};
use lion::host::EnvVar;
use lion::install::{install_step, is_apparmor_active, parser_result, InstallStep, PROFILE_PATH};
use lion::optional_modules::{
    saved_source, SavedSource, add, default_mount_mode, disable, enable, enabled_count, path_info, remove, resolve_vars,
    saved_file_content, set_state, status_row, ModuleError, ModuleMount, OptionalModule,
    OptionalModulesConfig, StateChange, SAVED_TOML_HEADER,
};
use lion::order::{dedup_strings, sort_dedup};
use lion::proxy::{builtin_config, domain_arg, final_domains, load_config, ProxyConfig};
use lion::text::{chars_of, lines_of};

fn s(v: &[&str]) -> Vec<String> {
    v.iter().map(|x| x.to_string()).collect()
}

fn module(name: &str, state: i32) -> OptionalModule {
    OptionalModule { name: name.to_string(), path: None, mounts: vec![], env: vec![], state }
}

#[test]
fn error_messages() {
    assert_eq!(LionError::DependencyMissing("bwrap".into()).message(), "dependency missing: bwrap");
    assert_eq!(
        LionError::CommandNotFound("foo".into()).message(),
        "Command not found: foo\nThe executable could not be located in PATH."
    );
    assert_eq!(
        LionError::ExecutionError(-3).message(),
        "Command failed inside sandbox\nExit code: -3"
    );
    assert_eq!(
        LionError::MountError { path: "/x".into(), source: "denied".into() }.message(),
        "failed to mount /x: denied"
    );
    assert_eq!(LionError::Internal("boom".into()).message(), "internal error: boom");
}

#[test]
fn failure_reasons() {
    let exec = LionError::ExecutionError(6);
    assert_eq!(
        failure_reason(&exec, Some(6)),
        "couldn't resolve host — sandbox network is disabled. Try: --net=allow or --net=full"
    );
    assert_eq!(failure_reason(&exec, Some(7)), "connection refused or unreachable — try: --net=full");
    assert_eq!(failure_reason(&exec, Some(35)), "SSL handshake failed inside sandbox — try: --net=full");
    assert_eq!(failure_reason(&exec, Some(2)), "command exited with code 2 (check program output above)");
    assert_eq!(failure_reason(&exec, None), "command failed inside sandbox");
    assert_eq!(failure_reason(&LionError::PermissionDenied("x".into()), None), "executable permission missing");
    assert_eq!(failure_reason(&LionError::Internal("x".into()), Some(6)), "internal sandbox setup failure");
    assert_eq!(failure_headline(&exec), "❌ Command exited with failure");
    assert_eq!(failure_headline(&LionError::Internal("x".into())), "❌ Sandbox execution failed");
}

#[test]
fn exit_codes_from_messages() {
    assert_eq!(extract_exit_code("exit code: 42"), Some(42));
    assert_eq!(extract_exit_code("exit code:  -7 \n"), Some(-7));
    assert_eq!(extract_exit_code("exit code: x"), None);
    assert_eq!(extract_exit_code("Command failed inside sandbox\nExit code: 3"), None);
}

#[test]
fn diagnostic_box() {
    let border = "+----------------------------------------------------------+";
    let lines = diagnostic_box_lines(&LionError::PermissionDenied("tool".into()));
    assert_eq!(lines[0], "");
    assert_eq!(lines[1], border);
    assert_eq!(lines[2], "| LION ERROR                                               |");
    assert_eq!(lines[4], format!("| {:<56} |", "Permission denied: tool"));
    assert_eq!(lines[5], format!("| {:<56} |", "File exists but is not executable."));
    assert_eq!(lines[6], border);
    assert_eq!(lines[7], format!("| Try: chmod +x {:<42} |", "tool"));
    assert_eq!(lines[8], border);
    assert_eq!(lines[9], "| See log for details: ~/.lion/logs/last-run.log           |");
    assert_eq!(lines.len(), 11);
    for l in &lines[1..] {
        assert_eq!(l.chars().count(), 60);
    }
    let lines = diagnostic_box_lines(&LionError::Internal("x".into()));
    assert_eq!(lines.len(), 8);
    assert_eq!(lines[4], format!("| {:<56} |", "internal error: x"));
}

#[test]
fn text_helpers() {
    let v = chars_of("a\r\nb\n\nc\r");
    let ls: Vec<String> = lines_of(&v).iter().map(|l| l.iter().collect::<String>()).collect();
    assert_eq!(ls, s(&["a", "b", "", "c\r"]));
    assert_eq!(ls, "a\r\nb\n\nc\r".lines().map(|x| x.to_string()).collect::<Vec<_>>());
    assert!(lines_of(&chars_of("")).is_empty());
}

#[test]
fn ordering_helpers() {
    assert_eq!(sort_dedup(&s(&["b", "a", "b", "Z"])), s(&["Z", "a", "b"]));
    assert_eq!(dedup_strings(&s(&["a", "a", "b", "a"])), s(&["a", "b", "a"]));
}

#[test]
fn resolve_vars_expands_and_keeps_unclosed() {
    let env = vec![EnvVar { name: "HOME".into(), value: "/home/me".into() }];
    assert_eq!(resolve_vars("${HOME}/.config", &env), "/home/me/.config");
    assert_eq!(resolve_vars("${MISSING}/x", &env), "/x");
    assert_eq!(resolve_vars("/a/${HOME", &env), "/a/${HOME");
    assert_eq!(resolve_vars("${HOME}${HOME}", &env), "/home/me/home/me");
    assert_eq!(resolve_vars("plain", &env), "plain");
}

#[test]
fn module_state_changes() {
    let mut c = OptionalModulesConfig { modules: vec![module("A", 0), module("B", 1)] };
    assert!(matches!(enable(&mut c, "A"), Ok(StateChange::Changed)));
    assert_eq!(c.modules[0].state, 1);
    assert!(matches!(enable(&mut c, "A"), Ok(StateChange::AlreadySet)));
    assert!(matches!(disable(&mut c, "B"), Ok(StateChange::Changed)));
    assert_eq!(c.modules[1].state, 0);
    assert!(matches!(set_state(&mut c, "Z", 1), Err(ModuleError::NotFound(n)) if n == "Z"));
    assert_eq!(enabled_count(&c), 1);
}

#[test]
fn module_add_and_remove() {
    let mut c = OptionalModulesConfig { modules: vec![module("A", 0)] };
    assert!(add(&mut c, "data".into(), "/srv/data".into(), 1).is_ok());
    assert_eq!(c.modules.len(), 2);
    assert_eq!(c.modules[1].path, Some("/srv/data".to_string()));
    assert_eq!(c.modules[1].state, 1);
    assert!(matches!(add(&mut c, "A".into(), "/x".into(), 0), Err(ModuleError::AlreadyExists(n)) if n == "A"));
    assert_eq!(c.modules.len(), 2);
    assert!(remove(&mut c, "data").is_ok());
    assert_eq!(c.modules.len(), 1);
    assert_eq!(c.modules[0].name, "A");
    assert!(matches!(remove(&mut c, "data"), Err(ModuleError::NotFound(_))));
    assert_eq!(
        ModuleError::NotFound("x".into()).message(),
        "Module 'x' not found. Use 'lion saved status' to list modules."
    );
    assert_eq!(
        ModuleError::AlreadyExists("x".into()).message(),
        "Module 'x' already exists. Use 'lion saved status' to list modules."
    );
}

#[test]
fn module_status_rows() {
    let mut m = module("GPU", 1);
    assert_eq!(path_info(&m), "no mounts");
    m.mounts = vec![
        ModuleMount { src: "/a".into(), dst: "/a".into(), mode: default_mount_mode() },
        ModuleMount { src: "/b".into(), dst: "/b".into(), mode: "rw".into() },
    ];
    assert_eq!(path_info(&m), "2 mount(s)");
    assert_eq!(
        status_row(0, &m),
        format!("{:<4} {:<20} {}{} {}", 1, "GPU", "\x1b[1;32m\u{2713} enabled\x1b[0m", "  ", "2 mount(s)")
    );
    let mut d = module("Data", 0);
    d.path = Some("/srv".into());
    assert_eq!(
        status_row(9, &d),
        format!("{:<4} {:<20} {}{} {}", 10, "Data", "\x1b[1;31m\u{2717} disabled\x1b[0m", " ", "/srv")
    );
    assert_eq!(default_mount_mode(), "ro");
    let content = saved_file_content("[[modules]]\n");
    assert!(content.starts_with(SAVED_TOML_HEADER));
    assert!(content.ends_with("[[modules]]\n"));
}

#[test]
fn proxy_configuration() {
    let local = ProxyConfig { domains: s(&["a.com"]) };
    let global = ProxyConfig { domains: s(&["g.com"]) };
    assert_eq!(load_config(Loaded::Parsed(local), Loaded::Parsed(global)).domains, s(&["a.com"]));
    let global = ProxyConfig { domains: s(&["g.com"]) };
    assert_eq!(load_config(Loaded::Missing, Loaded::Parsed(global)).domains, s(&["g.com"]));
    assert!(load_config(Loaded::Invalid, Loaded::Missing).domains.is_empty());
    let builtin = load_config(Loaded::Missing, Loaded::Missing);
    assert_eq!(builtin.domains, builtin_config().domains);
    assert!(builtin.domains.contains(&"registry.npmjs.org".to_string()));
    let cfg = ProxyConfig { domains: s(&["b.org", "a.org"]) };
    assert_eq!(final_domains(&s(&["c.net", "a.org"]), &cfg), s(&["a.org", "b.org", "c.net"]));
    assert_eq!(domain_arg(&s(&["a.org", "b.org"])), "a.org,b.org");
    assert_eq!(domain_arg(&s(&["a.org", "*"])), "*");
    assert_eq!(domain_arg(&vec![]), "BLOCK_ALL");
}

#[test]
fn install_decisions() {
    assert!(is_apparmor_active(false, true));
    assert!(!is_apparmor_active(false, false));
    assert!(matches!(install_step(false, true, Some("1")), InstallStep::RequireRoot));
    assert!(matches!(install_step(true, false, Some("1")), InstallStep::AppArmorInactive));
    assert!(matches!(install_step(true, true, Some(" 0\n")), InstallStep::AlreadyUnrestricted));
    assert!(matches!(install_step(true, true, Some("1")), InstallStep::WriteProfile));
    assert!(matches!(install_step(true, true, None), InstallStep::WriteProfile));
    assert_eq!(parser_result(true, true, Some(0)), Ok(()));
    assert_eq!(parser_result(true, false, Some(3)), Err(3));
    assert_eq!(parser_result(true, false, None), Err(1));
    assert_eq!(parser_result(false, false, None), Err(1));
    assert_eq!(PROFILE_PATH, "/etc/apparmor.d/bwrap-userns-restrict");
}

#[test]
fn saved_file_precedence() {
    assert_eq!(saved_source(true, true), SavedSource::Project);
    assert_eq!(saved_source(false, true), SavedSource::Home);
    assert_eq!(saved_source(false, false), SavedSource::Nothing);
}

#[test]
fn disable_undoes_enable() {
    let mut c = OptionalModulesConfig { modules: vec![module("A", 0), module("B", 1)] };
    assert!(matches!(enable(&mut c, "A"), Ok(StateChange::Changed)));
    assert!(matches!(disable(&mut c, "A"), Ok(StateChange::Changed)));
    let states: Vec<(String, i32)> = c.modules.iter().map(|m| (m.name.clone(), m.state)).collect();
    assert_eq!(states, vec![("A".to_string(), 0), ("B".to_string(), 1)]);
}

#[test]
fn exit_code_message_reads_back() {
    for code in [0, 1, 42, 255, -1, -7, i32::MAX, i32::MIN] {
        let msg = exit_code_message(code);
        assert_eq!(msg, format!("exit code: {}", code));
        assert_eq!(extract_exit_code(&msg), Some(code));
    }
}
