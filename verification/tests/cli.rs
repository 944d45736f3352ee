use lion::cli::{Commands, SavedCommands};
use lion::sandbox_engine::network::NetworkMode;

fn s(v: &[&str]) -> Vec<String> {
    v.iter().map(|x| x.to_string()).collect()
}

fn run_command(gui: bool) -> Commands {
    Commands::Run {
        cmd: s(&["glxgears"]),
        net: NetworkMode::Full,
        dry_run: false,
        optional: s(&["GPU"]),
        debug: false,
        ro: s(&["/data"]),
        domains: s(&["a.com"]),
        gui,
        tui: true,
    }
}

#[test]
fn run_request_from_command_line() {
    let req = run_command(true).run_request("/work".to_string()).unwrap();
    assert_eq!(req.cmd, s(&["glxgears"]));
    assert!(matches!(req.network_mode, NetworkMode::Full));
    assert_eq!(req.ro_paths, s(&["/data"]));
    assert_eq!(req.optional_names, s(&["GPU", "X11", "Wayland", "Fonts", "D-Bus"]));
    assert_eq!(req.project_path, "/work");
    let req = run_command(false).run_request("/work".to_string()).unwrap();
    assert_eq!(req.optional_names, s(&["GPU"]));
    assert!(Commands::Install.run_request("/work".to_string()).is_none());
}

#[test]
fn saved_add_initial_state() {
    assert_eq!(SavedCommands::Add { name: "a".into(), path: "/p".into(), enabled: true }.initial_state(), 1);
    assert_eq!(SavedCommands::Add { name: "a".into(), path: "/p".into(), enabled: false }.initial_state(), 0);
    assert_eq!(SavedCommands::Status.initial_state(), 0);
}
