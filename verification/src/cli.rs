//! The command line of `lion`, as plain values: what each subcommand asks
//! for, and the requests it turns into.  Parsing the arguments is the
//! caller's work.

use vstd::prelude::*;
use crate::sandbox_engine::network::NetworkMode;
use crate::sandbox_engine::runner::{RunRequest, add_missing, clone_strings, gui_module_names, with_gui_modules};
use crate::text::string_views;

verus! {

/// The parsed command line.
pub struct Cli {
    pub command: Commands,
}

/// The subcommands.
pub enum Commands {
    /// One-time system setup (requires root).
    Install,
    /// Runs a command inside the sandbox.
    Run {
        /// The program and its arguments.
        cmd: Vec<String>,
        /// The network profile (`--net`).
        net: NetworkMode,
        /// Prints the sandbox command line without running it.
        dry_run: bool,
        /// Saved modules activated for this run (`--optional`).
        optional: Vec<String>,
        /// Detailed tracing in the terminal.
        debug: bool,
        /// Host paths mounted read-only (`--ro`).
        ro: Vec<String>,
        /// Domains let through the proxy (`--domain`).
        domains: Vec<String>,
        /// Desktop support: the display, GPU, font and D-Bus modules.
        gui: bool,
        /// The monitoring dashboard.
        tui: bool,
    },
    /// Prints the events read from a FIFO (internal).
    Monitor {
        fifo: String,
        watch_paths: Vec<String>,
    },
    /// Manages the saved optional modules.
    Saved {
        sub: SavedCommands,
    },
}

/// The subcommands of `lion saved`.
pub enum SavedCommands {
    Status,
    Enable { name: String },
    Disable { name: String },
    Add { name: String, path: String, enabled: bool },
    Remove { name: String },
}

impl SavedCommands {
    /// The state a module added with `lion saved add` starts in: 1 when
    /// `--enabled` was given, else 0.
    pub fn initial_state(&self) -> (r: i32)
        ensures
            r == match self {
                SavedCommands::Add { enabled, .. } => if *enabled { 1i32 } else { 0i32 },
                _ => 0i32,
            },
    {
        match self {
            SavedCommands::Add { enabled, .. } => if *enabled { 1 } else { 0 },
            _ => 0,
        }
    }
}

impl Commands {
    /// The sandbox run that `lion run` started in `project_path` asks for:
    /// its command, network profile and read-only paths as given, and the
    /// modules of `--optional` with, under `--gui`, the desktop modules
    /// that are missing from them.  `None` for the other subcommands.
    pub fn run_request(&self, project_path: String) -> (r: Option<RunRequest>)
        ensures
            match self {
                Commands::Run { cmd, net, ro, optional, gui, .. } => r matches Some(req) && {
                    &&& string_views(req.cmd@) == string_views(cmd@)
                    &&& req.network_mode == *net
                    &&& string_views(req.ro_paths@) == string_views(ro@)
                    &&& string_views(req.optional_names@) == if *gui {
                        add_missing(string_views(optional@), gui_module_names())
                    } else {
                        string_views(optional@)
                    }
                    &&& req.project_path == project_path
                },
                _ => r is None,
            },
    {
        match self {
            Commands::Run { cmd, net, ro, optional, gui, .. } => {
                let names = with_gui_modules(optional, *gui);
                let cmd_copy = clone_strings(cmd);
                let ro_copy = clone_strings(ro);
                Some(RunRequest {
                    cmd: cmd_copy,
                    network_mode: *net,
                    ro_paths: ro_copy,
                    optional_names: names,
                    project_path,
                })
            },
            _ => None,
        }
    }
}

} // verus!
