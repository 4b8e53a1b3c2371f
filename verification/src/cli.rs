//! What the command line asks for.
use vstd::prelude::*;

use crate::config::Config;

verus! {

/// The arguments of the program.
#[derive(Debug)]
pub struct Cli {
    /// The configuration file.
    pub config: Option<String>,
    /// Whether to run in the background.
    pub daemon: bool,
    /// The directory of the database, in place of the configured one.
    pub db_path: Option<String>,
    /// What to ask of a daemon that runs.
    pub command: Option<Commands>,
}

/// What a client can ask of a daemon.
#[derive(Debug, Clone, Copy, PartialEq, Eq, Structural)]
pub enum Commands {
    /// Show the daemon's status.
    Status,
    /// Reload the configuration.
    Reload,
}

/// What the program is to do.
#[derive(Debug, Clone, Copy, PartialEq, Eq, Structural)]
pub enum RunMode {
    /// Run the hub in the background.
    Daemon,
    /// Ask something of a daemon that runs.
    Client(Commands),
    /// Run the hub in the foreground.
    Foreground,
}

/// What the arguments ask for: to run in the background goes before a command,
/// and without either the hub runs in the foreground.
pub fn run_mode(cli: &Cli) -> (mode: RunMode)
    ensures
        mode == match (cli.daemon, cli.command) {
            (true, _) => RunMode::Daemon,
            (false, Some(command)) => RunMode::Client(command),
            (false, None) => RunMode::Foreground,
        },
{
    if cli.daemon {
        return RunMode::Daemon;
    }
    match cli.command {
        Some(command) => RunMode::Client(command),
        None => RunMode::Foreground,
    }
}

/// The configuration with what the arguments put in place of it.
pub fn apply_cli_overrides(cli: Cli, cfg: Config) -> (r: Config)
    ensures
        match cli.db_path {
            Some(db_path) => r == (Config { db_path, ..cfg }),
            None => r == cfg,
        },
{
    let mut cfg = cfg;
    if let Some(db_path) = cli.db_path {
        cfg.db_path = db_path;
    }
    cfg
}

} // verus!
