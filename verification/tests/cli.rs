use slimhub::cli::{apply_cli_overrides, run_mode, Cli, Commands, RunMode};
use slimhub::config::Config;

fn cli(daemon: bool, db_path: Option<&str>, command: Option<Commands>) -> Cli {
    Cli { config: None, daemon, db_path: db_path.map(String::from), command }
}

fn config() -> Config {
    Config {
        db_path: String::from("/data/hub"),
        disk_capacity_gb: 3,
        high_watermark_pct: 70,
        low_watermark_pct: 50,
        zenoh_listen: vec![String::from("tcp/a"), String::from("tcp/b")],
        hub_id: String::from("hub-A"),
    }
}

#[test]
fn mode_without_arguments_is_foreground() {
    assert_eq!(run_mode(&cli(false, None, None)), RunMode::Foreground);
}

#[test]
fn mode_of_a_command() {
    assert_eq!(
        run_mode(&cli(false, None, Some(Commands::Status))),
        RunMode::Client(Commands::Status)
    );
    assert_eq!(
        run_mode(&cli(false, None, Some(Commands::Reload))),
        RunMode::Client(Commands::Reload)
    );
}

#[test]
fn daemon_goes_before_a_command() {
    assert_eq!(run_mode(&cli(true, None, None)), RunMode::Daemon);
    assert_eq!(run_mode(&cli(true, None, Some(Commands::Status))), RunMode::Daemon);
}

#[test]
fn db_path_of_the_command_line_wins() {
    let r = apply_cli_overrides(cli(false, Some("/elsewhere"), None), config());
    assert_eq!(r.db_path, "/elsewhere");
    assert_eq!(r.disk_capacity_gb, 3);
    assert_eq!(r.high_watermark_pct, 70);
    assert_eq!(r.low_watermark_pct, 50);
    assert_eq!(r.zenoh_listen, vec!["tcp/a", "tcp/b"]);
    assert_eq!(r.hub_id, "hub-A");
}

#[test]
fn db_path_stays_without_an_override() {
    assert_eq!(apply_cli_overrides(cli(false, None, None), config()).db_path, "/data/hub");
}
