use slimhub::config::{config_path, Config, ConfigError, RawConfig, Setting};
use slimhub::document::Field;

const FULL: &str = "
[general]
hub_id = \"hub-A\"

[storage]
db_path = \"/data/hub\"
disk_capacity_gb = 20
high_watermark_pct = 85
low_watermark_pct = 55

[zenoh]
listen = [\"tcp/1.2.3.4:7447\", \"udp/1.2.3.4:7448\"]
";

fn missing(text: &str) -> Setting {
    match Config::load(text) {
        Err(ConfigError::Missing(setting)) => setting,
        _ => panic!("a setting should be missing"),
    }
}

#[test]
fn full_text_is_read() {
    let cfg = Config::load(FULL).unwrap();
    assert_eq!(cfg.db_path, "/data/hub");
    assert_eq!(cfg.disk_capacity_gb, 20);
    assert_eq!(cfg.high_watermark_pct, 85);
    assert_eq!(cfg.low_watermark_pct, 55);
    assert_eq!(cfg.zenoh_listen, vec!["tcp/1.2.3.4:7447", "udp/1.2.3.4:7448"]);
    assert_eq!(cfg.hub_id, "hub-A");
}

#[test]
fn inline_tables_are_sections_too() {
    let cfg = Config::load(
        "general = { hub_id = \"x\" }\n\
         zenoh = { listen = [] }\n\
         storage = { db_path = \"p\", disk_capacity_gb = 1, high_watermark_pct = 2, \
         low_watermark_pct = 3 }\n",
    )
    .unwrap();
    assert_eq!(cfg.hub_id, "x");
    assert_eq!(cfg.db_path, "p");
    assert_eq!(cfg.disk_capacity_gb, 1);
    assert_eq!(cfg.high_watermark_pct, 2);
    assert_eq!(cfg.low_watermark_pct, 3);
    assert_eq!(cfg.zenoh_listen, Vec::<String>::new());
}

#[test]
fn values_of_other_types_count_as_defaults() {
    let cfg = Config::load(
        "[general]\nhub_id = 5\n\
         [storage]\ndb_path = 1\ndisk_capacity_gb = \"20\"\nhigh_watermark_pct = 80.5\n\
         low_watermark_pct = true\n\
         [zenoh]\nlisten = \"tcp/x\"\n",
    )
    .unwrap();
    assert_eq!(cfg.db_path, "/var/lib/slimhub/slimhub.db");
    assert_eq!(cfg.disk_capacity_gb, 10);
    assert_eq!(cfg.high_watermark_pct, 80);
    assert_eq!(cfg.low_watermark_pct, 60);
    assert_eq!(cfg.zenoh_listen, vec!["tcp/0.0.0.0:7447"]);
    assert_eq!(cfg.hub_id, "slimhub-1");
}

#[test]
fn elements_that_are_no_strings_are_passed_over() {
    let text = FULL.replace(
        "[\"tcp/1.2.3.4:7447\", \"udp/1.2.3.4:7448\"]",
        "[1, \"a\", true, \"b\", [\"c\"]]",
    );
    assert_eq!(Config::load(&text).unwrap().zenoh_listen, vec!["a", "b"]);
}

#[test]
fn numbers_that_do_not_fit_lose_their_high_bits() {
    let text = FULL
        .replace("disk_capacity_gb = 20", "disk_capacity_gb = -1")
        .replace("high_watermark_pct = 85", "high_watermark_pct = 300")
        .replace("low_watermark_pct = 55", "low_watermark_pct = -1");
    let cfg = Config::load(&text).unwrap();
    assert_eq!(cfg.disk_capacity_gb, u64::MAX);
    assert_eq!(cfg.high_watermark_pct, 44);
    assert_eq!(cfg.low_watermark_pct, 255);
}

#[test]
fn integers_are_taken_as_casts_take_them() {
    for n in [0i64, 1, 255, 256, 257, -255, -256, -257, i64::MAX, i64::MIN, i64::MIN + 1] {
        let raw = RawConfig {
            db_path: Some(Field::Other),
            disk_capacity_gb: Some(Field::Integer(n)),
            high_watermark_pct: Some(Field::Integer(n)),
            low_watermark_pct: Some(Field::Integer(n)),
            zenoh_listen: Some(Field::List(vec![])),
            hub_id: Some(Field::Other),
        };
        let cfg = Config::from_raw(raw).unwrap();
        assert_eq!(cfg.disk_capacity_gb, n as u64);
        assert_eq!(cfg.high_watermark_pct, n as u8);
        assert_eq!(cfg.low_watermark_pct, n as u8);
    }
}

#[test]
fn each_setting_can_be_missing() {
    assert_eq!(missing(&FULL.replace("db_path = \"/data/hub\"", "")), Setting::DbPath);
    assert_eq!(missing(&FULL.replace("disk_capacity_gb = 20", "")), Setting::DiskCapacityGb);
    assert_eq!(missing(&FULL.replace("high_watermark_pct = 85", "")), Setting::HighWatermarkPct);
    assert_eq!(missing(&FULL.replace("low_watermark_pct = 55", "")), Setting::LowWatermarkPct);
    assert_eq!(missing(&FULL.replace("listen", "listens")), Setting::ZenohListen);
    assert_eq!(missing(&FULL.replace("hub_id = \"hub-A\"", "")), Setting::HubId);
}

#[test]
fn first_missing_setting_is_reported() {
    assert_eq!(missing(""), Setting::DbPath);
    assert_eq!(missing("[storage]\ndb_path = \"p\"\n"), Setting::DiskCapacityGb);
    assert_eq!(missing(&FULL.replace("[zenoh]\nlisten", "[other]\nx")), Setting::ZenohListen);
    // A section that is no table holds nothing.
    let flat = format!("zenoh = 5\n{}", FULL.replace("[zenoh]\nlisten", "[other]\nx"));
    assert_eq!(missing(&flat), Setting::ZenohListen);
}

#[test]
fn text_that_is_no_document() {
    assert!(matches!(Config::load("[storage"), Err(ConfigError::Syntax(_))));
    assert!(matches!(Config::load("a = "), Err(ConfigError::Syntax(_))));
    assert!(matches!(Config::load("x = 1\nx = 2\n"), Err(ConfigError::Syntax(_))));
}

#[test]
fn path_of_the_command_line_goes_first() {
    let a = Some(String::from("a.toml"));
    let e = Some(String::from("e.toml"));
    assert_eq!(config_path(a.clone(), e.clone()), "a.toml");
    assert_eq!(config_path(a, None), "a.toml");
    assert_eq!(config_path(None, e), "e.toml");
    assert_eq!(config_path(None, None), "slimhub.toml");
}
