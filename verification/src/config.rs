//! The configuration of a hub.
use vstd::prelude::*;

use crate::document::{
    document_field, list_view, parse_document, parsed_fields, Field, FieldView,
};

verus! {

/// The configuration file, where neither the command line nor the environment
/// names one.
pub const DEFAULT_CONFIG_PATH: &'static str = "slimhub.toml";

pub const DEFAULT_DB_PATH: &'static str = "/var/lib/slimhub/slimhub.db";

pub const DEFAULT_DISK_CAPACITY_GB: u64 = 10;

pub const DEFAULT_HIGH_WATERMARK_PCT: u8 = 80;

pub const DEFAULT_LOW_WATERMARK_PCT: u8 = 60;

pub const DEFAULT_ZENOH_LISTEN: &'static str = "tcp/0.0.0.0:7447";

pub const DEFAULT_HUB_ID: &'static str = "slimhub-1";

/// The configuration of a hub.
#[derive(Debug, Clone)]
pub struct Config {
    pub db_path: String,
    pub disk_capacity_gb: u64,
    pub high_watermark_pct: u8,
    pub low_watermark_pct: u8,
    pub zenoh_listen: Vec<String>,
    pub hub_id: String,
}

/// The configuration of a hub, as mathematics.
#[verifier::ext_equal]
pub struct ConfigView {
    pub db_path: Seq<char>,
    pub disk_capacity_gb: u64,
    pub high_watermark_pct: u8,
    pub low_watermark_pct: u8,
    pub zenoh_listen: Seq<Seq<char>>,
    pub hub_id: Seq<char>,
}

/// Strings as sequences of characters.
pub open spec fn strings_view(strings: Seq<String>) -> Seq<Seq<char>> {
    strings.map_values(|s: String| s@)
}

impl View for Config {
    type V = ConfigView;

    open spec fn view(&self) -> ConfigView {
        ConfigView {
            db_path: self.db_path@,
            disk_capacity_gb: self.disk_capacity_gb,
            high_watermark_pct: self.high_watermark_pct,
            low_watermark_pct: self.low_watermark_pct,
            zenoh_listen: strings_view(self.zenoh_listen@),
            hub_id: self.hub_id@,
        }
    }
}

/// Why a text is no configuration.
#[derive(Debug)]
pub enum ConfigError {
    /// It is no TOML document.
    Syntax(toml::de::Error),
    /// It lacks a setting.
    Missing(Setting),
}

/// The settings that a configuration text holds.
#[derive(Debug, Clone, Copy, PartialEq, Eq, Structural)]
pub enum Setting {
    DbPath,
    DiskCapacityGb,
    HighWatermarkPct,
    LowWatermarkPct,
    ZenohListen,
    HubId,
}

impl Setting {
    /// Section and key of a setting.
    pub open spec fn place(self) -> (Seq<char>, Seq<char>) {
        match self {
            Setting::DbPath => ("storage"@, "db_path"@),
            Setting::DiskCapacityGb => ("storage"@, "disk_capacity_gb"@),
            Setting::HighWatermarkPct => ("storage"@, "high_watermark_pct"@),
            Setting::LowWatermarkPct => ("storage"@, "low_watermark_pct"@),
            Setting::ZenohListen => ("zenoh"@, "listen"@),
            Setting::HubId => ("general"@, "hub_id"@),
        }
    }
}

/// What a configuration text says of each setting, as far as it says anything.
#[derive(Debug)]
pub struct RawConfig {
    pub db_path: Option<Field>,
    pub disk_capacity_gb: Option<Field>,
    pub high_watermark_pct: Option<Field>,
    pub low_watermark_pct: Option<Field>,
    pub zenoh_listen: Option<Field>,
    pub hub_id: Option<Field>,
}

/// A value that may be absent, as mathematics.
pub open spec fn option_view(field: Option<Field>) -> Option<FieldView> {
    match field {
        Some(field) => Some(field@),
        None => None,
    }
}

impl RawConfig {
    /// What is said of one setting.
    pub open spec fn says(self, setting: Setting) -> Option<FieldView> {
        match setting {
            Setting::DbPath => option_view(self.db_path),
            Setting::DiskCapacityGb => option_view(self.disk_capacity_gb),
            Setting::HighWatermarkPct => option_view(self.high_watermark_pct),
            Setting::LowWatermarkPct => option_view(self.low_watermark_pct),
            Setting::ZenohListen => option_view(self.zenoh_listen),
            Setting::HubId => option_view(self.hub_id),
        }
    }
}

/// What a document says of one setting.
pub open spec fn document_says(
    fields: Map<(Seq<char>, Seq<char>), FieldView>,
    setting: Setting,
) -> Option<FieldView> {
    fields.get(setting.place())
}

/// A string setting; a value of another type counts as the default.
pub open spec fn text_setting(said: Option<FieldView>, default: Seq<char>) -> Seq<char> {
    match said {
        Some(FieldView::Text(text)) => text,
        _ => default,
    }
}

/// An integer setting; a value of another type counts as the default. Of a
/// number that does not fit, the low bits count.
pub open spec fn integer_setting(said: Option<FieldView>, default: int, modulus: int) -> int {
    match said {
        Some(FieldView::Integer(n)) => n as int % modulus,
        _ => default,
    }
}

/// The strings among the elements of an array, in order.
pub open spec fn strings_among(items: Seq<Option<Seq<char>>>) -> Seq<Seq<char>>
    decreases items.len(),
{
    if items.len() == 0 {
        Seq::empty()
    } else {
        match items.last() {
            Some(text) => strings_among(items.drop_last()).push(text),
            None => strings_among(items.drop_last()),
        }
    }
}

/// A setting that is a list of strings; a value that is no array counts as the
/// default, and an element that is no string is passed over.
pub open spec fn list_setting(said: Option<FieldView>, default: Seq<char>) -> Seq<Seq<char>> {
    match said {
        Some(FieldView::List(items)) => strings_among(items),
        _ => seq![default],
    }
}

/// The configuration that a text with these settings describes.
pub open spec fn described(says: spec_fn(Setting) -> Option<FieldView>) -> ConfigView {
    ConfigView {
        db_path: text_setting(says(Setting::DbPath), DEFAULT_DB_PATH@),
        disk_capacity_gb: integer_setting(
            says(Setting::DiskCapacityGb),
            DEFAULT_DISK_CAPACITY_GB as int,
            0x1_0000_0000_0000_0000,
        ) as u64,
        high_watermark_pct: integer_setting(
            says(Setting::HighWatermarkPct),
            DEFAULT_HIGH_WATERMARK_PCT as int,
            0x100,
        ) as u8,
        low_watermark_pct: integer_setting(
            says(Setting::LowWatermarkPct),
            DEFAULT_LOW_WATERMARK_PCT as int,
            0x100,
        ) as u8,
        zenoh_listen: list_setting(says(Setting::ZenohListen), DEFAULT_ZENOH_LISTEN@),
        hub_id: text_setting(says(Setting::HubId), DEFAULT_HUB_ID@),
    }
}

/// The first setting, in the order of their declaration, of which nothing is
/// said.
pub open spec fn first_missing(says: spec_fn(Setting) -> Option<FieldView>) -> Option<Setting> {
    if says(Setting::DbPath) is None {
        Some(Setting::DbPath)
    } else if says(Setting::DiskCapacityGb) is None {
        Some(Setting::DiskCapacityGb)
    } else if says(Setting::HighWatermarkPct) is None {
        Some(Setting::HighWatermarkPct)
    } else if says(Setting::LowWatermarkPct) is None {
        Some(Setting::LowWatermarkPct)
    } else if says(Setting::ZenohListen) is None {
        Some(Setting::ZenohListen)
    } else if says(Setting::HubId) is None {
        Some(Setting::HubId)
    } else {
        None
    }
}

fn text_or(field: Field, default: &str) -> (text: String)
    ensures
        text@ == text_setting(Some(field@), default@),
{
    match field {
        Field::Text(text) => text,
        _ => default.to_owned(),
    }
}

fn u64_or(field: Field, default: u64) -> (n: u64)
    ensures
        n == integer_setting(Some(field@), default as int, 0x1_0000_0000_0000_0000),
{
    match field {
        Field::Integer(n) => {
            if n >= 0 {
                n as u64
            } else {
                // The complement of a negative number is its distance below zero, less one.
                u64::MAX - ((-(n + 1)) as u64)
            }
        },
        _ => default,
    }
}

fn u8_or(field: Field, default: u8) -> (n: u8)
    ensures
        n == integer_setting(Some(field@), default as int, 0x100),
{
    match field {
        Field::Integer(n) => {
            if n >= 0 {
                (n % 256) as u8
            } else {
                255 - ((-(n + 1)) % 256) as u8
            }
        },
        _ => default,
    }
}

fn list_or(field: Field, default: &str) -> (list: Vec<String>)
    ensures
        strings_view(list@) == list_setting(Some(field@), default@),
{
    let mut list: Vec<String> = Vec::new();
    match field {
        Field::List(items) => {
            let mut i: usize = 0;
            while i < items.len()
                invariant
                    i <= items@.len(),
                    strings_view(list@) == strings_among(list_view(items@.take(i as int))),
                decreases items@.len() - i,
            {
                let ghost seen = list@;
                assert(list_view(items@.take(i + 1)).drop_last() =~= list_view(
                    items@.take(i as int),
                ));
                match &items[i] {
                    Some(text) => {
                        list.push(text.clone());
                        assert(strings_view(list@) =~= strings_view(seen).push(text@));
                    },
                    None => {},
                }
                i = i + 1;
            }
            assert(items@.take(items@.len() as int) =~= items@);
        },
        _ => {
            list.push(default.to_owned());
            assert(strings_view(list@) =~= seq![default@]);
        },
    }
    list
}

/// What reading a configuration from its text comes to.
pub open spec fn load_result(text: Seq<char>, r: Result<Config, ConfigError>) -> bool {
    match (r, parsed_fields(text)) {
        (Ok(config), Some(fields)) => {
            &&& first_missing(|s: Setting| document_says(fields, s)) is None
            &&& config@ == described(|s: Setting| document_says(fields, s))
        },
        (Err(ConfigError::Missing(setting)), Some(fields)) => first_missing(
            |s: Setting| document_says(fields, s),
        ) == Some(setting),
        (Err(ConfigError::Syntax(_)), None) => true,
        _ => false,
    }
}

impl Config {
    /// Builds the configuration from what is said of each setting. Nothing is
    /// assumed of a setting that is not mentioned at all.
    pub fn from_raw(raw: RawConfig) -> (r: Result<Config, Setting>)
        ensures
            match r {
                Ok(config) => first_missing(|s: Setting| raw.says(s)) is None && config@
                    == described(|s: Setting| raw.says(s)),
                Err(setting) => first_missing(|s: Setting| raw.says(s)) == Some(setting),
            },
    {
        let db_path = match raw.db_path {
            Some(field) => text_or(field, DEFAULT_DB_PATH),
            None => return Err(Setting::DbPath),
        };
        let disk_capacity_gb: u64 = match raw.disk_capacity_gb {
            Some(field) => u64_or(field, DEFAULT_DISK_CAPACITY_GB),
            None => return Err(Setting::DiskCapacityGb),
        };
        let high_watermark_pct: u8 = match raw.high_watermark_pct {
            Some(field) => u8_or(field, DEFAULT_HIGH_WATERMARK_PCT),
            None => return Err(Setting::HighWatermarkPct),
        };
        let low_watermark_pct: u8 = match raw.low_watermark_pct {
            Some(field) => u8_or(field, DEFAULT_LOW_WATERMARK_PCT),
            None => return Err(Setting::LowWatermarkPct),
        };
        let zenoh_listen = match raw.zenoh_listen {
            Some(field) => list_or(field, DEFAULT_ZENOH_LISTEN),
            None => return Err(Setting::ZenohListen),
        };
        let hub_id = match raw.hub_id {
            Some(field) => text_or(field, DEFAULT_HUB_ID),
            None => return Err(Setting::HubId),
        };
        Ok(
            Config {
                db_path,
                disk_capacity_gb,
                high_watermark_pct,
                low_watermark_pct,
                zenoh_listen,
                hub_id,
            },
        )
    }

    /// Reads the configuration from the text of its file.
    pub fn load(text: &str) -> (r: Result<Config, ConfigError>)
        ensures
            load_result(text@, r),
    {
        let document = match parse_document(text) {
            Ok(document) => document,
            Err(e) => return Err(ConfigError::Syntax(e)),
        };
        let raw = RawConfig {
            db_path: document_field(&document, "storage", "db_path"),
            disk_capacity_gb: document_field(&document, "storage", "disk_capacity_gb"),
            high_watermark_pct: document_field(&document, "storage", "high_watermark_pct"),
            low_watermark_pct: document_field(&document, "storage", "low_watermark_pct"),
            zenoh_listen: document_field(&document, "zenoh", "listen"),
            hub_id: document_field(&document, "general", "hub_id"),
        };
        match Config::from_raw(raw) {
            Ok(config) => Ok(config),
            Err(setting) => Err(ConfigError::Missing(setting)),
        }
    }
}

/// The file that the configuration is read from: the one that the command line
/// names, else the one that the environment names, else the default.
pub fn config_path(argument: Option<String>, environment: Option<String>) -> (path: String)
    ensures
        path@ == match (argument, environment) {
            (Some(path), _) => path@,
            (None, Some(path)) => path@,
            (None, None) => DEFAULT_CONFIG_PATH@,
        },
{
    match argument {
        Some(path) => path,
        None => match environment {
            Some(path) => path,
            None => DEFAULT_CONFIG_PATH.to_owned(),
        },
    }
}

/// The view of a configuration is its settings.
pub proof fn law_settings_are_seen_as_they_are(config: Config, i: int)
    ensures
        config@.db_path == config.db_path@,
        config@.disk_capacity_gb == config.disk_capacity_gb,
        config@.high_watermark_pct == config.high_watermark_pct,
        config@.low_watermark_pct == config.low_watermark_pct,
        config@.zenoh_listen.len() == config.zenoh_listen@.len(),
        0 <= i < config.zenoh_listen@.len() ==> config@.zenoh_listen[i]
            == config.zenoh_listen@[i]@,
        config@.hub_id == config.hub_id@,
{
}

/// A string that is said is the setting, and a value of any other type counts as
/// the default.
pub proof fn law_strings_are_taken_as_they_are(says: spec_fn(Setting) -> Option<FieldView>)
    ensures
        match says(Setting::DbPath) {
            Some(FieldView::Text(text)) => described(says).db_path == text,
            _ => described(says).db_path == "/var/lib/slimhub/slimhub.db"@,
        },
        match says(Setting::HubId) {
            Some(FieldView::Text(text)) => described(says).hub_id == text,
            _ => described(says).hub_id == "slimhub-1"@,
        },
{
}

/// An integer that is said is the setting, up to a multiple of the numbers that
/// the setting can be, and a value of any other type counts as the default.
pub proof fn law_integers_are_taken_as_they_are(
    says: spec_fn(Setting) -> Option<FieldView>,
)
    ensures
        match says(Setting::DiskCapacityGb) {
            Some(FieldView::Integer(n)) => described(says).disk_capacity_gb == if n >= 0 {
                n as int
            } else {
                n + 0x1_0000_0000_0000_0000
            },
            _ => described(says).disk_capacity_gb == 10,
        },
        match says(Setting::HighWatermarkPct) {
            Some(FieldView::Integer(n)) => {
                &&& 0 <= n < 256 ==> described(says).high_watermark_pct == n
                &&& (n - described(says).high_watermark_pct) % 256 == 0
            },
            _ => described(says).high_watermark_pct == 80,
        },
        match says(Setting::LowWatermarkPct) {
            Some(FieldView::Integer(n)) => {
                &&& 0 <= n < 256 ==> described(says).low_watermark_pct == n
                &&& (n - described(says).low_watermark_pct) % 256 == 0
            },
            _ => described(says).low_watermark_pct == 60,
        },
{
}

/// The strings of a list are the setting, and what is no list counts as the
/// default.
pub proof fn law_lists_are_taken_as_they_are(says: spec_fn(Setting) -> Option<FieldView>)
    ensures
        match says(Setting::ZenohListen) {
            Some(FieldView::List(items)) => described(says).zenoh_listen == strings_among(items),
            _ => described(says).zenoh_listen == seq!["tcp/0.0.0.0:7447"@],
        },
{
}

/// The strings among the elements of a list: a list of one string has it, one of
/// anything else has none, and two lists one after the other have the strings of
/// both, in order.
pub proof fn law_strings_among(
    a: Seq<Option<Seq<char>>>,
    b: Seq<Option<Seq<char>>>,
    text: Seq<char>,
)
    ensures
        strings_among(seq![Some(text)]) == seq![text],
        strings_among(seq![None]) == Seq::<Seq<char>>::empty(),
        strings_among(Seq::empty()) == Seq::<Seq<char>>::empty(),
        strings_among(a + b) == strings_among(a) + strings_among(b),
    decreases b.len(),
{
    let one: Seq<Option<Seq<char>>> = seq![Some(text)];
    let none: Seq<Option<Seq<char>>> = seq![None];
    reveal_with_fuel(strings_among, 2);
    assert(one.drop_last() =~= Seq::empty());
    assert(none.drop_last() =~= Seq::empty());
    assert(strings_among(one) =~= seq![text]);
    if b.len() == 0 {
        assert(a + b =~= a);
        assert(strings_among(a) + strings_among(b) =~= strings_among(a));
    } else {
        law_strings_among(a, b.drop_last(), text);
        assert((a + b).drop_last() =~= a + b.drop_last());
        assert((a + b).last() == b.last());
        assert(strings_among(a + b) =~= strings_among(a) + strings_among(b));
    }
}

/// A setting is missing just where nothing is said of it, and the one that is
/// reported comes before all others that are.
pub proof fn law_missing_settings(says: spec_fn(Setting) -> Option<FieldView>)
    ensures
        first_missing(says) is None <==> says(Setting::DbPath) is Some && says(
            Setting::DiskCapacityGb,
        ) is Some && says(Setting::HighWatermarkPct) is Some && says(Setting::LowWatermarkPct)
            is Some && says(Setting::ZenohListen) is Some && says(Setting::HubId) is Some,
        first_missing(says) matches Some(setting) ==> says(setting) is None,
        says(Setting::DbPath) is None ==> first_missing(says) == Some(Setting::DbPath),
        first_missing(says) == Some(Setting::DiskCapacityGb) ==> says(Setting::DbPath) is Some,
        first_missing(says) == Some(Setting::HighWatermarkPct) ==> says(Setting::DbPath) is Some
            && says(Setting::DiskCapacityGb) is Some,
        first_missing(says) == Some(Setting::LowWatermarkPct) ==> says(Setting::DbPath) is Some
            && says(Setting::DiskCapacityGb) is Some && says(Setting::HighWatermarkPct) is Some,
        first_missing(says) == Some(Setting::ZenohListen) ==> says(Setting::DbPath) is Some && says(
            Setting::DiskCapacityGb,
        ) is Some && says(Setting::HighWatermarkPct) is Some && says(Setting::LowWatermarkPct)
            is Some,
        first_missing(says) == Some(Setting::HubId) ==> says(Setting::DbPath) is Some && says(
            Setting::DiskCapacityGb,
        ) is Some && says(Setting::HighWatermarkPct) is Some && says(Setting::LowWatermarkPct)
            is Some && says(Setting::ZenohListen) is Some,
{
}

/// A document says of each setting what stands under its section and key.
pub proof fn law_settings_have_their_places(fields: Map<(Seq<char>, Seq<char>), FieldView>)
    ensures
        document_says(fields, Setting::DbPath) == fields.get(("storage"@, "db_path"@)),
        document_says(fields, Setting::DiskCapacityGb) == fields.get(
            ("storage"@, "disk_capacity_gb"@),
        ),
        document_says(fields, Setting::HighWatermarkPct) == fields.get(
            ("storage"@, "high_watermark_pct"@),
        ),
        document_says(fields, Setting::LowWatermarkPct) == fields.get(
            ("storage"@, "low_watermark_pct"@),
        ),
        document_says(fields, Setting::ZenohListen) == fields.get(("zenoh"@, "listen"@)),
        document_says(fields, Setting::HubId) == fields.get(("general"@, "hub_id"@)),
{
}

/// What loading a text comes to: an error just where it is no document or lacks a
/// setting; else the name, the place and the numbers of the configuration are
/// those that stand in the document.
pub proof fn law_load_follows_the_text(text: Seq<char>, r: Result<Config, ConfigError>)
    requires
        load_result(text, r),
    ensures
        r matches Err(ConfigError::Syntax(_)) <==> parsed_fields(text) is None,
        r is Ok <==> (parsed_fields(text) matches Some(fields) && {
            &&& fields.contains_key(("storage"@, "db_path"@))
            &&& fields.contains_key(("storage"@, "disk_capacity_gb"@))
            &&& fields.contains_key(("storage"@, "high_watermark_pct"@))
            &&& fields.contains_key(("storage"@, "low_watermark_pct"@))
            &&& fields.contains_key(("zenoh"@, "listen"@))
            &&& fields.contains_key(("general"@, "hub_id"@))
        }),
        r matches Ok(config) ==> parsed_fields(text) matches Some(fields) && {
            &&& fields[("general"@, "hub_id"@)] matches FieldView::Text(t) ==> config.hub_id@ == t
            &&& fields[("storage"@, "db_path"@)] matches FieldView::Text(t) ==> config.db_path@ == t
            &&& fields[("storage"@, "disk_capacity_gb"@)] matches FieldView::Integer(n) ==> n >= 0
                ==> config.disk_capacity_gb == n
            &&& fields[("storage"@, "high_watermark_pct"@)] matches FieldView::Integer(n) ==> 0
                <= n < 256 ==> config.high_watermark_pct == n
            &&& fields[("storage"@, "low_watermark_pct"@)] matches FieldView::Integer(n) ==> 0 <= n
                < 256 ==> config.low_watermark_pct == n
        },
        r matches Err(ConfigError::Missing(setting)) ==> parsed_fields(text) matches Some(fields)
            && document_says(fields, setting) is None,
{
    if let Some(fields) = parsed_fields(text) {
        let says: spec_fn(Setting) -> Option<FieldView> = |s: Setting| document_says(fields, s);
        law_missing_settings(says);
        law_settings_have_their_places(fields);
        law_strings_are_taken_as_they_are(says);
        law_integers_are_taken_as_they_are(says);
        assert(says(Setting::DbPath) == document_says(fields, Setting::DbPath));
        assert(says(Setting::DiskCapacityGb) == document_says(fields, Setting::DiskCapacityGb));
        assert(says(Setting::HighWatermarkPct) == document_says(fields, Setting::HighWatermarkPct));
        assert(says(Setting::LowWatermarkPct) == document_says(fields, Setting::LowWatermarkPct));
        assert(says(Setting::ZenohListen) == document_says(fields, Setting::ZenohListen));
        assert(says(Setting::HubId) == document_says(fields, Setting::HubId));
    }
}

} // verus!
