//! The hub: what it does about a chunk that arrives, about the size of its
//! database, and about the chunks that wait for the consumer.
use vstd::prelude::*;

use crate::cli::{apply_cli_overrides, Cli};
use crate::clock::{is_clock_time, law_clock_time_was_shown, unix_nanos};
use crate::config::{
    described, document_says, first_missing, law_integers_are_taken_as_they_are,
    law_missing_settings, law_settings_have_their_places, law_strings_are_taken_as_they_are,
    load_result, Config, ConfigError, ConfigView, Setting,
};
use crate::document::{parsed_fields, FieldView};
use crate::keys::{
    before, is_expired, law_key_order_is_arrival_order, names_blind_id, timestamp_of, BLIND_ID_LEN,
};
use crate::model::{
    in_batch, law_expiry_takes_the_old, law_known_is_held, law_offer_adds_what_is_unknown,
    StorageView,
};
use crate::reading::clock_showed;
use crate::storage::{
    batch_result, consume_result, insert_result, law_cleanup_goes_by_the_marks,
    law_confirm_keeps_well_formed,
    law_consume_keeps_the_others, law_insert_keeps_well_formed, law_insert_keeps_what_waits,
    law_insert_success_is_stored, law_trim_drops_no_young_chunk, law_trim_keeps_well_formed,
    settle_result, trim_result, PendingBatch, Storage, StorageError, TrimStage, CACHE_CAPACITY,
    FLUSH_EVERY_MS,
};
use crate::topics::{
    ack_topic, backpressure_topic, digits_of, is_digit_char, joined, last_segment,
    law_ack_names_the_chunk, law_every_identifier_is_spelled, law_last_segment_of_joined,
    law_thirty_two_digits_spell_an_identifier, parse_blind_id, spelled_blind_id, topic_leaf,
    ACK_PREFIX, BACKPRESSURE_PREFIX,
};

verus! {

/// How many waiting chunks are forwarded at a time.
pub const BATCH_SIZE: usize = 64;

/// Milliseconds between two rounds of forwarding.
pub const PUSH_INTERVAL_MS: u64 = 100;

/// Milliseconds between two looks at the size of the database.
pub const MONITOR_INTERVAL_MS: u64 = 500;

/// Per cent of the disk from which on new chunks are refused.
pub const SOFT_LIMIT_PCT: u64 = 90;

/// Per cent of the disk from which on the hub stops.
pub const HARD_LIMIT_PCT: u64 = 95;

// ---------------------------------------------------------------------------
// Disk pressure
// ---------------------------------------------------------------------------
/// How short of disk the hub is.
#[derive(Debug, Clone, Copy, PartialEq, Eq, Structural)]
pub enum PressureLevel {
    /// Nothing is amiss.
    Normal,
    /// Producers are asked to slow down.
    Warning,
    /// Producers are asked to stop, and new chunks are refused.
    Critical,
    /// The hub has to stop before the disk is full.
    Exhausted,
}

/// The database takes at least that share of the disk.
pub open spec fn takes_share(db_size: u64, disk_capacity: u64, pct: u64) -> bool {
    db_size * 100 >= disk_capacity * pct
}

/// The level that a database of that size means, where a cleanup did or did not
/// call for backpressure.
pub open spec fn level_at(db_size: u64, disk_capacity: u64, backpressure: bool) -> PressureLevel {
    if takes_share(db_size, disk_capacity, HARD_LIMIT_PCT) {
        PressureLevel::Exhausted
    } else if takes_share(db_size, disk_capacity, SOFT_LIMIT_PCT) {
        PressureLevel::Critical
    } else if backpressure {
        PressureLevel::Warning
    } else {
        PressureLevel::Normal
    }
}

fn reaches_share(db_size: u64, disk_capacity: u64, pct: u64) -> (reaches: bool)
    ensures
        reaches == takes_share(db_size, disk_capacity, pct),
{
    assert(disk_capacity * pct <= u128::MAX) by (nonlinear_arith)
        requires
            0 <= disk_capacity <= 0xffff_ffff_ffff_ffff,
            0 <= pct <= 0xffff_ffff_ffff_ffff,
    ;
    db_size as u128 * 100 >= disk_capacity as u128 * pct as u128
}

/// Finds the level that a database of that size means.
pub fn pressure_level(db_size: u64, disk_capacity: u64, backpressure: bool) -> (level:
    PressureLevel)
    ensures
        level == level_at(db_size, disk_capacity, backpressure),
{
    if reaches_share(db_size, disk_capacity, HARD_LIMIT_PCT) {
        PressureLevel::Exhausted
    } else if reaches_share(db_size, disk_capacity, SOFT_LIMIT_PCT) {
        PressureLevel::Critical
    } else if backpressure {
        PressureLevel::Warning
    } else {
        PressureLevel::Normal
    }
}

/// The word for a level in a frame.
pub open spec fn level_word(level: PressureLevel) -> Seq<char> {
    match level {
        PressureLevel::Normal => "NORMAL"@,
        PressureLevel::Warning => "WARNING"@,
        PressureLevel::Critical => "CRITICAL"@,
        PressureLevel::Exhausted => "EXHAUSTED"@,
    }
}

/// The word for a level in a frame.
pub fn level_name(level: PressureLevel) -> (name: &'static str)
    ensures
        name@ == level_word(level),
{
    match level {
        PressureLevel::Normal => "NORMAL",
        PressureLevel::Warning => "WARNING",
        PressureLevel::Critical => "CRITICAL",
        PressureLevel::Exhausted => "EXHAUSTED",
    }
}

/// The wait between two chunks that a level suggests, in milliseconds.
pub open spec fn suggested_wait(level: PressureLevel) -> u64 {
    match level {
        PressureLevel::Normal => 0,
        PressureLevel::Warning => 1000,
        PressureLevel::Critical | PressureLevel::Exhausted => 5000,
    }
}

/// The wait between two chunks that a level suggests, in milliseconds.
pub fn suggested_interval_ms(level: PressureLevel) -> (ms: u64)
    ensures
        ms == suggested_wait(level),
{
    match level {
        PressureLevel::Normal => 0,
        PressureLevel::Warning => 1000,
        PressureLevel::Critical | PressureLevel::Exhausted => 5000,
    }
}

/// The level that a size of the database means while a cleanup goes on: chunks
/// are refused from the soft limit on, and below it a warning stays until the
/// cleanup is over.
pub open spec fn level_meanwhile(
    db_size: u64,
    disk_capacity: u64,
    last: PressureLevel,
) -> PressureLevel {
    if takes_share(db_size, disk_capacity, SOFT_LIMIT_PCT) {
        PressureLevel::Critical
    } else if last == PressureLevel::Normal {
        PressureLevel::Normal
    } else {
        PressureLevel::Warning
    }
}

/// Finds the level while a cleanup goes on.
pub fn meanwhile_level(db_size: u64, disk_capacity: u64, last: PressureLevel) -> (level:
    PressureLevel)
    ensures
        level == level_meanwhile(db_size, disk_capacity, last),
{
    if reaches_share(db_size, disk_capacity, SOFT_LIMIT_PCT) {
        PressureLevel::Critical
    } else if last == PressureLevel::Normal {
        PressureLevel::Normal
    } else {
        PressureLevel::Warning
    }
}

/// The level that the usage of the disk means by itself, where no cleanup could
/// better it.
pub open spec fn level_by_usage(db_size: u64, limits: DiskLimits) -> PressureLevel {
    level_at(db_size, limits.capacity, db_size >= limits.high_bytes)
}

/// The bytes of so many gigabytes, where that is a number.
pub fn disk_capacity_bytes(gigabytes: u64) -> (bytes: Option<u64>)
    ensures
        match bytes {
            Some(n) => n == gigabytes * 0x4000_0000,
            None => gigabytes * 0x4000_0000 > u64::MAX,
        },
{
    gigabytes.checked_mul(0x4000_0000)
}

/// What the hub tells producers.
#[derive(Debug)]
pub struct BackpressureFrame {
    pub hub_id: String,
    pub level: PressureLevel,
    pub disk_usage_pct: u32,
    /// How long to wait between two chunks.
    pub suggested_interval_ms: u64,
}

/// The disk that the hub may use, and the marks of the cleanup, in bytes.
#[derive(Debug, Clone, Copy)]
pub struct DiskLimits {
    pub capacity: u64,
    pub high_bytes: u64,
    pub low_bytes: u64,
}

/// What is to be done about the size of the database.
#[derive(Debug)]
pub enum MonitorStep {
    /// Measure the size once more, and go on with the cleanup.
    Measure(TrimStage),
    /// Nothing.
    Rest,
    /// Publish a frame.
    Broadcast { topic: String, frame: BackpressureFrame },
    /// Stop the hub.
    Shutdown,
}

// ---------------------------------------------------------------------------
// The hub
// ---------------------------------------------------------------------------
/// A hub: its store, its settings, and how short of disk it was when last seen.
pub struct Hub {
    pub storage: Storage,
    pub config: Config,
    pub level: PressureLevel,
}

/// Why a hub did not take new settings.
#[derive(Debug)]
pub enum ReloadError {
    /// The text is no configuration.
    Config(ConfigError),
    /// The bytes of the configured disk are no number.
    Capacity,
    /// The store that it names did not open.
    Storage(StorageError),
}

/// What became of a chunk.
#[derive(Debug)]
pub enum ChunkOutcome {
    /// Its topic names no blind identifier.
    Ignored,
    /// It is new, and the hub takes no new chunks for want of disk.
    Refused,
    /// It is stored, now or before; confirm it on this topic.
    Stored { is_new: bool, key: Vec<u8>, ack_topic: String },
    /// It could not be stored.
    Failed(StorageError),
}

/// What a chunk that arrives at time `now` comes to. It is confirmed where, and
/// only where, it is stored, now or before. A hub that is short of disk takes no
/// new chunk: it refuses one that it does not know, and confirms one that it
/// does.
pub open spec fn chunk_result(
    hub: Hub,
    topic: Seq<char>,
    payload: Seq<u8>,
    now: u64,
    r: ChunkOutcome,
    after: Hub,
) -> bool {
    match spelled_blind_id(last_segment(topic)) {
        None => r == ChunkOutcome::Ignored && after == hub,
        Some(blind_id) => {
            &&& after.config == hub.config
            &&& after.level == hub.level
            &&& match r {
                ChunkOutcome::Ignored => false,
                ChunkOutcome::Refused => {
                    &&& hub.refuses_chunks()
                    &&& !hub.storage@.knows(blind_id)
                    &&& after.storage == hub.storage
                },
                ChunkOutcome::Stored { is_new, key, ack_topic } => {
                    &&& hub.refuses_chunks() ==> !is_new
                    &&& insert_result(
                        hub.storage,
                        blind_id,
                        payload,
                        now,
                        Ok((is_new, key)),
                        after.storage,
                    )
                    &&& ack_topic@ == joined(ACK_PREFIX@, last_segment(topic))
                    &&& after.storage.same_database(&hub.storage)
                },
                ChunkOutcome::Failed(e) => {
                    &&& hub.refuses_chunks() ==> after.storage@ == hub.storage@ && !(e is Write)
                    &&& insert_result(
                        hub.storage,
                        blind_id,
                        payload,
                        now,
                        Err(e),
                        after.storage,
                    )
                    &&& after.storage.same_database(&hub.storage)
                },
            }
        },
    }
}

/// What became of a chunk, by what storing it came to: one that is stored is
/// confirmed under the name that it came with.
pub fn chunk_outcome(leaf: &str, stored: Result<(bool, Vec<u8>), StorageError>) -> (r: ChunkOutcome)
    ensures
        match stored {
            Ok(answer) => {
                &&& r matches ChunkOutcome::Stored { is_new, key, ack_topic }
                &&& (is_new, key) == answer
                &&& ack_topic@ == joined(ACK_PREFIX@, leaf@)
            },
            Err(e) => r == ChunkOutcome::Failed(e),
        },
{
    match stored {
        Ok((is_new, key)) => ChunkOutcome::Stored { is_new, key, ack_topic: ack_topic(leaf) },
        Err(e) => ChunkOutcome::Failed(e),
    }
}

/// What a look at the size of the database comes to. From the hard limit on the
/// hub stops. Below it the cleanup takes its next step. Where that was the last,
/// the hub goes to the level that the size means, and tells producers; where it
/// was not, chunks are refused all the same from the soft limit on; and where it
/// failed, the hub goes to the level that the usage means by itself.
pub open spec fn monitor_result(
    hub: Hub,
    stage: TrimStage,
    db_size: u64,
    limits: DiskLimits,
    now: u64,
    r: Result<MonitorStep, StorageError>,
    after: Hub,
) -> bool {
    &&& after.config == hub.config
    &&& if takes_share(db_size, limits.capacity, HARD_LIMIT_PCT) {
        &&& r == Ok::<MonitorStep, StorageError>(MonitorStep::Shutdown)
        &&& after.level == PressureLevel::Exhausted
        &&& after.storage == hub.storage
    } else {
        &&& after.storage.same_database(&hub.storage)
        &&& match r {
            Ok(MonitorStep::Measure(next)) => {
                &&& !(next is Done)
                &&& after.level == level_meanwhile(db_size, limits.capacity, hub.level)
                &&& trim_result(
                    hub.storage,
                    stage,
                    db_size,
                    limits.high_bytes,
                    limits.low_bytes,
                    now,
                    Ok(next),
                    after.storage,
                )
            },
            Ok(step) => exists|backpressure: bool|
                {
                    &&& #[trigger] trim_result(
                        hub.storage,
                        stage,
                        db_size,
                        limits.high_bytes,
                        limits.low_bytes,
                        now,
                        Ok(TrimStage::Done { backpressure }),
                        after.storage,
                    )
                    &&& after.level == level_at(db_size, limits.capacity, backpressure)
                    &&& alerts(
                        step,
                        hub.level,
                        after.level,
                        hub.config.hub_id@,
                        db_size,
                        limits.capacity,
                    )
                },
            Err(e) => {
                &&& after.level == level_by_usage(db_size, limits)
                &&& trim_result(
                    hub.storage,
                    stage,
                    db_size,
                    limits.high_bytes,
                    limits.low_bytes,
                    now,
                    Err(e),
                    after.storage,
                )
            },
        }
    }
}

/// The step is what a level asks for, after the level that was last: a frame for
/// producers, also where all is well again, or a stop.
pub open spec fn alerts(
    step: MonitorStep,
    last: PressureLevel,
    level: PressureLevel,
    hub_id: Seq<char>,
    db_size: u64,
    capacity: u64,
) -> bool {
    if level == PressureLevel::Exhausted {
        step == MonitorStep::Shutdown
    } else if level == PressureLevel::Normal && last == PressureLevel::Normal {
        step == MonitorStep::Rest
    } else {
        &&& step matches MonitorStep::Broadcast { topic, frame }
        &&& topic@ == joined(BACKPRESSURE_PREFIX@, hub_id)
        &&& frame.hub_id@ == hub_id
        &&& frame.level == level
        &&& frame.disk_usage_pct == db_size * 100 / (capacity as int)
        &&& frame.suggested_interval_ms == suggested_wait(level)
    }
}

/// The level that a size of the database means once a cleanup is over, and what
/// it asks for, after the level that was last.
pub fn disk_alert(
    hub_id: &str,
    last: PressureLevel,
    backpressure: bool,
    db_size: u64,
    capacity: u64,
) -> (r: (PressureLevel, MonitorStep))
    ensures
        r.0 == level_at(db_size, capacity, backpressure),
        alerts(r.1, last, r.0, hub_id@, db_size, capacity),
{
    let level = pressure_level(db_size, capacity, backpressure);
    if level == PressureLevel::Exhausted {
        return (level, MonitorStep::Shutdown);
    }
    if level == PressureLevel::Normal && last == PressureLevel::Normal {
        return (level, MonitorStep::Rest);
    }
    proof {
        lemma_share_below(db_size as int, capacity as int);
    }
    let pct: u128 = db_size as u128 * 100 / capacity as u128;
    let step = MonitorStep::Broadcast {
        topic: backpressure_topic(hub_id),
        frame: BackpressureFrame {
            hub_id: hub_id.to_owned(),
            level,
            disk_usage_pct: pct as u32,
            suggested_interval_ms: suggested_interval_ms(level),
        },
    };
    (level, step)
}

/// The level that the usage of the disk means where a cleanup failed, and what it
/// asks for, after the level that was last.
pub fn usage_alert(hub_id: &str, last: PressureLevel, db_size: u64, limits: DiskLimits) -> (r: (
    PressureLevel,
    MonitorStep,
))
    ensures
        r.0 == level_by_usage(db_size, limits),
        alerts(r.1, last, r.0, hub_id@, db_size, limits.capacity),
{
    disk_alert(hub_id, last, db_size >= limits.high_bytes, db_size, limits.capacity)
}

/// The settings with what the arguments put in place of them.
pub open spec fn with_overrides(config: ConfigView, db_path: Option<String>) -> ConfigView {
    match db_path {
        Some(db_path) => ConfigView { db_path: db_path@, ..config },
        None => config,
    }
}

/// What reloading the settings from a text comes to: the hub has those that the
/// text describes, but for what the arguments put in their place, on the store
/// that they name. A failure changes nothing.
pub open spec fn reload_result(
    hub: Hub,
    cli: Cli,
    text: Seq<char>,
    r: Result<(), ReloadError>,
    after: Hub,
) -> bool {
    match r {
        Err(ReloadError::Config(e)) => load_result(text, Err(e)) && after == hub,
        _ => {
            &&& parsed_fields(text) matches Some(fields)
            &&& first_missing(|s: Setting| document_says(fields, s)) is None
            &&& {
                let config = with_overrides(
                    described(|s: Setting| document_says(fields, s)),
                    cli.db_path,
                );
                let fits = config.disk_capacity_gb * 0x4000_0000 <= u64::MAX;
                match r {
                    Ok(()) => {
                        &&& fits
                        &&& after.config@ == config
                        &&& after.level == hub.level
                        &&& if config.db_path == hub.storage.path() {
                            after.storage == hub.storage
                        } else {
                            after.storage.opened_at(
                                config.db_path,
                                CACHE_CAPACITY as nat,
                                FLUSH_EVERY_MS as nat,
                            )
                        }
                    },
                    Err(ReloadError::Capacity) => !fits && after == hub,
                    Err(ReloadError::Storage(e)) => {
                        &&& fits
                        &&& config.db_path != hub.storage.path()
                        &&& e is Open
                        &&& after == hub
                    },
                    Err(ReloadError::Config(_)) => false,
                }
            }
        },
    }
}

impl Hub {
    /// The hub takes no new chunks.
    pub open spec fn refuses_chunks(self) -> bool {
        self.level == PressureLevel::Critical || self.level == PressureLevel::Exhausted
    }

    /// A hub on a store, with its settings.
    pub fn new(storage: Storage, config: Config) -> (hub: Hub)
        ensures
            hub == (Hub { storage, config, level: PressureLevel::Normal }),
    {
        Hub { storage, config, level: PressureLevel::Normal }
    }

    /// Takes new settings from the text of a configuration file. A store in
    /// another place is opened in place of the one that the hub has.
    pub fn reload(&mut self, cli: Cli, text: &str) -> (r: Result<(), ReloadError>)
        ensures
            reload_result(*old(self), cli, text@, r, *final(self)),
    {
        let loaded = match Config::load(text) {
            Ok(loaded) => loaded,
            Err(e) => return Err(ReloadError::Config(e)),
        };
        let ghost before_overrides = loaded@;
        let config = apply_cli_overrides(cli, loaded);
        assert(config@ == with_overrides(before_overrides, cli.db_path));
        if disk_capacity_bytes(config.disk_capacity_gb).is_none() {
            return Err(ReloadError::Capacity);
        }
        if config.db_path != self.storage.db_path().to_owned() {
            match Storage::open(config.db_path.as_str()) {
                Ok(storage) => {
                    self.storage = storage;
                },
                Err(e) => return Err(ReloadError::Storage(e)),
            }
        }
        self.config = config;
        Ok(())
    }

    /// Takes a chunk that arrives now; see `receive_chunk_at`.
    pub fn receive_chunk(&mut self, topic: &str, payload: &[u8]) -> (r: ChunkOutcome)
        ensures
            exists|now: u64|
                is_clock_time(now) && #[trigger] chunk_result(
                    *old(self),
                    topic@,
                    payload@,
                    now,
                    r,
                    *final(self),
                ),
    {
        let now: u64 = unix_nanos();
        self.receive_chunk_at(topic, payload, now)
    }

    /// Takes a chunk that arrives at time `now`: stores it under the blind
    /// identifier that its topic ends in, and says where to confirm it.
    pub fn receive_chunk_at(&mut self, topic: &str, payload: &[u8], now: u64) -> (r: ChunkOutcome)
        ensures
            chunk_result(*old(self), topic@, payload@, now, r, *final(self)),
    {
        let leaf = topic_leaf(topic);
        let blind_id: [u8; 16] = match parse_blind_id(leaf) {
            Some(blind_id) => blind_id,
            None => return ChunkOutcome::Ignored,
        };
        if self.level == PressureLevel::Critical || self.level == PressureLevel::Exhausted {
            return match self.storage.known_key(&blind_id) {
                Ok(Some(key)) => chunk_outcome(leaf, Ok((false, key))),
                Ok(None) => ChunkOutcome::Refused,
                Err(e) => ChunkOutcome::Failed(e),
            };
        }
        chunk_outcome(leaf, self.storage.insert_pending_at(&blind_id, payload, now))
    }

    /// Looks at the size of the database now; see `check_disk_at`.
    pub fn check_disk(&mut self, stage: TrimStage, db_size: u64, limits: DiskLimits) -> (r: Result<
        MonitorStep,
        StorageError,
    >)
        ensures
            exists|now: u64|
                is_clock_time(now) && #[trigger] monitor_result(
                    *old(self),
                    stage,
                    db_size,
                    limits,
                    now,
                    r,
                    *final(self),
                ),
    {
        let now: u64 = unix_nanos();
        self.check_disk_at(stage, db_size, limits, now)
    }

    /// Looks at the size of the database at time `now`, as it was just
    /// measured. A look begins at `TrimStage::Start`.
    pub fn check_disk_at(
        &mut self,
        stage: TrimStage,
        db_size: u64,
        limits: DiskLimits,
        now: u64,
    ) -> (r: Result<MonitorStep, StorageError>)
        ensures
            monitor_result(*old(self), stage, db_size, limits, now, r, *final(self)),
    {
        if reaches_share(db_size, limits.capacity, HARD_LIMIT_PCT) {
            self.level = PressureLevel::Exhausted;
            return Ok(MonitorStep::Shutdown);
        }
        let trimmed = self.storage.trim_to_watermark_at(
            stage,
            db_size,
            limits.high_bytes,
            limits.low_bytes,
            now,
        );
        let backpressure: bool = match trimmed {
            Ok(TrimStage::Done { backpressure }) => backpressure,
            Ok(next) => {
                self.level = meanwhile_level(db_size, limits.capacity, self.level);
                return Ok(MonitorStep::Measure(next));
            },
            Err(e) => {
                let backpressure: bool = db_size >= limits.high_bytes;
                self.level = pressure_level(db_size, limits.capacity, backpressure);
                return Err(e);
            },
        };
        let (level, step) = disk_alert(
            self.config.hub_id.as_str(),
            self.level,
            backpressure,
            db_size,
            limits.capacity,
        );
        self.level = level;
        assert(trim_result(
            old(self).storage,
            stage,
            db_size,
            limits.high_bytes,
            limits.low_bytes,
            now,
            Ok(TrimStage::Done { backpressure }),
            self.storage,
        ));
        Ok(step)
    }

    /// The chunks to forward next: the oldest that wait. Forwarding removes none:
    /// each waits until the consumer has acknowledged it, is in every batch until
    /// then, and holds back what comes behind a full batch.
    pub fn next_batch(&self) -> (batch: PendingBatch)
        ensures
            batch_result(self.storage@.pending, BATCH_SIZE as nat, batch),
    {
        if let Ok(true) = self.storage.pending_is_empty() {
            let batch = PendingBatch { entries: Vec::new(), error: None };
            assert(batch@ =~= Seq::<(Seq<u8>, Seq<u8>)>::empty());
            return batch;
        }
        self.storage.pop_pending_batch(BATCH_SIZE)
    }

    /// Takes an acknowledgement of the consumer now; see `note_consumed_at`.
    pub fn note_consumed(&mut self, ack_topic: &str) -> (r: Result<bool, StorageError>)
        ensures
            exists|now: u64|
                is_clock_time(now) && #[trigger] consumer_result(
                    *old(self),
                    ack_topic@,
                    now,
                    r,
                    *final(self),
                ),
    {
        let now: u64 = unix_nanos();
        self.note_consumed_at(ack_topic, now)
    }

    /// Takes an acknowledgement of the consumer at time `now`: the chunk with the
    /// blind identifier that the topic ends in is consumed. Says whether it
    /// waited.
    pub fn note_consumed_at(&mut self, ack_topic: &str, now: u64) -> (r: Result<
        bool,
        StorageError,
    >)
        ensures
            consumer_result(*old(self), ack_topic@, now, r, *final(self)),
    {
        match parse_blind_id(topic_leaf(ack_topic)) {
            Some(blind_id) => self.storage.confirm_blind_id_at(&blind_id, now),
            None => Ok(false),
        }
    }
}

/// What an acknowledgement of the consumer comes to: the first waiting key of the
/// blind identifier that its topic ends in is consumed. One that names none, or
/// one that does not wait, changes nothing.
pub open spec fn consumer_result(
    hub: Hub,
    ack_topic: Seq<char>,
    now: u64,
    r: Result<bool, StorageError>,
    after: Hub,
) -> bool {
    match spelled_blind_id(last_segment(ack_topic)) {
        None => r == Ok::<bool, StorageError>(false) && after == hub,
        Some(blind_id) => {
            &&& after.config == hub.config
            &&& after.level == hub.level
            &&& after.storage.same_database(&hub.storage)
            &&& settle_result(hub.storage@, blind_id, now, r, after.storage@)
        },
    }
}

/// Below the hard limit the share of the disk is a number below a hundred.
proof fn lemma_share_below(db_size: int, capacity: int)
    requires
        db_size >= 0,
        capacity >= 0,
        db_size * 100 < capacity * 95,
    ensures
        capacity > 0,
        0 <= db_size * 100 / capacity < 95,
{
    assert(0 <= db_size * 100 / capacity < 95) by (nonlinear_arith)
        requires
            db_size >= 0,
            capacity > 0,
            db_size * 100 < capacity * 95,
    ;
}

/// What is confirmed is held: where the hub confirms a chunk, its blind
/// identifier waits or was consumed before. Where it waits it is on disk, with
/// the payload that it waits with, however often it was sent, and a chunk that
/// the hub had not seen with its payload as it came.
pub proof fn law_confirmed_chunk_is_held(
    hub: Hub,
    topic: Seq<char>,
    payload: Seq<u8>,
    now: u64,
    is_new: bool,
    key: Vec<u8>,
    ack_topic: String,
    after: Hub,
)
    requires
        chunk_result(
            hub,
            topic,
            payload,
            now,
            ChunkOutcome::Stored { is_new, key, ack_topic },
            after,
        ),
    ensures
        spelled_blind_id(last_segment(topic)) matches Some(blind_id) && {
            &&& after.storage@.knows(blind_id)
            &&& is_new <==> !hub.storage@.knows(blind_id)
            &&& after.storage@.has_pending(blind_id) ==> {
                &&& names_blind_id(key@, blind_id)
                &&& after.storage.durable().pending.contains_key(key@)
                &&& after.storage.durable().pending[key@] == after.storage@.pending[key@]
            }
            &&& is_new ==> after.storage@.has_pending(blind_id) && after.storage@.pending[key@]
                == payload
        },
        last_segment(ack_topic@) == last_segment(topic),
{
    let blind_id: Seq<u8> = spelled_blind_id(last_segment(topic))->0;
    law_insert_success_is_stored(hub.storage, blind_id, payload, now, is_new, key, after.storage);
    law_ack_names_the_chunk(topic);
}

/// What is stored is handed over: a new chunk is in the next batch with its
/// payload as it came, unless a read failed or the batch is full of chunks that
/// come before it.
pub proof fn law_stored_chunk_is_handed_over(
    hub: Hub,
    topic: Seq<char>,
    payload: Seq<u8>,
    now: u64,
    key: Vec<u8>,
    ack_topic: String,
    after: Hub,
    batch: PendingBatch,
)
    requires
        chunk_result(
            hub,
            topic,
            payload,
            now,
            ChunkOutcome::Stored { is_new: true, key, ack_topic },
            after,
        ),
        batch_result(after.storage@.pending, BATCH_SIZE as nat, batch),
    ensures
        ({
            ||| batch@.contains((key@, payload))
            ||| batch.error is Some
            ||| batch@.len() == BATCH_SIZE && forall|i: int|
                0 <= i < batch@.len() ==> before((#[trigger] batch@[i]).0, key@)
        }),
{
    assert(after.storage@.pending.contains_key(key@));
    if in_batch(batch@, key@) {
        let i: int = choose|i: int| 0 <= i < batch@.len() && (#[trigger] batch@[i]).0 == key@;
        assert(batch@[i] == (key@, payload));
    }
}

/// Every chunk of a batch can be confirmed: its key is long enough.
pub proof fn law_batch_can_be_confirmed(hub: Hub, batch: PendingBatch, i: int)
    requires
        hub.storage@.well_formed(),
        batch_result(hub.storage@.pending, BATCH_SIZE as nat, batch),
        0 <= i < batch@.len(),
    ensures
        batch@[i].0.len() >= BLIND_ID_LEN,
{
    assert(hub.storage@.pending.contains_key(batch@[i].0));
}

/// Whatever becomes of a chunk that arrives, a well formed store stays well
/// formed.
pub proof fn law_receiving_keeps_well_formed(
    hub: Hub,
    topic: Seq<char>,
    payload: Seq<u8>,
    now: u64,
    r: ChunkOutcome,
    after: Hub,
)
    requires
        hub.storage@.well_formed(),
        chunk_result(hub, topic, payload, now, r, after),
    ensures
        after.storage@.well_formed(),
{
    if let Some(blind_id) = spelled_blind_id(last_segment(topic)) {
        match r {
            ChunkOutcome::Stored { is_new, key, ack_topic } => {
                law_insert_keeps_well_formed(
                    hub.storage,
                    blind_id,
                    payload,
                    now,
                    Ok((is_new, key)),
                    after.storage,
                );
            },
            ChunkOutcome::Failed(e) => {
                law_insert_keeps_well_formed(
                    hub.storage,
                    blind_id,
                    payload,
                    now,
                    Err(e),
                    after.storage,
                );
            },
            _ => {},
        }
    }
}

/// Whatever comes of an acknowledgement, a well formed store stays well formed.
pub proof fn law_acknowledging_keeps_well_formed(
    hub: Hub,
    ack_topic: Seq<char>,
    now: u64,
    r: Result<bool, StorageError>,
    after: Hub,
)
    requires
        hub.storage@.well_formed(),
        consumer_result(hub, ack_topic, now, r, after),
    ensures
        after.storage@.well_formed(),
{
    let s: StorageView = hub.storage@;
    let t: StorageView = after.storage@;
    if t != s {
        let outcome: Result<(), StorageError> = match r {
            Ok(_) => Ok(()),
            Err(e) => Err(e),
        };
        let key: Seq<u8> = choose|key: Seq<u8>| #[trigger] consume_result(s, key, now, outcome, t);
        law_confirm_keeps_well_formed(s, key, now, outcome, t);
    }
}

/// Whatever comes of a look at the size of the database, a well formed store
/// stays well formed.
pub proof fn law_disk_check_keeps_well_formed(
    hub: Hub,
    stage: TrimStage,
    db_size: u64,
    limits: DiskLimits,
    now: u64,
    r: Result<MonitorStep, StorageError>,
    after: Hub,
)
    requires
        hub.storage@.well_formed(),
        monitor_result(hub, stage, db_size, limits, now, r, after),
    ensures
        after.storage@.well_formed(),
{
    if after.storage != hub.storage {
        let t: Result<TrimStage, StorageError> = choose|t: Result<TrimStage, StorageError>|
            #[trigger]
            trim_result(
                hub.storage,
                stage,
                db_size,
                limits.high_bytes,
                limits.low_bytes,
                now,
                t,
                after.storage,
            );
        law_trim_keeps_well_formed(
            hub.storage,
            stage,
            db_size,
            limits.high_bytes,
            limits.low_bytes,
            now,
            t,
            after.storage,
        );
    }
}

/// A chunk that arrives leaves those that wait as they are, whatever becomes of
/// it.
pub proof fn law_receiving_keeps_what_waits(
    hub: Hub,
    topic: Seq<char>,
    payload: Seq<u8>,
    now: u64,
    r: ChunkOutcome,
    after: Hub,
)
    requires
        chunk_result(hub, topic, payload, now, r, after),
    ensures
        hub.storage@.pending.submap_of(after.storage@.pending),
        after.storage@.acknowledged == hub.storage@.acknowledged,
{
    if let Some(blind_id) = spelled_blind_id(last_segment(topic)) {
        match r {
            ChunkOutcome::Stored { is_new, key, ack_topic } => {
                law_insert_keeps_what_waits(
                    hub.storage,
                    blind_id,
                    payload,
                    now,
                    Ok((is_new, key)),
                    after.storage,
                );
            },
            ChunkOutcome::Failed(e) => {
                law_insert_keeps_what_waits(
                    hub.storage,
                    blind_id,
                    payload,
                    now,
                    Err(e),
                    after.storage,
                );
            },
            _ => {},
        }
    }
}

/// A chunk waits until the consumer has acknowledged it: an acknowledgement of
/// another one leaves it as it is, whatever comes of that.
pub proof fn law_chunk_waits_until_acknowledged(
    hub: Hub,
    ack_topic: Seq<char>,
    now: u64,
    r: Result<bool, StorageError>,
    after: Hub,
    key: Seq<u8>,
)
    requires
        consumer_result(hub, ack_topic, now, r, after),
        hub.storage@.pending.contains_key(key),
        spelled_blind_id(last_segment(ack_topic)) matches Some(blind_id) ==> !names_blind_id(
            key,
            blind_id,
        ),
    ensures
        after.storage@.pending.contains_key(key),
        after.storage@.pending[key] == hub.storage@.pending[key],
{
    let s: StorageView = hub.storage@;
    let t: StorageView = after.storage@;
    if t != s {
        let blind_id: Seq<u8> = spelled_blind_id(last_segment(ack_topic))->0;
        let outcome: Result<(), StorageError> = match r {
            Ok(_) => Ok(()),
            Err(e) => Err(e),
        };
        let named: Seq<u8> = choose|named: Seq<u8>|
            s.first_pending(blind_id, named) && #[trigger] consume_result(
                s,
                named,
                now,
                outcome,
                t,
            );
        law_consume_keeps_the_others(s, named, now, outcome, t);
        assert(s.pending.remove(named).contains_key(key));
        assert(t.pending.remove(named)[key] == s.pending.remove(named)[key]);
    }
}

/// An acknowledgement of a chunk that waits consumes it, where all goes well:
/// it waits no longer, and its blind identifier is acknowledged.
pub proof fn law_acknowledged_chunk_is_consumed(
    hub: Hub,
    ack_topic: Seq<char>,
    now: u64,
    r: Result<bool, StorageError>,
    after: Hub,
    key: Seq<u8>,
)
    requires
        hub.storage@.well_formed(),
        consumer_result(hub, ack_topic, now, r, after),
        r is Ok,
        hub.storage@.pending.contains_key(key),
        spelled_blind_id(last_segment(ack_topic)) matches Some(blind_id) && names_blind_id(
            key,
            blind_id,
        ),
    ensures
        r == Ok::<bool, StorageError>(true),
        hub.storage@.consumed(key, now, after.storage@),
        !after.storage@.pending.contains_key(key),
{
    let s: StorageView = hub.storage@;
    let blind_id: Seq<u8> = spelled_blind_id(last_segment(ack_topic))->0;
    assert(s.has_pending(blind_id));
    let first: Seq<u8> = choose|first: Seq<u8>|
        s.first_pending(blind_id, first) && #[trigger] consume_result(
            s,
            first,
            now,
            Ok(()),
            after.storage@,
        );
    assert(s.pending.contains_key(first) && s.pending.contains_key(key));
    assert(first == key);
}

/// The limits depend on the usage alone, whatever comes of a cleanup: chunks are
/// refused from the soft limit on and taken below it, and the hub stops from the
/// hard limit on and not before.
pub proof fn law_limits_follow_the_usage(
    hub: Hub,
    stage: TrimStage,
    db_size: u64,
    limits: DiskLimits,
    now: u64,
    r: Result<MonitorStep, StorageError>,
    after: Hub,
)
    requires
        monitor_result(hub, stage, db_size, limits, now, r, after),
    ensures
        after.refuses_chunks() <==> takes_share(db_size, limits.capacity, SOFT_LIMIT_PCT),
        r == Ok::<MonitorStep, StorageError>(MonitorStep::Shutdown) <==> takes_share(
            db_size,
            limits.capacity,
            HARD_LIMIT_PCT,
        ),
        after.level == PressureLevel::Exhausted <==> takes_share(
            db_size,
            limits.capacity,
            HARD_LIMIT_PCT,
        ),
{
    if takes_share(db_size, limits.capacity, HARD_LIMIT_PCT) {
        assert(takes_share(db_size, limits.capacity, SOFT_LIMIT_PCT)) by (nonlinear_arith)
            requires
                db_size * 100 >= limits.capacity * 95,
                limits.capacity >= 0,
        ;
    }
}

/// No want of disk drops a chunk that has waited for seven days or less.
pub proof fn law_disk_check_drops_no_young_chunk(
    hub: Hub,
    stage: TrimStage,
    db_size: u64,
    limits: DiskLimits,
    now: u64,
    r: Result<MonitorStep, StorageError>,
    after: Hub,
    key: Seq<u8>,
)
    requires
        monitor_result(hub, stage, db_size, limits, now, r, after),
        hub.storage@.pending.contains_key(key),
        !is_expired(key, now),
    ensures
        after.storage@.pending.contains_key(key),
        after.storage@.pending[key] == hub.storage@.pending[key],
{
    let s: StorageView = hub.storage@;
    if after.storage != hub.storage {
        let t: Result<TrimStage, StorageError> = choose|t: Result<TrimStage, StorageError>|
            #[trigger]
            trim_result(
                hub.storage,
                stage,
                db_size,
                limits.high_bytes,
                limits.low_bytes,
                now,
                t,
                after.storage,
            );
        law_trim_drops_no_young_chunk(
            hub.storage,
            stage,
            db_size,
            limits.high_bytes,
            limits.low_bytes,
            now,
            t,
            after.storage,
        );
        assert(s.expire(now).pending.contains_key(key));
    }
}

/// Below the high mark and the soft limit the hub lets things be: it touches no
/// entry and takes chunks. It publishes nothing, unless it has to tell producers
/// that all is well again.
pub proof fn law_low_disk_use_changes_nothing(
    hub: Hub,
    db_size: u64,
    limits: DiskLimits,
    now: u64,
    r: Result<MonitorStep, StorageError>,
    after: Hub,
)
    requires
        monitor_result(hub, TrimStage::Start, db_size, limits, now, r, after),
        db_size < limits.high_bytes,
        !takes_share(db_size, limits.capacity, SOFT_LIMIT_PCT),
    ensures
        after.storage == hub.storage,
        after.level == PressureLevel::Normal,
        if hub.level == PressureLevel::Normal {
            r == Ok::<MonitorStep, StorageError>(MonitorStep::Rest)
        } else {
            r matches Ok(MonitorStep::Broadcast { topic, frame }) && frame.level
                == PressureLevel::Normal
        },
{
    assert(!takes_share(db_size, limits.capacity, HARD_LIMIT_PCT)) by (nonlinear_arith)
        requires
            !(db_size * 100 >= limits.capacity * 90),
            limits.capacity >= 0,
    {
        assert(limits.capacity * 90 <= limits.capacity * 95);
    }
}

/// A larger database is never at a lower level.
pub proof fn law_level_grows_with_size(
    db_size: u64,
    larger: u64,
    disk_capacity: u64,
    backpressure: bool,
)
    requires
        db_size <= larger,
    ensures
        level_rank(level_at(db_size, disk_capacity, backpressure)) <= level_rank(
            level_at(larger, disk_capacity, backpressure),
        ),
{
}

/// Levels in their order.
pub open spec fn level_rank(level: PressureLevel) -> nat {
    match level {
        PressureLevel::Normal => 0,
        PressureLevel::Warning => 1,
        PressureLevel::Critical => 2,
        PressureLevel::Exhausted => 3,
    }
}

// ---------------------------------------------------------------------------
// What the hub does about chunks
// ---------------------------------------------------------------------------
/// A chunk whose topic ends in thirty-two hexadecimal digits, behind a slash, is
/// taken for one: it is never ignored. It is refused only where the hub is short
/// of disk and holds no chunk of that name. A topic that ends in anything else is
/// ignored.
pub proof fn law_chunk_is_known_by_its_digits(
    hub: Hub,
    prefix: Seq<char>,
    leaf: Seq<char>,
    payload: Seq<u8>,
    now: u64,
    r: ChunkOutcome,
    after: Hub,
)
    requires
        !leaf.contains('/'),
        chunk_result(hub, prefix + seq!['/'] + leaf, payload, now, r, after),
    ensures
        r == ChunkOutcome::Ignored <==> !(leaf.len() == 32 && forall|i: int|
            0 <= i < 32 ==> is_digit_char(#[trigger] leaf[i])),
        r == ChunkOutcome::Refused ==> hub.level == PressureLevel::Critical || hub.level
            == PressureLevel::Exhausted,
        r is Stored || r is Failed || after == hub,
{
    law_last_segment_of_joined(prefix, leaf);
    assert(prefix + seq!['/'] + leaf =~= joined(prefix, leaf));
    law_thirty_two_digits_spell_an_identifier(leaf);
}

/// Every blind identifier can arrive: a chunk whose topic ends in its digits is
/// stored under it, or fails. Where the store holds nothing of that name it is
/// new, waits under the time of its arrival and its identifier with its payload as
/// it came, and nothing else changes; where the store does, nothing changes.
pub proof fn law_every_chunk_can_be_stored(
    hub: Hub,
    prefix: Seq<char>,
    id: Seq<u8>,
    payload: Seq<u8>,
    now: u64,
    r: ChunkOutcome,
    after: Hub,
)
    requires
        id.len() == 16,
        chunk_result(hub, prefix + seq!['/'] + digits_of(id), payload, now, r, after),
        hub.level == PressureLevel::Normal || hub.level == PressureLevel::Warning,
    ensures
        r is Stored || r is Failed,
        r matches ChunkOutcome::Stored { is_new, key, ack_topic } ==> {
            let s = hub.storage@;
            let t = after.storage@;
            &&& ack_topic@ == "slim/sync/ack/"@ + digits_of(id)
            &&& is_new <==> !s.acknowledged.contains_key(id) && !exists|k: Seq<u8>| #[trigger]
                s.pending.contains_key(k) && k.len() >= 16 && k.skip(k.len() - 16) == id
            &&& is_new ==> {
                &&& key@.len() == 24
                &&& timestamp_of(key@) == now
                &&& key@.skip(8) == id
                &&& t.pending == s.pending.insert(key@, payload)
                &&& t.acknowledged == s.acknowledged
            }
            &&& !is_new ==> t == s
        },
{
    let leaf: Seq<char> = digits_of(id);
    law_every_identifier_is_spelled(id);
    law_thirty_two_digits_spell_an_identifier(leaf);
    assert forall|i: int| 0 <= i < leaf.len() implies leaf[i] != '/' by {
        assert(is_digit_char(leaf[i]));
    }
    law_last_segment_of_joined(prefix, leaf);
    assert(prefix + seq!['/'] + leaf =~= joined(prefix, leaf));
    if let ChunkOutcome::Stored { is_new, key, ack_topic } = r {
        law_offer_adds_what_is_unknown(
            hub.storage@,
            id,
            payload,
            now,
            is_new,
            key@,
            after.storage@,
        );
        reveal_strlit("slim/sync/ack/");
        reveal_strlit("slim/sync/ack");
        assert("slim/sync/ack/"@ =~= "slim/sync/ack"@ + seq!['/']);
        assert(joined(ACK_PREFIX@, leaf) =~= "slim/sync/ack/"@ + leaf);
    }
}

/// A hub that is short of disk adds nothing to its store. It refuses a chunk only
/// where it holds nothing of that name, and confirms one only where it does.
pub proof fn law_short_hub_confirms_what_it_holds(
    hub: Hub,
    prefix: Seq<char>,
    id: Seq<u8>,
    payload: Seq<u8>,
    now: u64,
    r: ChunkOutcome,
    after: Hub,
)
    requires
        id.len() == 16,
        chunk_result(hub, prefix + seq!['/'] + digits_of(id), payload, now, r, after),
        hub.level == PressureLevel::Critical || hub.level == PressureLevel::Exhausted,
    ensures
        after.storage@ == hub.storage@,
        after.level == hub.level,
        r is Refused || r is Stored || r is Failed,
        ({
            let held = hub.storage@.acknowledged.contains_key(id) || exists|k: Seq<u8>| #[trigger]
                hub.storage@.pending.contains_key(k) && k.len() >= 16 && k.skip(k.len() - 16) == id;
            &&& r is Refused ==> !held
            &&& r is Stored ==> held
        }),
{
    let leaf: Seq<char> = digits_of(id);
    law_every_identifier_is_spelled(id);
    law_thirty_two_digits_spell_an_identifier(leaf);
    assert forall|i: int| 0 <= i < leaf.len() implies leaf[i] != '/' by {
        assert(is_digit_char(leaf[i]));
    }
    law_last_segment_of_joined(prefix, leaf);
    assert(prefix + seq!['/'] + leaf =~= joined(prefix, leaf));
    law_known_is_held(hub.storage@, id);
    if let ChunkOutcome::Stored { is_new, key, ack_topic } = r {
        law_offer_adds_what_is_unknown(
            hub.storage@,
            id,
            payload,
            now,
            is_new,
            key@,
            after.storage@,
        );
    }
}

/// The key of a new chunk begins with a time that the clock showed when the chunk
/// arrived.
pub proof fn law_new_key_holds_the_clock(
    hub: Hub,
    topic: Seq<char>,
    payload: Seq<u8>,
    key: Vec<u8>,
    ack_topic: String,
    after: Hub,
)
    requires
        exists|now: u64|
            is_clock_time(now) && #[trigger] chunk_result(
                hub,
                topic,
                payload,
                now,
                ChunkOutcome::Stored { is_new: true, key, ack_topic },
                after,
            ),
    ensures
        key@.len() == 24,
        0 <= timestamp_of(key@) <= u64::MAX,
        is_clock_time(timestamp_of(key@) as u64),
        ({
            ||| clock_showed(Some(timestamp_of(key@) as u128))
            ||| timestamp_of(key@) == 0 && clock_showed(None)
            ||| timestamp_of(key@) == u64::MAX && exists|n: u128| #[trigger]
                clock_showed(Some(n)) && n > u64::MAX
        }),
{
    let now: u64 = choose|now: u64|
        is_clock_time(now) && #[trigger] chunk_result(
            hub,
            topic,
            payload,
            now,
            ChunkOutcome::Stored { is_new: true, key, ack_topic },
            after,
        );
    let id: Seq<u8> = spelled_blind_id(last_segment(topic))->0;
    law_thirty_two_digits_spell_an_identifier(last_segment(topic));
    law_offer_adds_what_is_unknown(hub.storage@, id, payload, now, true, key@, after.storage@);
    law_clock_time_was_shown(now);
}

/// Of two new chunks that arrived at different times, the earlier one comes first
/// in every batch that has both, whatever their blind identifiers.
pub proof fn law_earlier_arrival_is_forwarded_first(
    first_hub: Hub,
    first_topic: Seq<char>,
    first_payload: Seq<u8>,
    first_now: u64,
    first_key: Vec<u8>,
    first_ack: String,
    first_after: Hub,
    second_hub: Hub,
    second_topic: Seq<char>,
    second_payload: Seq<u8>,
    second_now: u64,
    second_key: Vec<u8>,
    second_ack: String,
    second_after: Hub,
    pending: Map<Seq<u8>, Seq<u8>>,
    n: nat,
    batch: PendingBatch,
    i: int,
    j: int,
)
    requires
        chunk_result(
            first_hub,
            first_topic,
            first_payload,
            first_now,
            ChunkOutcome::Stored { is_new: true, key: first_key, ack_topic: first_ack },
            first_after,
        ),
        chunk_result(
            second_hub,
            second_topic,
            second_payload,
            second_now,
            ChunkOutcome::Stored { is_new: true, key: second_key, ack_topic: second_ack },
            second_after,
        ),
        first_now < second_now,
        batch_result(pending, n, batch),
        0 <= i < batch@.len(),
        0 <= j < batch@.len(),
        batch@[i].0 == first_key@,
        batch@[j].0 == second_key@,
    ensures
        i < j,
{
    let a: Seq<u8> = first_key@;
    let b: Seq<u8> = second_key@;
    let first_id: Seq<u8> = spelled_blind_id(last_segment(first_topic))->0;
    let second_id: Seq<u8> = spelled_blind_id(last_segment(second_topic))->0;
    law_thirty_two_digits_spell_an_identifier(last_segment(first_topic));
    law_thirty_two_digits_spell_an_identifier(last_segment(second_topic));
    law_offer_adds_what_is_unknown(
        first_hub.storage@,
        first_id,
        first_payload,
        first_now,
        true,
        a,
        first_after.storage@,
    );
    law_offer_adds_what_is_unknown(
        second_hub.storage@,
        second_id,
        second_payload,
        second_now,
        true,
        b,
        second_after.storage@,
    );
    if j < i {
        assert(before(batch@[j].0, batch@[i].0));
        law_key_order_is_arrival_order(b, a);
    }
}

// ---------------------------------------------------------------------------
// What the hub does about the disk
// ---------------------------------------------------------------------------
/// A look at the disk drops a chunk only where a time that the clock showed at
/// that look is more than seven days after the time that the chunk's key begins
/// with.
pub proof fn law_chunk_is_dropped_by_the_clock(
    hub: Hub,
    stage: TrimStage,
    db_size: u64,
    limits: DiskLimits,
    r: Result<MonitorStep, StorageError>,
    after: Hub,
    key: Seq<u8>,
)
    requires
        exists|now: u64|
            is_clock_time(now) && #[trigger] monitor_result(
                hub,
                stage,
                db_size,
                limits,
                now,
                r,
                after,
            ),
        hub.storage@.pending.contains_key(key),
        !after.storage@.pending.contains_key(key),
    ensures
        key.len() >= 8,
        exists|now: u64| #[trigger]
            is_clock_time(now) && now > timestamp_of(key) + 7 * 24 * 3600 * 1_000_000_000,
{
    let now: u64 = choose|now: u64|
        is_clock_time(now) && #[trigger] monitor_result(
            hub,
            stage,
            db_size,
            limits,
            now,
            r,
            after,
        );
    law_expiry_takes_the_old(hub.storage@, now, key);
    if !is_expired(key, now) {
        law_disk_check_drops_no_young_chunk(
            hub,
            stage,
            db_size,
            limits,
            now,
            r,
            after,
            key,
        );
    }
}

/// Levels go by the share of the disk: ninety-five per cent and more is the end,
/// ninety and more is critical, and below that a cleanup that called for
/// backpressure is a warning, on a disk of any size.
pub proof fn law_levels_go_by_the_share(
    db_size: u64,
    capacity: u64,
    backpressure: bool,
    last: PressureLevel,
    high_bytes: u64,
    low_bytes: u64,
)
    ensures
        level_at(db_size, capacity, backpressure) == PressureLevel::Exhausted <==> db_size * 100
            >= capacity * 95,
        level_at(db_size, capacity, backpressure) == PressureLevel::Critical <==> capacity * 90
            <= db_size * 100 && db_size * 100 < capacity * 95,
        level_at(db_size, capacity, backpressure) == PressureLevel::Warning <==> db_size * 100
            < capacity * 90 && backpressure,
        level_at(db_size, capacity, backpressure) == PressureLevel::Normal <==> db_size * 100
            < capacity * 90 && !backpressure,
        level_meanwhile(db_size, capacity, last) == PressureLevel::Critical <==> db_size * 100
            >= capacity * 90,
        level_meanwhile(db_size, capacity, last) == PressureLevel::Normal <==> db_size * 100
            < capacity * 90 && last == PressureLevel::Normal,
        level_meanwhile(db_size, capacity, last) != PressureLevel::Exhausted,
        level_by_usage(db_size, DiskLimits { capacity, high_bytes, low_bytes }) == level_at(
            db_size,
            capacity,
            db_size >= high_bytes,
        ),
{
    assert(capacity * 90 <= capacity * 95) by (nonlinear_arith)
        requires
            capacity >= 0,
    ;
}

/// Producers are told of a level, on the topic of the hub, with its name, the
/// whole per cent of the disk that is taken, and how long to wait. They are told of
/// the normal level only where it was another one before.
pub proof fn law_producers_are_told(
    step: MonitorStep,
    last: PressureLevel,
    level: PressureLevel,
    hub_id: Seq<char>,
    db_size: u64,
    capacity: u64,
)
    requires
        alerts(step, last, level, hub_id, db_size, capacity),
    ensures
        level == PressureLevel::Exhausted <==> step == MonitorStep::Shutdown,
        level == PressureLevel::Normal && last == PressureLevel::Normal <==> step
            == MonitorStep::Rest,
        !(step is Measure),
        step matches MonitorStep::Broadcast { topic, frame } ==> {
            &&& topic@ == "slim/hub/backpressure/"@ + hub_id
            &&& frame.hub_id@ == hub_id
            &&& frame.level == level
            &&& db_size * 100 < capacity * 95 ==> {
                &&& frame.disk_usage_pct * capacity <= db_size * 100
                &&& db_size * 100 < (frame.disk_usage_pct + 1) * capacity
            }
            &&& level == PressureLevel::Normal ==> frame.suggested_interval_ms == 0
            &&& level == PressureLevel::Warning ==> frame.suggested_interval_ms == 1000
            &&& level == PressureLevel::Critical ==> frame.suggested_interval_ms == 5000
        },
{
    if let MonitorStep::Broadcast { topic, frame } = step {
        reveal_strlit("slim/hub/backpressure/");
        reveal_strlit("slim/hub/backpressure");
        assert("slim/hub/backpressure/"@ =~= "slim/hub/backpressure"@ + seq!['/']);
        assert(joined(BACKPRESSURE_PREFIX@, hub_id) =~= "slim/hub/backpressure/"@ + hub_id);
        if db_size * 100 < capacity * 95 {
            lemma_share_below(db_size as int, capacity as int);
            let used: int = db_size * 100;
            let all: int = capacity as int;
            let pct: int = frame.disk_usage_pct as int;
            assert(pct * all <= used && used < (pct + 1) * all) by (nonlinear_arith)
                requires
                    all > 0,
                    used >= 0,
                    pct == used / all,
            ;
        }
    }
}

/// What a look at the disk comes to, by the size of the database and the marks
/// alone. From ninety-five per cent on the hub stops, at any stage, and touches
/// nothing. Below that a cleanup that is over is told to producers: as critical
/// from ninety per cent on, as a warning where it called for backpressure, and as
/// normal else, if it was another level before. It is over at once below the high
/// mark, after its first tier at or below the low mark, and after its second tier
/// in any case; and it called for backpressure just where after both tiers the
/// size is at or above the high mark, and above the low one.
pub proof fn law_look_goes_by_the_size(
    hub: Hub,
    stage: TrimStage,
    db_size: u64,
    limits: DiskLimits,
    now: u64,
    r: Result<MonitorStep, StorageError>,
    after: Hub,
)
    requires
        monitor_result(hub, stage, db_size, limits, now, r, after),
        !(stage is Done),
    ensures
        after.config == hub.config,
        db_size * 100 >= limits.capacity * 95 ==> {
            &&& r == Ok::<MonitorStep, StorageError>(MonitorStep::Shutdown)
            &&& after.level == PressureLevel::Exhausted
            &&& after.storage == hub.storage
        },
        db_size * 100 < limits.capacity * 95 ==> {
            let over = match stage {
                TrimStage::Start => db_size < limits.high_bytes,
                TrimStage::AcknowledgedCleared => db_size <= limits.low_bytes,
                _ => true,
            };
            let backpressure = stage is ExpiredRemoved && db_size >= limits.high_bytes && db_size
                > limits.low_bytes;
            &&& over ==> {
                &&& after.storage == hub.storage
                &&& db_size * 100 >= limits.capacity * 90 ==> after.level == PressureLevel::Critical
                &&& db_size * 100 < limits.capacity * 90 ==> after.level == if backpressure {
                    PressureLevel::Warning
                } else {
                    PressureLevel::Normal
                }
                &&& if after.level == PressureLevel::Normal && hub.level == PressureLevel::Normal {
                    r == Ok::<MonitorStep, StorageError>(MonitorStep::Rest)
                } else {
                    &&& r matches Ok(MonitorStep::Broadcast { topic, frame })
                    &&& topic@ == "slim/hub/backpressure/"@ + hub.config.hub_id@
                    &&& frame.hub_id@ == hub.config.hub_id@
                    &&& frame.level == after.level
                    &&& frame.disk_usage_pct * limits.capacity <= db_size * 100
                    &&& db_size * 100 < (frame.disk_usage_pct + 1) * limits.capacity
                }
            }
            &&& !over ==> {
                &&& r matches Ok(step) ==> step is Measure
                &&& r matches Ok(MonitorStep::Measure(next)) ==> {
                    &&& stage == TrimStage::Start ==> next == TrimStage::AcknowledgedCleared
                    &&& stage == TrimStage::AcknowledgedCleared ==> next is ExpiredRemoved
                }
                &&& db_size * 100 >= limits.capacity * 90 ==> after.level == PressureLevel::Critical
                &&& db_size * 100 < limits.capacity * 90 ==> after.level != PressureLevel::Critical
                    && after.level != PressureLevel::Exhausted
                &&& r is Err && db_size * 100 < limits.capacity * 90 ==> after.level == if db_size
                    >= limits.high_bytes {
                    PressureLevel::Warning
                } else {
                    PressureLevel::Normal
                }
            }
        },
{
    if db_size * 100 < limits.capacity * 95 {
        match r {
            Ok(MonitorStep::Measure(next)) => {
                law_cleanup_goes_by_the_marks(
                    hub.storage,
                    stage,
                    db_size,
                    limits.high_bytes,
                    limits.low_bytes,
                    now,
                    Ok(next),
                    after.storage,
                    Seq::empty(),
                );
                law_levels_go_by_the_share(
                    db_size,
                    limits.capacity,
                    false,
                    hub.level,
                    limits.high_bytes,
                    limits.low_bytes,
                );
            },
            Ok(step) => {
                let backpressure: bool = choose|backpressure: bool|
                    {
                        &&& #[trigger] trim_result(
                            hub.storage,
                            stage,
                            db_size,
                            limits.high_bytes,
                            limits.low_bytes,
                            now,
                            Ok(TrimStage::Done { backpressure }),
                            after.storage,
                        )
                        &&& after.level == level_at(db_size, limits.capacity, backpressure)
                        &&& alerts(
                            step,
                            hub.level,
                            after.level,
                            hub.config.hub_id@,
                            db_size,
                            limits.capacity,
                        )
                    };
                law_cleanup_goes_by_the_marks(
                    hub.storage,
                    stage,
                    db_size,
                    limits.high_bytes,
                    limits.low_bytes,
                    now,
                    Ok(TrimStage::Done { backpressure }),
                    after.storage,
                    Seq::empty(),
                );
                law_levels_go_by_the_share(
                    db_size,
                    limits.capacity,
                    backpressure,
                    hub.level,
                    limits.high_bytes,
                    limits.low_bytes,
                );
                law_producers_are_told(
                    step,
                    hub.level,
                    after.level,
                    hub.config.hub_id@,
                    db_size,
                    limits.capacity,
                );
            },
            Err(e) => {
                law_cleanup_goes_by_the_marks(
                    hub.storage,
                    stage,
                    db_size,
                    limits.high_bytes,
                    limits.low_bytes,
                    now,
                    Err(e),
                    after.storage,
                    Seq::empty(),
                );
                law_levels_go_by_the_share(
                    db_size,
                    limits.capacity,
                    db_size >= limits.high_bytes,
                    hub.level,
                    limits.high_bytes,
                    limits.low_bytes,
                );
            },
        }
    }
}

/// A cleanup that did not get the database below the high mark is told to
/// producers, on a disk of any size: as critical from ninety per cent on, and as a
/// warning below.
pub proof fn law_backpressure_is_told(
    hub: Hub,
    removed: usize,
    db_size: u64,
    limits: DiskLimits,
    now: u64,
    r: Result<MonitorStep, StorageError>,
    after: Hub,
)
    requires
        monitor_result(
            hub,
            TrimStage::ExpiredRemoved { removed },
            db_size,
            limits,
            now,
            r,
            after,
        ),
        db_size >= limits.high_bytes,
        db_size > limits.low_bytes,
        db_size * 100 < limits.capacity * 95,
    ensures
        r matches Ok(MonitorStep::Broadcast { topic, frame }) && {
            &&& topic@ == "slim/hub/backpressure/"@ + hub.config.hub_id@
            &&& frame.hub_id@ == hub.config.hub_id@
            &&& frame.level == if db_size * 100 >= limits.capacity * 90 {
                PressureLevel::Critical
            } else {
                PressureLevel::Warning
            }
            &&& after.level == frame.level
        },
{
    law_look_goes_by_the_size(
        hub,
        TrimStage::ExpiredRemoved { removed },
        db_size,
        limits,
        now,
        r,
        after,
    );
}

// ---------------------------------------------------------------------------
// What the hub does about its settings
// ---------------------------------------------------------------------------
/// A reload that went well leaves the hub with the name that stands in the text,
/// on the store that stands there, or that the arguments put in its place, and at
/// the level that it had; a store in the same place is kept as it is. A reload
/// that failed changes nothing.
pub proof fn law_reload_follows_the_text(
    hub: Hub,
    cli: Cli,
    text: Seq<char>,
    r: Result<(), ReloadError>,
    after: Hub,
)
    requires
        reload_result(hub, cli, text, r, after),
    ensures
        r is Err ==> after == hub,
        r is Ok ==> (parsed_fields(text) matches Some(fields) && {
            &&& after.level == hub.level
            &&& fields[("general"@, "hub_id"@)] matches FieldView::Text(t) ==> after.config.hub_id@
                == t
            &&& cli.db_path matches Some(db_path) ==> after.config.db_path@ == db_path@
            &&& cli.db_path is None ==> (fields[("storage"@, "db_path"@)] matches FieldView::Text(
                t,
            ) ==> after.config.db_path@ == t)
            &&& fields[("storage"@, "disk_capacity_gb"@)] matches FieldView::Integer(n) ==> n >= 0
                ==> after.config.disk_capacity_gb == n
            &&& fields[("storage"@, "high_watermark_pct"@)] matches FieldView::Integer(n) ==> 0
                <= n < 256 ==> after.config.high_watermark_pct == n
            &&& fields[("storage"@, "low_watermark_pct"@)] matches FieldView::Integer(n) ==> 0 <= n
                < 256 ==> after.config.low_watermark_pct == n
            &&& after.config.db_path@ == hub.storage.path() ==> after.storage == hub.storage
        }),
{
    if r is Ok {
        let fields: Map<(Seq<char>, Seq<char>), FieldView> = parsed_fields(text)->0;
        let says: spec_fn(Setting) -> Option<FieldView> = |s: Setting| document_says(fields, s);
        law_missing_settings(says);
        law_settings_have_their_places(fields);
        law_strings_are_taken_as_they_are(says);
        law_integers_are_taken_as_they_are(says);
        assert(says(Setting::DbPath) == document_says(fields, Setting::DbPath));
        assert(says(Setting::DiskCapacityGb) == document_says(fields, Setting::DiskCapacityGb));
        assert(says(Setting::HighWatermarkPct) == document_says(fields, Setting::HighWatermarkPct));
        assert(says(Setting::LowWatermarkPct) == document_says(fields, Setting::LowWatermarkPct));
        assert(says(Setting::HubId) == document_says(fields, Setting::HubId));
    }
}

} // verus!
