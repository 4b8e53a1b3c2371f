# slimHub

A ciphertext ring buffer. Producers publish encrypted chunks, each under a blind
identifier; the hub writes a chunk to disk, confirms it, and forwards it to the
consumer, oldest first, until the consumer has acknowledged it. It knows blind
identifiers and arrival times, and nothing of what it stores.

The library under `src/` is written in Verus: its functions carry contracts that
Verus proves, all but the two that read the clock, of which nothing can be said.
The program under `app/` is ordinary Rust around it: the
network session, the timers, the control socket and the file system.

| Module     | What it holds                                                            |
|------------|--------------------------------------------------------------------------|
| `keys`     | byte layout of keys and times, expiry, the order of byte strings         |
| `ring`     | the slots of the acknowledged identifiers, and what is evicted           |
| `model`    | what a store holds, as mathematics, and the laws of its operations       |
| `engine`   | the sled database engine, with the contracts that the rest relies on     |
| `storage`  | the store: pending and acknowledged chunks, and the cleanup in tiers     |
| `history`  | laws of a store over many operations                                     |
| `topics`   | topics, and the blind identifier that a chunk's topic ends in            |
| `hub`      | a chunk that arrives, a look at the disk, an acknowledgement, a reload   |
| `document` | the TOML parser, with the contracts that `config` relies on              |
| `config`   | the configuration                                                        |
| `cli`      | what the arguments ask for                                               |
| `ipc`      | the conversation between the daemon and its clients                      |
| `clock`    | the time of day                                                          |

What the store promises, and where it is proved:

- A confirmed chunk is held, and on disk while it waits, however often it was sent
  (`hub::law_confirmed_chunk_is_held`).
- A blind identifier is stored once, however often it is sent
  (`model::law_offer_is_idempotent`).
- Batches come oldest first (`model::law_front_is_in_arrival_order`,
  `model::law_front_is_oldest`).
- Want of disk drops no chunk that has waited for seven days or less
  (`hub::law_disk_check_drops_no_young_chunk`).
- A chunk waits until the consumer has acknowledged it
  (`hub::law_chunk_waits_until_acknowledged`).
- The number of chunks that wait is that of insertions less that of confirmations
  (`history::law_waiting_is_insertions_less_confirmations`).
- The acknowledged ring never has more records than slots, holds none that is
  older than a day, and evicts the oldest first (`model::law_ring_is_bounded`,
  `model::law_ring_is_fresh`, `model::law_ring_is_first_in_first_out`).
- New chunks are refused from the soft limit on and the hub stops from the hard limit
  on, whatever comes of a cleanup (`hub::law_limits_follow_the_usage`).

What a proof cannot reach is the disk, the clock and the parsers: the functions
marked `external_body` in `engine`, `clock`, `topics` and `document` state what
is taken on trust.
