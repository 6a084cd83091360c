# kafka-sync

Archives Kafka topics to object storage (local filesystem, AWS S3 or Google
Cloud Storage) in fixed time windows. Offsets are committed only after a window
is uploaded, and after a window that fails the consumer is set back to where it
had begun, so that the next cycle consumes it again. The archive is therefore
at-least-once: crashes duplicate, never lose.

The logic is a library written in Verus: the functions in `src/` carry contracts
that are proved, up to the few that are trusted (see below). `app/` is the
program around it: it reads the environment, talks to Kafka, to the disk and to
the clouds, and performs what the library decides.

## Layout

- `src/config.rs`, `src/consts.rs`: the layered configuration. The environment
  wins over `config/<RUN_ENV>.toml`, which wins over the defaults.
- `src/kafka.rs`: what a window collects, the client's parameters, and the commit
  list.
- `src/object_key.rs`, `src/calendar.rs`: the key of a window,
  `yyyy/mm/dd/<topic>/Par<partition>-Off<offset>[_...].json`.
- `src/storage/`: where each backend puts an object, and the stages of an atomic
  write to disk.
- `src/backfill.rs`: upload, then commit; the cached consumers; the loop.
- `src/delivery.rs`: at-least-once delivery, over every history of windows,
  failures, crashes and reassignments in which no two hashed keys collide.
- `src/*_laws.rs`, `src/storage/filesystem_laws.rs`: what holds across functions:
  accepted configurations are valid, keys identify their windows, objects stay
  below the root and are never torn.
- `src/text.rs`: trimming, splitting, number formatting and parsing.
- `tests/`: the library on concrete values, with the outside crates linked.

## What is trusted

Calls into `rdkafka` and `chrono`, and two functions of the standard library, are
described by contracts that are not proved. Each has a doc comment that says what
it claims: look for `external_body`, `external_type_specification` and
`assume_specification` in `src/`.
