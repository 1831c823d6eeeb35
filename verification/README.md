# klyradb

The core of a desktop manager for local, isolated PostgreSQL, MySQL, MariaDB,
Redis/Valkey and MongoDB instances, written in Verus: the functions in `src/`
are verified against their contracts, except a few small wrappers around std,
`getrandom` and `serde_json` whose contracts are trusted.

## Layout

- `src/engine.rs` — engine kinds, instance and version records, the `Engine`
  trait and its error type; `src/engine/paths.rs` (snap-aware locations and
  binary lookup), `src/engine/proc.rs` (pidfile parsing, status from pid and
  port), `src/engine/tooling.rs` (tool outcomes, readiness waits, stop steps).
- `src/pg.rs`, `src/mysql.rs`, `src/mariadb.rs`, `src/mongodb.rs`,
  `src/redis.rs` — per-engine configs, command lines and version detection.
- `src/manager.rs` — the instance registry: creation with isolated paths and
  unshared ports, lifecycle state, install and patch-upgrade planning,
  persistence snapshots, and the laws that relate them.
- `src/install.rs` — package names and install commands, blocked engines.
- `src/i18n.rs`, `src/dict.rs` — the localization catalogue over a sorted
  string dictionary.
- `src/versions.rs`, `src/ranking.rs`, `src/store.rs`, `src/text.rs` — version
  families, rank ordering, registry file locations, text utilities.
- `app/` — the desktop application: Tauri commands, host I/O (processes,
  files, ports, environment), the JSON wire types and the registry file.

The host work (running tools, reading and writing files, probing ports,
sleeping) lives in `app/`. The library builds the command lines, configs and
error messages and decides the fallbacks; `app/` runs them and passes the
results back to the library. The engines themselves are implementations of
the library's `Engine` trait in `app/`; each names its kind, and its `may_*`
relations are left to allow every outcome, so the manager's contracts say what
it does with whatever an engine reports. The manager also keeps a ghost record
of the lifecycle calls it makes on its engines, in order.
