# claude_sdk_verified

The core of an interactive command line SDK, written in Verus. The
functions in `src/` carry contracts that the verifier proves; the few that
call the clock, `uuid`, `chrono`, `lru` or the HTTP status table are small
trusted wrappers whose contracts restate what those libraries document.

## Layout

- `src/` — the verified library.
  - `text`, `string_map`, `wrapping`, `time`: text helpers, a small ordered
    string map, greedy word wrapping, durations and clocks.
  - `commands`, `config`, `session`, `execution`: command listing and
    parsing, configuration settings, the session registry, and the
    decisions of command execution (command lines, retries, batch tallies).
  - `error_handling`, `recovery`: retry policies, circuit breakers,
    reconnection backoff and buffered partial results.
  - `formatter`: output styles, progress counting and plain-text rendering.
  - `timeseries`, `series_cache`, `analytics`, `dashboard_cache`, `pools`,
    `performance`: time buckets, the cache of generated series, dataset
    helpers, the dashboard cache with LRU stores and invalidation, object
    pools, bounded caches, batching, sliding windows and a day index.
  - Laws that relate several operations are public proof functions named
    `law_*` next to the operations they speak of.
- `tests/` — tests run against the compiled library.
- `app/` — the unverified shell around the library: argument parsing,
  terminal colours and tables, files and JSON, async tasks, floating-point
  figures and system metrics.
