# fantasy_esports

The logic of a fantasy e-sports service, with its contracts proved by Verus:
nesting stored draft rows into the hierarchy the API reports, splitting a
league's teams into snake drafts, choosing the pick for a draft choice whose
time ran out, and flattening competitions, series and teams into the rows
that store them (and grouping those rows back).

- `src/` is the verified library. Identifiers are `u128` (the integer form of
  a UUID), instants are `i64` microseconds since the Unix epoch, and JSON
  metadata is carried as its text. Fresh ids come from the `uuid` crate,
  random choices from `rand`, and run-length deduplication from `itertools`,
  each behind a small trusted wrapper in `src/fresh.rs` or
  `src/leaderboards.rs`.
- `tests/` runs the library on concrete values.
- `app/` holds what the library does not: database access with `diesel`,
  the draft loops on `tokio`, and conversions between stored rows and the
  library's values.
