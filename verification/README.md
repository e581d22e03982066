# lau_kintsugi_runtime

Bookkeeping of failures and repairs for software artifacts, verified with Verus.

- `src/` — the verified library: break categories, repair records, artifacts,
  policies, the ledger (registration, recording repairs, rankings, break
  distribution, lessons), each with its contract, and the laws that relate them.
  Values are binary64 numbers held by their IEEE-754 encoding (`Float64`); the
  library compares encodings and leaves arithmetic on values to its caller.
- `app/` — ordinary Rust around the library: binary64 arithmetic (sums,
  averages, square roots), JSON through serde, `Display` and
  `std::error::Error` for errors.
- `tests/` — tests of the library.
