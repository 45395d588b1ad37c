# throttle-kit

Rate limiting with the Generic Cell Rate Algorithm (GCRA), verified with
[Verus](https://github.com/verus-lang/verus).

A key's whole state is one number, its theoretical arrival time. A request
conforms while counting it keeps the key at most `burst` intervals ahead of the
clock; a conforming request moves the arrival time one interval on.

```rust
use throttle_kit::{InMemoryBackend, Quota, RateLimiter};

let mut limiter = RateLimiter::new(Quota::per_second(10), InMemoryBackend::new());
let result = limiter.check("user-123");
assert!(result.allowed);
```

## What is proved

- The decision core returns the textbook decision for all inputs, without
  overflow. A key behaves as a token bucket, and over any stretch of time no
  more than `burst` requests are allowed beyond one per interval, as long as
  times fit the clock.
- The backend in memory keeps these promises for every key, whatever the
  requests for other keys in between and their quotas, and so does the keyed
  limiter over it. No window of the sliding window backend
  ever holds more than the burst.
- The SQLite step enforces its rate, and the waits it reports are exact. The
  Redis exchange fails open.
- Client identity never depends on a header that an untrusted peer sent, nor on
  header entries to the left of the chosen one. Membership in a network is exact
  at the edges of its prefix. The text of an address stands for that address
  alone, so that no two clients share a key.
- A middleware refuses a request without identity before anything is counted,
  and a denied one before it reaches the service.

## Layout

- `src/` is the verified library. Modules whose names end in `_laws` hold what
  is promised across calls, as proof functions.
- `src/clock.rs`, `src/table.rs`, `src/http_headers.rs` and the head of
  `src/text.rs` say what is relied on without proof: the clock and strings of
  the standard library, `dashmap`, `http`.
- `app/` is ordinary Rust around it: shared handles for asynchronous callers, a
  Tower layer, the recording of results as metrics, and the backends that keep
  their state in SQLite and Redis.
- `tests/` runs the library.
