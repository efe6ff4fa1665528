//! Pacing of requests: retry delays and advertised limits.

use crate::text;
use crate::text::{chars_of, parse_uint, trim_chars};
use std::time::Duration;
use vstd::prelude::*;

verus! {

/// The seconds that a `Retry-After` value states. Only whole seconds count, not
/// the date form.
pub open spec fn stated_seconds(value: Seq<char>) -> Option<nat> {
    text::parsed_uint(text::trim(value), u64::MAX as nat)
}

/// The seconds that an optional `Retry-After` value states.
pub open spec fn header_seconds(value: Option<Seq<char>>) -> Option<nat> {
    match value {
        Some(v) => stated_seconds(v),
        None => None,
    }
}

/// Reads the seconds of a `Retry-After` value.
pub fn retry_after_seconds(value: &str) -> (r: Option<u64>)
    ensures
        match r {
            Some(n) => stated_seconds(value@) == Some(n as nat),
            None => stated_seconds(value@) is None,
        },
{
    let chars = chars_of(value);
    parse_uint(trim_chars(chars.as_slice()), u64::MAX)
}

/// The duration that `Duration::from_secs` makes.
pub uninterp spec fn duration_of_secs(secs: u64) -> Duration;

/// The standard library's `Duration::from_secs`: the duration of that many
/// seconds, which depends on nothing else.
pub assume_specification[ Duration::from_secs ](secs: u64) -> (d: Duration)
    ensures
        d == duration_of_secs(secs),
;

/// The duration that `Duration::from_millis` makes.
pub uninterp spec fn duration_of_millis(millis: u64) -> Duration;

/// The standard library's `Duration::from_millis`: the duration of that many
/// milliseconds, which depends on nothing else.
pub assume_specification[ Duration::from_millis ](millis: u64) -> (d: Duration)
    ensures
        d == duration_of_millis(millis),
;

/// Reads a `Retry-After` header as whole seconds; `None` for the date form.
pub fn parse_retry_after(value: &str) -> (r: Option<Duration>)
    ensures
        match r {
            Some(d) => stated_seconds(value@) matches Some(n) && n <= u64::MAX && d
                == duration_of_secs(n as u64),
            None => stated_seconds(value@) is None,
        },
{
    match retry_after_seconds(value) {
        Some(n) => Some(Duration::from_secs(n)),
        None => None,
    }
}

// --- Jitter ---

/// The standard library's `SystemTime::now`, as the nanoseconds of the current
/// second; zero where the clock is set before 1970. There are fewer than a
/// billion of them.
#[verifier::external_body]
fn clock_nanos() -> (n: u64)
    ensures
        n < 1000000000,
{
    std::time::SystemTime::now().duration_since(std::time::UNIX_EPOCH).map(
        |d| d.subsec_nanos() as u64,
    ).unwrap_or(0)
}

/// The clock and the counter mixed: both are multiplied by odd numbers and
/// added, each time with the carry dropped.
pub open spec fn mixed(nanos: u64, counter: u64) -> u64 {
    nanos.wrapping_mul(0x9E37_79B9_7F4A_7C15).wrapping_add(
        counter.wrapping_mul(0xBF58_476D_1CE4_E5B9),
    )
}

/// A delay below `max_ms` milliseconds, mixed from the clock and a counter that
/// differs from call to call.
pub open spec fn mixed_millis(nanos: u64, counter: u64, max_ms: u64) -> u64 {
    mixed(nanos, counter) % max_ms
}

/// Mixes a delay from the clock and a counter.
pub fn mix_jitter(nanos: u64, counter: u64, max_ms: u64) -> (r: u64)
    requires
        max_ms > 0,
    ensures
        r == mixed_millis(nanos, counter, max_ms),
        r < max_ms,
{
    let mixed: u64 = nanos.wrapping_mul(0x9E37_79B9_7F4A_7C15).wrapping_add(
        counter.wrapping_mul(0xBF58_476D_1CE4_E5B9),
    );
    mixed % max_ms
}

/// A delay of less than `max_ms` milliseconds, and zero for zero. The caller
/// counts the calls, so that two at the same time do not mix the same number.
pub fn jitter_millis(max_ms: u64, counter: u64) -> (r: u64)
    ensures
        max_ms > 0 ==> r < max_ms,
        max_ms > 0 ==> exists|nanos: u64|
            nanos < 1000000000 && r == #[trigger] mixed_millis(nanos, counter, max_ms),
        max_ms == 0 ==> r == 0,
{
    if max_ms == 0 {
        0
    } else {
        let nanos: u64 = clock_nanos();
        mix_jitter(nanos, counter, max_ms)
    }
}

/// A delay of less than `max_ms` milliseconds, and zero for zero. The caller
/// counts the calls.
pub fn jitter(max_ms: u64, counter: u64) -> (r: Duration)
    ensures
        max_ms > 0 ==> exists|nanos: u64|
            nanos < 1000000000 && r == duration_of_millis(
                #[trigger] mixed_millis(nanos, counter, max_ms),
            ) && mixed_millis(nanos, counter, max_ms) < max_ms,
        max_ms == 0 ==> r == duration_of_millis(0),
{
    let ms: u64 = jitter_millis(max_ms, counter);
    Duration::from_millis(ms)
}

/// The counter can be had back from its product with the odd number.
proof fn lemma_product_undone(c: int)
    requires
        0 <= c < 0x1_0000_0000_0000_0000,
    ensures
        ((c * 0xBF58_476D_1CE4_E5B9) % 0x1_0000_0000_0000_0000 * 0x96DE_1B17_3F11_9089)
            % 0x1_0000_0000_0000_0000 == c,
{
    let m: int = 0x1_0000_0000_0000_0000;
    let odd: int = 0xBF58_476D_1CE4_E5B9;
    let inverse: int = 0x96DE_1B17_3F11_9089;
    let t: int = 8125545580553827436;
    assert(odd * inverse == 1 + t * m);
    let q = (c * odd) / m;
    let r = (c * odd) % m;
    vstd::arithmetic::div_mod::lemma_fundamental_div_mod(c * odd, m);
    assert(r * inverse == m * (c * t - q * inverse) + c) by (nonlinear_arith)
        requires
            c * odd == m * q + r,
            odd * inverse == 1 + t * m,
    ;
    vstd::arithmetic::div_mod::lemma_mod_multiples_vanish(c * t - q * inverse, c, m);
}

/// Two calls in the same nanosecond mix different numbers, unless they are
/// counted alike.
pub proof fn law_counters_part_callers(nanos: u64, a: u64, b: u64)
    requires
        a != b,
    ensures
        mixed(nanos, a) != mixed(nanos, b),
{
    let odd: u64 = 0xBF58_476D_1CE4_E5B9;
    if mixed(nanos, a) == mixed(nanos, b) {
        let base = nanos.wrapping_mul(0x9E37_79B9_7F4A_7C15);
        let x = a.wrapping_mul(odd);
        let y = b.wrapping_mul(odd);
        assert(base.wrapping_add(x) == base.wrapping_add(y));
        assert(x == y);
        lemma_product_undone(a as int);
        lemma_product_undone(b as int);
    }
}

// --- Advertised limits ---

/// The requests per minute that an `X-RateLimit-Limit` value states: a positive
/// number of 32 bits.
pub open spec fn stated_limit(value: Seq<char>) -> Option<nat> {
    match text::parsed_uint(text::trim(value), u32::MAX as nat) {
        Some(n) => if n > 0 {
            Some(n)
        } else {
            None
        },
        None => None,
    }
}

/// Reads the limit of an `X-RateLimit-Limit` value.
pub fn advertised_limit(value: &str) -> (r: Option<u32>)
    ensures
        match r {
            Some(n) => stated_limit(value@) == Some(n as nat),
            None => stated_limit(value@) is None,
        },
{
    let chars = chars_of(value);
    match parse_uint(trim_chars(chars.as_slice()), u32::MAX as u64) {
        Some(n) => if n > 0 {
            Some(n as u32)
        } else {
            None
        },
        None => None,
    }
}

/// The bounds of a bucket of requests. Each number is given by a key that grows
/// with it.
#[derive(Clone, Copy, Debug, PartialEq, Eq, Structural)]
pub struct RateCaps {
    /// The most requests that the bucket can hold.
    pub capacity: u64,
    /// The requests that it holds.
    pub tokens: u64,
    /// The limit that was advertised last.
    pub observed: Option<u64>,
}

impl RateCaps {
    /// The bucket holds no more than it can.
    pub open spec fn well_formed(self) -> bool {
        self.tokens <= self.capacity
    }

    /// The bounds after a limit was advertised. The capacity is only ever
    /// lowered, and the bucket emptied down to it.
    pub open spec fn after(self, limit: u64) -> RateCaps {
        if limit < self.capacity {
            RateCaps {
                capacity: limit,
                tokens: if self.tokens > limit {
                    limit
                } else {
                    self.tokens
                },
                observed: Some(limit),
            }
        } else {
            RateCaps { observed: Some(limit), ..self }
        }
    }

    /// Takes an advertised limit in.
    pub fn observe(&mut self, limit: u64)
        ensures
            *final(self) == old(self).after(limit),
    {
        self.observed = Some(limit);
        if limit < self.capacity {
            self.capacity = limit;
            if self.tokens > limit {
                self.tokens = limit;
            }
        }
    }
}

/// The bounds after several limits were advertised.
pub open spec fn caps_after(caps: RateCaps, limits: Seq<u64>) -> RateCaps
    decreases limits.len(),
{
    if limits.len() == 0 {
        caps
    } else {
        caps_after(caps, limits.drop_last()).after(limits.last())
    }
}

/// However the advertised limits go, the capacity never rises: it is the lowest
/// of the first capacity and the limits so far, and the bucket never holds more.
pub proof fn law_capacity_never_rises(caps: RateCaps, limits: Seq<u64>)
    requires
        caps.well_formed(),
    ensures
        caps_after(caps, limits).well_formed(),
        caps_after(caps, limits).capacity <= caps.capacity,
        forall|i: int|
            0 <= i < limits.len() ==> caps_after(caps, limits).capacity <= #[trigger] limits[i],
        caps_after(caps, limits).capacity == caps.capacity || limits.contains(
            caps_after(caps, limits).capacity,
        ),
    decreases limits.len(),
{
    if limits.len() > 0 {
        law_capacity_never_rises(caps, limits.drop_last());
        let before = caps_after(caps, limits.drop_last());
        assert forall|i: int| 0 <= i < limits.len() implies caps_after(caps, limits).capacity
            <= #[trigger] limits[i] by {
            if i < limits.len() - 1 {
                assert(limits[i] == limits.drop_last()[i]);
            }
        }
        if limits.last() < before.capacity {
            assert(limits[limits.len() - 1] == limits.last());
        } else if before.capacity != caps.capacity {
            let k = choose|k: int|
                0 <= k < limits.drop_last().len() && limits.drop_last()[k] == before.capacity;
            assert(limits[k] == before.capacity);
        }
    }
}

} // verus!
