use vstd::prelude::*;

verus! {

/// A JSON value of serde_json, held as it is: the store never looks inside it.
#[verifier::external_type_specification]
#[verifier::external_body]
pub struct ExValue(serde_json::Value);

/// Relies on the `Clone` that serde_json derives for `Value`: the copy equals
/// the original.
pub assume_specification[ <serde_json::Value as Clone>::clone ](v: &serde_json::Value) -> (r:
    serde_json::Value)
    ensures
        r == *v,
;

/// The time-to-live that marks an entry that never expires.
pub const NO_TTL: i64 = -1;

/// Milliseconds since the Unix epoch, read from the system clock.
///
/// Relies on `SystemTime::now` and `Duration::as_millis`. Nothing is promised
/// of the value; a clock set before the epoch reads as 0.
#[verifier::external_body]
pub(crate) fn now_millis() -> (r: u64) {
    match std::time::SystemTime::now().duration_since(std::time::UNIX_EPOCH) {
        Ok(d) => d.as_millis() as u64,
        Err(_) => 0,
    }
}

/// A stored value with its time-to-live and its creation time, both in
/// milliseconds. A `ttl` that is not positive means that the entry never
/// expires.
pub struct ShardEntry {
    pub ttl: i64,
    pub value: serde_json::Value,
    pub timestamp: u64,
}

/// The time-to-live recorded for an optional time-to-live in milliseconds.
pub open spec fn ttl_of(ttl_ms: Option<i64>) -> i64 {
    match ttl_ms {
        None => NO_TTL,
        Some(t) => t,
    }
}

impl ShardEntry {
    /// An entry is expired at `now` when its time-to-live is positive and more
    /// than that many milliseconds have passed since it was created.
    pub open spec fn expired_at(&self, now: int) -> bool {
        self.ttl > 0 && now - self.timestamp > self.ttl
    }

    /// An entry created at `now`.
    pub fn new_at(value: serde_json::Value, ttl_ms: Option<i64>, now: u64) -> (r: Self)
        ensures
            r.value == value,
            r.ttl == ttl_of(ttl_ms),
            r.timestamp == now,
    {
        let ttl = match ttl_ms {
            None => NO_TTL,
            Some(t) => t,
        };
        ShardEntry { ttl, value, timestamp: now }
    }

    /// An entry created now, by the system clock.
    pub fn new(value: serde_json::Value, ttl_ms: Option<i64>) -> (r: Self)
        ensures
            r.value == value,
            r.ttl == ttl_of(ttl_ms),
    {
        let now = now_millis();
        Self::new_at(value, ttl_ms, now)
    }

    /// Whether the entry is expired at `now`.
    pub fn is_expired(&self, now: u64) -> (r: bool)
        ensures
            r == self.expired_at(now as int),
    {
        self.ttl > 0 && now >= self.timestamp && ((now - self.timestamp) as u128) > (self.ttl as u128)
    }
}

} // verus!
