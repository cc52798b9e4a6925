//! The time at which a message was captured.

use vstd::prelude::*;

verus! {

/// Nanoseconds in one second.
pub const NANOS_PER_SEC: u32 = 1_000_000_000;

/// A span of time since the Unix epoch, in whole seconds and the
/// nanoseconds past them.
#[derive(Debug, Clone, Copy, PartialEq, Eq, PartialOrd, Ord, Hash, Structural)]
pub struct Timestamp {
    secs: u64,
    nanos: u32,
}

/// `Duration::as_secs`: the whole seconds of a duration. Nothing is said of
/// them here.
pub assume_specification[ core::time::Duration::as_secs ](duration: &core::time::Duration) -> (secs:
    u64)
;

/// `Duration::subsec_nanos`: the part of a duration past its whole seconds,
/// in nanoseconds, which std documents as always below one second.
pub assume_specification[ core::time::Duration::subsec_nanos ](
    duration: &core::time::Duration,
) -> (nanos: u32)
    ensures
        nanos < NANOS_PER_SEC,
;

/// The clock of the machine: the time since the Unix epoch, by
/// `std::time::SystemTime::elapsed` on the epoch. `None` where the clock
/// stands before the epoch. Nothing is said of the time itself.
#[verifier::external_body]
fn elapsed_since_epoch() -> (elapsed: Option<core::time::Duration>) {
    match std::time::SystemTime::UNIX_EPOCH.elapsed() {
        Ok(elapsed) => Some(elapsed),
        Err(_) => None,
    }
}

/// Whether a reading of the clock is a time: there is one, and its
/// nanoseconds stay below one second. The clock gives no reading where it
/// stands before the epoch.
pub open spec fn is_time(reading: Option<(u64, u32)>) -> bool {
    reading matches Some(parts) && parts.1 < NANOS_PER_SEC
}

/// The nanoseconds since the epoch that a reading of the clock stands for.
pub open spec fn reading_nanos(reading: Option<(u64, u32)>) -> int {
    match reading {
        Some((secs, nanos)) => secs as int * NANOS_PER_SEC as int + nanos as int,
        None => 0,
    }
}

impl Timestamp {
    /// The nanoseconds stay below one second. This holds of every time that
    /// a program holds.
    #[verifier::type_invariant]
    pub closed spec fn wf(self) -> bool {
        self.nanos < NANOS_PER_SEC
    }

    /// The whole time in nanoseconds.
    pub closed spec fn total_nanos(self) -> int {
        self.secs as int * NANOS_PER_SEC as int + self.nanos as int
    }

    /// A time is its number of nanoseconds: two well-formed times with the
    /// same number are the same.
    pub proof fn lemma_total_nanos_injective(a: Timestamp, b: Timestamp)
        requires
            a.wf(),
            b.wf(),
            a.total_nanos() == b.total_nanos(),
        ensures
            a == b,
    {
        let n = NANOS_PER_SEC as int;
        assert(a.secs as int == b.secs as int) by (nonlinear_arith)
            requires
                a.secs as int * n + a.nanos as int == b.secs as int * n + b.nanos as int,
                0 <= a.nanos as int,
                (a.nanos as int) < n,
                0 <= b.nanos as int,
                (b.nanos as int) < n,
        ;
    }

    /// A time is not negative, and its seconds fit in 64 bits.
    pub proof fn lemma_total_nanos_range(self)
        requires
            self.wf(),
        ensures
            0 <= self.total_nanos() < (u64::MAX as int + 1) * 1_000_000_000,
    {
        assert((self.secs as int * 1_000_000_000 + self.nanos as int) < (u64::MAX as int + 1)
            * 1_000_000_000) by (nonlinear_arith)
            requires
                self.secs <= u64::MAX,
                self.nanos < 1_000_000_000,
        ;
    }

    /// The time of `secs` seconds and `nanos` nanoseconds; `None` where
    /// `nanos` makes up a second or more.
    pub fn new(secs: u64, nanos: u32) -> (r: Option<Self>)
        ensures
            r is Some <==> nanos < NANOS_PER_SEC,
            r matches Some(t) ==> t.wf() && t.total_nanos() == secs as int * NANOS_PER_SEC as int
                + nanos as int,
    {
        if nanos < NANOS_PER_SEC {
            Some(Timestamp { secs, nanos })
        } else {
            None
        }
    }

    /// The current time; `None` where the clock stands before the epoch.
    pub fn now() -> (r: Option<Self>)
        ensures
            r matches Some(time) ==> time.wf(),
    {
        let reading = match elapsed_since_epoch() {
            Some(elapsed) => Some((elapsed.as_secs(), elapsed.subsec_nanos())),
            None => None,
        };
        Timestamp::from_reading(reading)
    }

    /// The time that a reading of the clock stands for: the seconds and
    /// nanoseconds read. `None` where the clock gave no reading, or one
    /// that is no time.
    pub fn from_reading(reading: Option<(u64, u32)>) -> (r: Option<Self>)
        ensures
            r is Some <==> is_time(reading),
            r matches Some(time) ==> time.wf() && time.total_nanos() == reading_nanos(reading),
    {
        match reading {
            Some((secs, nanos)) => Timestamp::new(secs, nanos),
            None => None,
        }
    }

    /// The whole seconds.
    pub fn as_secs(self) -> (r: u64)
        ensures
            r as int == self.total_nanos() / NANOS_PER_SEC as int,
    {
        proof {
            use_type_invariant(&self);
        }
        assert(self.total_nanos() / NANOS_PER_SEC as int == self.secs as int) by (nonlinear_arith)
            requires
                self.total_nanos() == self.secs as int * NANOS_PER_SEC as int + self.nanos as int,
                0 <= self.nanos as int,
                (self.nanos as int) < NANOS_PER_SEC as int,
                NANOS_PER_SEC as int == 1_000_000_000,
        ;
        self.secs
    }

    /// The nanoseconds past the whole seconds.
    pub fn subsec_nanos(self) -> (r: u32)
        ensures
            r as int == self.total_nanos() % NANOS_PER_SEC as int,
            r < NANOS_PER_SEC,
    {
        proof {
            use_type_invariant(&self);
        }
        assert(self.total_nanos() % NANOS_PER_SEC as int == self.nanos as int) by (nonlinear_arith)
            requires
                self.total_nanos() == self.secs as int * NANOS_PER_SEC as int + self.nanos as int,
                0 <= self.nanos as int,
                (self.nanos as int) < NANOS_PER_SEC as int,
                NANOS_PER_SEC as int == 1_000_000_000,
        ;
        self.nanos
    }

    /// The whole time in microseconds, rounded down.
    pub fn as_micros(self) -> (r: u128)
        ensures
            r as int == self.total_nanos() / 1000,
    {
        proof {
            use_type_invariant(&self);
        }
        let secs: u128 = self.secs as u128;
        let micros: u128 = (self.nanos / 1000) as u128;
        assert((self.secs as int * 1_000_000_000 + self.nanos as int) / 1000 == self.secs as int
            * 1_000_000 + self.nanos as int / 1000) by (nonlinear_arith);
        secs * 1_000_000 + micros
    }

    /// Whether `self` is at or before `other`.
    pub fn le(self, other: Timestamp) -> (r: bool)
        ensures
            r == (self.total_nanos() <= other.total_nanos()),
    {
        proof {
            use_type_invariant(&self);
            use_type_invariant(&other);
        }
        assert((self.total_nanos() <= other.total_nanos()) == (self.secs < other.secs || (self.secs
            == other.secs && self.nanos <= other.nanos))) by (nonlinear_arith)
            requires
                self.total_nanos() == self.secs as int * 1_000_000_000 + self.nanos as int,
                other.total_nanos() == other.secs as int * 1_000_000_000 + other.nanos as int,
                0 <= self.nanos as int,
                (self.nanos as int) < 1_000_000_000,
                0 <= other.nanos as int,
                (other.nanos as int) < 1_000_000_000,
        ;
        self.secs < other.secs || (self.secs == other.secs && self.nanos <= other.nanos)
    }

    /// The time from `earlier` to `self`; `None` where `earlier` is the
    /// later of the two.
    pub fn checked_sub(self, earlier: Timestamp) -> (r: Option<Timestamp>)
        ensures
            r is Some <==> earlier.total_nanos() <= self.total_nanos(),
            r matches Some(t) ==> t.wf() && t.total_nanos() == self.total_nanos()
                - earlier.total_nanos(),
    {
        proof {
            use_type_invariant(&self);
            use_type_invariant(&earlier);
        }
        if !earlier.le(self) {
            return None;
        }
        if self.nanos >= earlier.nanos {
            Some(Timestamp { secs: self.secs - earlier.secs, nanos: self.nanos - earlier.nanos })
        } else {
            assert(self.secs > earlier.secs);
            Some(
                Timestamp {
                    secs: self.secs - earlier.secs - 1,
                    nanos: self.nanos + NANOS_PER_SEC - earlier.nanos,
                },
            )
        }
    }

    /// The sum of two times; `None` where its seconds do not fit in 64
    /// bits.
    pub fn checked_add(self, other: Timestamp) -> (r: Option<Timestamp>)
        ensures
            r is Some <==> self.total_nanos() + other.total_nanos() < (u64::MAX as int + 1)
                * NANOS_PER_SEC as int,
            r matches Some(t) ==> t.wf() && t.total_nanos() == self.total_nanos()
                + other.total_nanos(),
    {
        proof {
            use_type_invariant(&self);
            use_type_invariant(&other);
        }
        let nanos_sum: u32 = self.nanos + other.nanos;
        let carry: u64 = if nanos_sum >= NANOS_PER_SEC {
            1
        } else {
            0
        };
        let nanos: u32 = if nanos_sum >= NANOS_PER_SEC {
            nanos_sum - NANOS_PER_SEC
        } else {
            nanos_sum
        };
        let secs: u128 = self.secs as u128 + other.secs as u128 + carry as u128;
        if secs > u64::MAX as u128 {
            None
        } else {
            Some(Timestamp { secs: secs as u64, nanos })
        }
    }

    /// The time divided into `parts` equal parts, rounded down to the
    /// nanosecond; `None` for no parts.
    pub fn checked_div(self, parts: u32) -> (r: Option<Timestamp>)
        ensures
            r is Some <==> parts != 0,
            r matches Some(t) ==> t.wf() && t.total_nanos() == self.total_nanos() / parts as int,
    {
        proof {
            use_type_invariant(&self);
        }
        if parts == 0 {
            return None;
        }
        let total: u128 = self.secs as u128 * 1_000_000_000 + self.nanos as u128;
        let share: u128 = total / parts as u128;
        let secs: u128 = share / 1_000_000_000;
        let nanos: u128 = share % 1_000_000_000;
        assert(secs <= u64::MAX) by (nonlinear_arith)
            requires
                secs == share / 1_000_000_000,
                share == total / parts as u128,
                parts >= 1,
                total == self.secs as u128 * 1_000_000_000 + self.nanos as u128,
                self.nanos < 1_000_000_000,
                self.secs <= u64::MAX,
        ;
        assert(secs as int * 1_000_000_000 + nanos as int == share as int) by (nonlinear_arith)
            requires
                secs == share / 1_000_000_000,
                nanos == share % 1_000_000_000,
        ;
        Some(Timestamp { secs: secs as u64, nanos: nanos as u32 })
    }
}

impl Default for Timestamp {
    /// The epoch.
    fn default() -> (r: Self)
        ensures
            r.wf(),
            r.total_nanos() == 0,
    {
        Timestamp { secs: 0, nanos: 0 }
    }
}

} // verus!
