//! Token-bucket rate limiter for per-file and global download speed caps.
//!
//! The bucket holds up to `rate` tokens (one second of burst allowance) and
//! refills at `rate` tokens/second. Large charges are sliced into chunks of
//! at most `rate` bytes so a single charge never exceeds the bucket capacity
//! (which would otherwise deadlock the limiter on a big network chunk).
//!
//! Tokens are counted in billionths of a byte, so that a nanosecond adds a whole
//! number of them.

use vstd::prelude::*;

verus! {

/// How many nanoseconds a second has, and how many tokens a byte costs.
pub const BILLION: u64 = 1_000_000_000;

/// The longest wait before the bucket is looked at again, in nanoseconds, so that
/// other tasks can drain the bucket too.
pub const MAX_WAIT: u64 = 250_000_000;

/// A bucket at a moment: its rate in bytes per second, the tokens it holds, and
/// when it was last filled, in nanoseconds.
pub struct BucketView {
    pub rate: int,
    pub tokens: int,
    pub last: int,
}

/// What becomes of a charge.
#[derive(Debug, Clone, Copy, PartialEq, Eq, Structural)]
pub enum Pace {
    /// A slice of the charge was granted. So many bytes are left to charge.
    Granted(u64),
    /// Nothing was granted. So many nanoseconds are to pass before the next try.
    Wait(u64),
}

impl BucketView {
    /// Whether the bucket holds no more than one second's worth.
    pub open spec fn wf(self) -> bool {
        self.rate > 0 && 0 <= self.tokens <= self.rate * BILLION
    }

    /// The bucket at a later moment.
    pub open spec fn filled(self, now: int) -> BucketView {
        if now <= self.last {
            self
        } else {
            let tokens = self.tokens + self.rate * (now - self.last);
            BucketView {
                rate: self.rate,
                tokens: if tokens < self.rate * BILLION {
                    tokens
                } else {
                    self.rate * BILLION
                },
                last: now,
            }
        }
    }

    /// The bytes that are charged at once: at most one second's worth.
    pub open spec fn slice(self, bytes: int) -> int {
        if bytes < self.rate {
            bytes
        } else {
            self.rate
        }
    }

    /// The nanoseconds until the bucket holds enough for a slice of the charge.
    pub open spec fn shortfall(self, bytes: int) -> int {
        (self.slice(bytes) * BILLION - self.tokens + self.rate - 1) / self.rate
    }

    /// The bucket after a try, and what became of the charge.
    pub open spec fn acquired(self, now: int, bytes: int) -> (BucketView, Pace) {
        let full = self.filled(now);
        let cost = full.slice(bytes) * BILLION;
        if full.tokens >= cost {
            (
                BucketView { rate: full.rate, tokens: full.tokens - cost, last: full.last },
                Pace::Granted((bytes - full.slice(bytes)) as u64),
            )
        } else {
            (
                full,
                Pace::Wait(
                    if full.shortfall(bytes) < MAX_WAIT {
                        full.shortfall(bytes) as u64
                    } else {
                        MAX_WAIT
                    },
                ),
            )
        }
    }
}

/// A token bucket.
#[derive(Debug)]
pub struct Throttle {
    rate: u128,
    tokens: u128,
    last: u64,
}

impl View for Throttle {
    type V = BucketView;

    closed spec fn view(&self) -> BucketView {
        BucketView { rate: self.rate as int, tokens: self.tokens as int, last: self.last as int }
    }
}

/// The highest rate that a bucket can have, in bytes per second.
pub const MAX_RATE: u128 = 18_889_465_931_478_580_853_760;

/// A rate in bytes per second, where one is set in KiB per second. A rate of 0 is
/// no rate.
pub fn rate_of(kib_per_sec: u64) -> (r: Option<u128>)
    ensures
        kib_per_sec == 0 <==> r is None,
        r matches Some(rate) ==> rate == kib_per_sec * 1024 && 0 < rate <= MAX_RATE,
{
    if kib_per_sec == 0 {
        None
    } else {
        Some(kib_per_sec as u128 * 1024)
    }
}

impl Throttle {
    /// Whether the bucket can be used.
    pub open spec fn wf(self) -> bool {
        self@.wf() && self@.rate <= MAX_RATE
    }

    /// Create a limiter at the moment `now`, in nanoseconds.
    pub fn new(rate_bytes_per_sec: u128, now: u64) -> (r: Throttle)
        requires
            0 < rate_bytes_per_sec <= MAX_RATE,
        ensures
            r.wf(),
            r@ == (BucketView {
                rate: rate_bytes_per_sec as int,
                tokens: rate_bytes_per_sec * BILLION,
                last: now as int,
            }),
    {
        // Start with one second's worth: allows a small burst so the
        // first chunk of a file isn't needlessly delayed.
        Throttle {
            rate: rate_bytes_per_sec,
            tokens: rate_bytes_per_sec * (BILLION as u128),
            last: now,
        }
    }

    /// Fill up to the moment `now`.
    fn fill(&mut self, now: u64)
        requires
            old(self).wf(),
        ensures
            final(self).wf(),
            final(self)@ == old(self)@.filled(now as int),
    {
        if now > self.last {
            let dt: u64 = now - self.last;
            let room: u128 = self.rate * (BILLION as u128);
            if dt >= BILLION {
                proof {
                    let rate = self.rate as int;
                    assert(rate * dt >= rate * BILLION) by (nonlinear_arith)
                        requires
                            rate > 0,
                            dt >= BILLION,
                    ;
                }
                self.tokens = room;
            } else {
                proof {
                    let rate = self.rate as int;
                    assert(0 <= rate * dt <= rate * BILLION) by (nonlinear_arith)
                        requires
                            rate > 0,
                            dt <= BILLION,
                    ;
                }
                let tokens: u128 = self.tokens + self.rate * (dt as u128);
                self.tokens = if tokens < room {
                    tokens
                } else {
                    room
                };
            }
            self.last = now;
        }
    }

    /// Try to consume budget for a slice of `bytes` at the moment `now`, in
    /// nanoseconds. A charge of nothing is granted at once.
    pub fn acquire(&mut self, now: u64, bytes: u64) -> (r: Pace)
        requires
            old(self).wf(),
        ensures
            final(self).wf(),
            (final(self)@, r) == old(self)@.acquired(now as int, bytes as int),
    {
        self.fill(now);
        // Charge at most one second's worth at a time so a single charge
        // always fits within the bucket's capacity.
        let slice: u128 = if (bytes as u128) < self.rate {
            bytes as u128
        } else {
            self.rate
        };
        assert(slice * BILLION <= MAX_RATE * BILLION);
        let cost: u128 = slice * (BILLION as u128);
        if self.tokens >= cost {
            self.tokens = self.tokens - cost;
            Pace::Granted((bytes as u128 - slice) as u64)
        } else {
            let missing: u128 = cost - self.tokens;
            let wait: u128 = (missing + self.rate - 1) / self.rate;
            if wait < MAX_WAIT as u128 {
                Pace::Wait(wait as u64)
            } else {
                Pace::Wait(MAX_WAIT)
            }
        }
    }
}

// ---------------------------------------------------------------------------
// Laws
// ---------------------------------------------------------------------------

/// The bytes that a try grants.
pub open spec fn granted(bytes: int, pace: Pace) -> int {
    match pace {
        Pace::Granted(left) => bytes - left,
        Pace::Wait(_) => 0,
    }
}

/// The bucket after tries, each at a moment and for a number of bytes, and all the
/// bytes that they were granted.
pub open spec fn after_tries(b: BucketView, tries: Seq<(int, u64)>) -> (BucketView, int)
    decreases tries.len(),
{
    if tries.len() == 0 {
        (b, 0)
    } else {
        let (before, sum) = after_tries(b, tries.drop_last());
        let (now, bytes) = tries.last();
        let (after, pace) = before.acquired(now, bytes as int);
        (after, sum + granted(bytes as int, pace))
    }
}

/// Refilling adds no more than the rate allows.
proof fn lemma_filled(b: BucketView, now: int)
    requires
        b.wf(),
    ensures
        b.filled(now).wf(),
        b.filled(now).rate == b.rate,
        b.filled(now).last >= b.last,
        b.filled(now).tokens <= b.tokens + b.rate * (b.filled(now).last - b.last),
        b.filled(now).tokens >= b.tokens,
{
    if now > b.last {
        let rate = b.rate;
        let dt = now - b.last;
        assert(rate * dt >= 0) by (nonlinear_arith)
            requires
                rate > 0,
                dt >= 0,
        ;
        assert(rate * BILLION >= 0) by (nonlinear_arith)
            requires
                rate > 0,
        ;
    } else {
        assert(b.rate * 0 == 0);
    }
}

/// One try takes no more than the bucket has.
proof fn lemma_acquired(b: BucketView, now: int, bytes: u64)
    requires
        b.wf(),
    ensures
        ({
            let (after, pace) = b.acquired(now, bytes as int);
            &&& after.wf()
            &&& after.rate == b.rate
            &&& after.last >= b.last
            &&& after.tokens + granted(bytes as int, pace) * BILLION <= b.tokens + b.rate * (
            after.last - b.last)
            &&& 0 <= granted(bytes as int, pace) <= bytes
        }),
{
    lemma_filled(b, now);
    let full = b.filled(now);
    let slice = full.slice(bytes as int);
    assert(0 <= slice <= bytes);
    assert((bytes - slice) as u64 == bytes - slice);
}

/// However tasks charge a bucket, they are granted no more bytes than it held at
/// first and the rate allows for the time that went by. A bucket holds one second's
/// worth at most: over any stretch of time, the rate is exceeded by that
/// burst at most.
pub proof fn law_rate_is_kept(b: BucketView, tries: Seq<(int, u64)>)
    requires
        b.wf(),
    ensures
        ({
            let (after, sum) = after_tries(b, tries);
            &&& after.wf()
            &&& after.rate == b.rate
            &&& after.last >= b.last
            &&& sum * BILLION + after.tokens <= b.tokens + b.rate * (after.last - b.last)
            &&& sum * BILLION <= b.rate * BILLION + b.rate * (after.last - b.last)
        }),
    decreases tries.len(),
{
    if tries.len() == 0 {
        assert(b.rate * 0 == 0);
    } else {
        law_rate_is_kept(b, tries.drop_last());
        let (before, sum) = after_tries(b, tries.drop_last());
        let (now, bytes) = tries.last();
        lemma_acquired(before, now, bytes);
        let (after, pace) = before.acquired(now, bytes as int);
        let rate = b.rate;
        let d1 = before.last - b.last;
        let d2 = after.last - before.last;
        assert(rate * d1 + rate * d2 == rate * (d1 + d2)) by (nonlinear_arith);
    }
}

/// A full bucket grants one second's worth at once.
pub proof fn law_burst_is_granted(b: BucketView, now: int, bytes: u64)
    requires
        b.wf(),
        b.tokens == b.rate * BILLION,
        bytes <= b.rate,
    ensures
        b.acquired(now, bytes as int).1 == Pace::Granted(0),
{
    lemma_filled(b, now);
}

/// No charge waits forever, however large it is: where a try has to wait, the
/// bucket grants a slice once the shortfall has passed, unless others drain it
/// meanwhile. A granted slice of a charge leaves less of it.
pub proof fn law_wait_is_enough(b: BucketView, now: int, bytes: u64, later: int)
    requires
        b.wf(),
        bytes > 0,
    ensures
        ({
            let (after, pace) = b.acquired(now, bytes as int);
            match pace {
                Pace::Granted(left) => left < bytes,
                Pace::Wait(nanos) => {
                    &&& 0 < nanos <= MAX_WAIT
                    &&& later >= after.last + after.shortfall(bytes as int)
                        ==> after.acquired(later, bytes as int).1 is Granted
                },
            }
        }),
{
    lemma_filled(b, now);
    let full = b.filled(now);
    let slice = full.slice(bytes as int);
    assert(0 < slice <= bytes);
    assert((bytes - slice) as u64 == bytes - slice);
    let cost = slice * BILLION;
    if full.tokens < cost {
        let rate = full.rate;
        let missing = cost - full.tokens;
        let wait = (missing + rate - 1) / rate;
        assert(wait > 0 && rate * wait >= missing) by (nonlinear_arith)
            requires
                rate > 0,
                missing > 0,
                wait == (missing + rate - 1) / rate,
        ;
        if later >= full.last + wait {
            let dt = later - full.last;
            assert(rate * dt >= rate * wait) by (nonlinear_arith)
                requires
                    rate > 0,
                    dt >= wait,
            ;
        }
    }
}

/// What a bucket grants, to the token. Since it was last looked at it has gained its rate
/// for each nanosecond, up to one second's worth. A slice of a charge, at most one
/// second's worth, is granted if and only if the bucket holds a billion tokens for each
/// byte of it, and these leave the bucket; otherwise nothing leaves it.
pub proof fn law_bucket_is_exact(b: BucketView, now: int, bytes: u64)
    requires
        b.wf(),
        now >= b.last,
    ensures
        ({
            let (after, pace) = b.acquired(now, bytes as int);
            let gained = b.tokens + b.rate * (now - b.last);
            let held = if gained < b.rate * 1_000_000_000 {
                gained
            } else {
                b.rate * 1_000_000_000
            };
            let slice = if bytes < b.rate {
                bytes as int
            } else {
                b.rate
            };
            &&& after.rate == b.rate
            &&& after.last == now
            &&& pace is Granted <==> held >= slice * 1_000_000_000
            &&& held >= slice * 1_000_000_000 ==> pace == Pace::Granted((bytes - slice) as u64)
                && after.tokens == held - slice * 1_000_000_000
            &&& held < slice * 1_000_000_000 ==> after.tokens == held
        }),
{
    assert(b.rate * 0 == 0);
    assert(now == b.last ==> b.rate * (now - b.last) == 0) by (nonlinear_arith);
}

/// A wait is as long as needed, but at most a quarter of a second: a shorter one is
/// enough for what is missing, and one nanosecond less would not be.
pub proof fn law_wait_is_exact(b: BucketView, now: int, bytes: u64)
    requires
        b.wf(),
    ensures
        ({
            let (after, pace) = b.acquired(now, bytes as int);
            let slice = if bytes < b.rate {
                bytes as int
            } else {
                b.rate
            };
            let missing = slice * 1_000_000_000 - after.tokens;
            pace matches Pace::Wait(nanos) ==> {
                &&& missing > 0
                &&& 0 < nanos <= 250_000_000
                &&& b.rate * (nanos - 1) < missing
                &&& nanos < 250_000_000 ==> b.rate * nanos >= missing
            }
        }),
{
    lemma_filled(b, now);
    let full = b.filled(now);
    let slice = full.slice(bytes as int);
    let rate = full.rate;
    let missing = slice * BILLION - full.tokens;
    if missing > 0 {
        let wait = full.shortfall(bytes as int);
        assert(wait > 0 && rate * wait >= missing && rate * (wait - 1) < missing)
            by (nonlinear_arith)
            requires
                rate > 0,
                missing > 0,
                wait == (missing + rate - 1) / rate,
        ;
        if wait >= MAX_WAIT {
            let most = MAX_WAIT as int;
            assert(rate * (most - 1) <= rate * (wait - 1)) by (nonlinear_arith)
                requires
                    rate > 0,
                    most <= wait,
            ;
        }
    }
}

/// A moment that lies before the last one fills nothing.
pub proof fn law_time_does_not_run_back(b: BucketView, now: int, bytes: u64)
    requires
        b.wf(),
        now <= b.last,
    ensures
        b.acquired(now, bytes as int) == b.acquired(b.last, bytes as int),
{
}

/// A cap of so many KiB per second is that many times 1024 bytes; a cap of 0 is none. A
/// new bucket is full, so that one second's worth goes through at once.
pub proof fn law_new_bucket_is_full(kib: u64, rate: Option<u128>, now: u64, bucket: Throttle)
    requires
        call_ensures(rate_of, (kib,), rate),
        rate matches Some(bytes) ==> call_ensures(Throttle::new, (bytes, now), bucket),
    ensures
        kib == 0 <==> rate is None,
        rate matches Some(bytes) ==> {
            &&& bytes == kib * 1024
            &&& bucket.wf()
            &&& bucket@.rate == kib * 1024
            &&& bucket@.tokens == kib * 1024 * 1_000_000_000
            &&& bucket@.last == now
        },
{
}

/// A try at a bucket is granted what the bucket holds at that moment, and no more.
pub proof fn law_acquire_goes_by_bucket(now: u64, bytes: u64, r: Pace)
    ensures
        forall|t: &mut Throttle| #[trigger]
            call_ensures(Throttle::acquire, (t, now, bytes), r) ==> ((*final(t))@, r) == (
            *t)@.acquired(now as int, bytes as int) && (*final(t)).wf(),
{
}

} // verus!
