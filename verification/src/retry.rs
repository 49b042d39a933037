//! How long to wait before trying again.

use vstd::prelude::*;

verus! {

/// A span of time.
#[derive(Debug, Clone, Copy)]
pub struct Delay {
    /// The whole seconds.
    pub secs: u64,
    /// The milliseconds on top of them.
    pub millis: u32,
}

impl Delay {
    /// The span in milliseconds.
    pub open spec fn total(self) -> nat {
        self.secs as nat * 1000 + self.millis as nat
    }

    /// The span in milliseconds.
    pub fn as_millis(&self) -> (r: u128)
        ensures
            r == self.total(),
    {
        self.secs as u128 * 1000 + self.millis as u128
    }

    /// The whole seconds of the span, where the milliseconds make up none.
    pub fn as_secs(&self) -> (r: u64)
        requires
            self.millis < 1000,
        ensures
            r == self.total() / 1000,
    {
        self.secs
    }
}

/// After how many attempts the wait no longer grows.
pub const MAX_DOUBLINGS: u32 = 6;

/// The jitter stays below this many milliseconds.
pub const JITTER_MILLIS: u64 = 500;

/// A power of two.
pub open spec fn two_to(n: nat) -> nat
    decreases n,
{
    if n == 0 {
        1
    } else {
        2 * two_to((n - 1) as nat)
    }
}

/// The whole seconds of the wait before an attempt, without jitter: twice as many
/// for each attempt, up to a limit.
pub open spec fn base_secs(attempt: u32) -> nat {
    two_to(
        if attempt < MAX_DOUBLINGS {
            attempt as nat
        } else {
            MAX_DOUBLINGS as nat
        },
    )
}

/// The milliseconds of the wait before an attempt: the base and the jitter, or
/// what the server asked for where that is longer.
pub open spec fn wait_millis(attempt: u32, retry_after: Option<u64>, random: u64) -> nat {
    let computed = base_secs(attempt) * 1000 + (random % JITTER_MILLIS) as nat;
    match retry_after {
        Some(secs) if secs as nat * 1000 > computed => secs as nat * 1000,
        _ => computed,
    }
}

/// The seconds that double.
fn base(attempt: u32) -> (r: u64)
    ensures
        r == base_secs(attempt),
        r <= 64,
{
    let n: u32 = if attempt < MAX_DOUBLINGS {
        attempt
    } else {
        MAX_DOUBLINGS
    };
    let mut r: u64 = 1;
    let mut i: u32 = 0;
    proof {
        reveal_with_fuel(two_to, 7);
    }
    while i < n
        invariant
            i <= n,
            n <= MAX_DOUBLINGS,
            r == two_to(i as nat),
            r <= 64,
        decreases n - i,
    {
        proof {
            reveal_with_fuel(two_to, 7);
        }
        r = 2 * r;
        i = i + 1;
    }
    r
}

/// The wait before an attempt, by a random number.
pub fn backoff_with(attempt: u32, retry_after: Option<u64>, random: u64) -> (r: Delay)
    ensures
        r.total() == wait_millis(attempt, retry_after, random),
        r.millis < 1000,
{
    let secs: u64 = base(attempt);
    let jitter: u32 = (random % JITTER_MILLIS) as u32;
    match retry_after {
        Some(asked) if asked > secs => Delay { secs: asked, millis: 0 },
        _ => Delay { secs, millis: jitter },
    }
}

/// `rand::random`. The number may be any.
#[verifier::external_body]
fn random_u64() -> (r: u64) {
    rand::random::<u64>()
}

/// Exponential backoff with jitter; honours `retry_after` seconds if given.
pub fn backoff(attempt: u32, retry_after: Option<u64>) -> (r: Delay)
    ensures
        exists|random: u64| r.total() == #[trigger] wait_millis(attempt, retry_after, random),
        r.millis < 1000,
{
    let random: u64 = random_u64();
    backoff_with(attempt, retry_after, random)
}

/// The seconds that the server asked for.
pub open spec fn asked_secs(retry_after: Option<u64>) -> nat {
    match retry_after {
        Some(secs) => secs as nat,
        None => 0,
    }
}

/// The wait is never shorter than the server asked for, nor than the base. Where the
/// server asked for more than the base it is that; else it is less than half a
/// second above the base.
pub proof fn law_backoff_bounds(attempt: u32, retry_after: Option<u64>, random: u64)
    ensures
        ({
            let wait = wait_millis(attempt, retry_after, random);
            let asked = asked_secs(retry_after);
            let base = base_secs(attempt);
            &&& wait >= base * 1000
            &&& wait >= asked * 1000
            &&& asked > base ==> wait == asked * 1000
            &&& asked <= base ==> wait < base * 1000 + JITTER_MILLIS
        }),
{
}

/// The base doubles from attempt to attempt, up to 64 seconds.
pub proof fn law_backoff_doubles(attempt: u32)
    ensures
        attempt < MAX_DOUBLINGS ==> base_secs((attempt + 1) as u32) == 2 * base_secs(attempt),
        attempt >= MAX_DOUBLINGS ==> base_secs(attempt) == 64,
        1 <= base_secs(attempt) <= 64,
{
    reveal_with_fuel(two_to, 7);
}

/// The wait before an attempt, to the millisecond. It begins with one second and doubles
/// six times; up to half a second is added by chance. Where the server asked for more
/// than the whole seconds of it, the wait is what the server asked for.
pub proof fn law_wait_before_attempt(attempt: u32, retry_after: Option<u64>, random: u64)
    ensures
        ({
            let wait = wait_millis(attempt, retry_after, random);
            let next = wait_millis((attempt + 1) as u32, None, random);
            let alone = wait_millis(attempt, None, random);
            let chance = (random % 500) as nat;
            &&& attempt == 0 ==> alone == 1000 + chance
            &&& attempt < 6 ==> next == 2 * alone - chance
            &&& attempt >= 6 ==> alone == 64_000 + chance
            &&& retry_after is None ==> wait == alone
            &&& retry_after matches Some(secs) ==> secs * 1000 <= alone ==> wait == alone
            &&& retry_after matches Some(secs) ==> secs * 1000 > alone ==> wait == secs * 1000
        }),
{
    reveal_with_fuel(two_to, 8);
}

/// The wait before an attempt, whatever chance adds: at least one second doubled as often
/// as attempts have failed, up to 64, less than half a second more than that, and never
/// less than the server asked for.
pub proof fn law_backoff_grows(attempt: u32, retry_after: Option<u64>, r: Delay)
    requires
        call_ensures(backoff, (attempt, retry_after), r),
    ensures
        attempt == 0 ==> r.total() >= 1000,
        attempt == 1 ==> r.total() >= 2000,
        attempt == 2 ==> r.total() >= 4000,
        attempt == 3 ==> r.total() >= 8000,
        attempt == 4 ==> r.total() >= 16_000,
        attempt == 5 ==> r.total() >= 32_000,
        attempt >= 6 ==> r.total() >= 64_000,
        retry_after is None ==> {
            &&& attempt == 0 ==> r.total() < 1500
            &&& attempt == 1 ==> r.total() < 2500
            &&& attempt == 2 ==> r.total() < 4500
            &&& attempt == 3 ==> r.total() < 8500
            &&& attempt == 4 ==> r.total() < 16_500
            &&& attempt == 5 ==> r.total() < 32_500
            &&& r.total() < 64_500
        },
        retry_after matches Some(secs) ==> r.total() >= secs * 1000 && (r.total() == secs * 1000
            || r.total() < 64_500),
        r.total() == r.secs * 1000 + r.millis,
{
    reveal_with_fuel(two_to, 7);
    let random = choose|random: u64|
        r.total() == #[trigger] wait_millis(attempt, retry_after, random);
    assert(random % 500 < 500);
}

} // verus!
