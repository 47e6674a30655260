//! Doing it again, but not straight away: how long to wait after each failure.

use vstd::prelude::*;

verus! {

/// How many times the client tries to reach a server before it gives up.
pub const ATTEMPTS: u32 = 5;

/// How long to wait after the first failure, in milliseconds. Every failure after that doubles
/// it.
pub const BASE_DELAY_MILLIS: u64 = 100;

/// Two to the power `n`.
pub open spec fn pow2(n: nat) -> nat
    decreases n,
{
    if n == 0 {
        1
    } else {
        2 * pow2((n - 1) as nat)
    }
}

/// The longest a `Duration` can be, in nanoseconds.
pub open spec fn max_duration_nanos() -> nat {
    18_446_744_073_709_551_615 * 1_000_000_000 + 999_999_999
}

/// The wait after failure number `attempt`, out of `attempts` allowed, if there is another try.
pub open spec fn backoff_spec(attempts: u32, attempt: u32, base: nat) -> Option<nat> {
    if attempt >= attempts {
        None
    } else {
        Some(base * pow2((attempt - 1) as nat))
    }
}

/// Whether the wait after failure number `attempt` can be computed without overflowing: the
/// doubling factor has to fit in a `u32` and the wait in a `Duration`.
pub open spec fn backoff_fits(attempts: u32, attempt: u32, base: nat) -> bool {
    attempt < attempts ==> attempt - 1 < 32 && base * pow2((attempt - 1) as nat)
        <= max_duration_nanos()
}

/// How long to wait, in nanoseconds, after failure number `attempt` (counting from one) of an
/// operation that may be tried `attempts` times, or `None` when that was the last try and its
/// error is what comes back. The wait after the first failure is `base_nanos`, and it doubles
/// after every failure after that.
pub fn backoff_delay(attempts: u32, attempt: u32, base_nanos: u128) -> (r: Option<u128>)
    requires
        attempt >= 1,
        backoff_fits(attempts, attempt, base_nanos as nat),
    ensures
        r matches Some(d) ==> backoff_spec(attempts, attempt, base_nanos as nat) == Some(d as nat),
        r is None ==> backoff_spec(attempts, attempt, base_nanos as nat) is None,
{
    if attempt >= attempts {
        return None;
    }
    let mut factor: u128 = 1;
    let mut k: u32 = 0;
    while k < attempt - 1
        invariant
            k <= attempt - 1 < 32,
            factor == pow2(k as nat),
            pow2(k as nat) <= 0x1_0000_0000,
        decreases attempt - 1 - k,
    {
        proof {
            lemma_pow2_monotone((k + 1) as nat, 32);
            lemma_pow2_32();
        }
        factor = factor * 2;
        k += 1;
    }
    proof {
        assert(base_nanos * factor <= max_duration_nanos());
    }
    Some(base_nanos * factor)
}

/// Where a retry loop stands: how many tries it may make, the first wait, and which try it is on.
pub struct Backoff {
    attempts: u32,
    base_nanos: u128,
    attempt: u32,
}

impl Backoff {
    /// How many tries may be made.
    pub closed spec fn attempts(&self) -> u32 {
        self.attempts
    }

    /// The wait after the first failure, in nanoseconds.
    pub closed spec fn base(&self) -> u128 {
        self.base_nanos
    }

    /// Which try is under way, counting from one.
    pub closed spec fn attempt(&self) -> u32 {
        self.attempt
    }

    /// A retry loop about to make its first try.
    pub fn new(attempts: u32, base_nanos: u128) -> (r: Self)
        ensures
            r.attempts() == attempts,
            r.base() == base_nanos,
            r.attempt() == 1,
    {
        Backoff { attempts, base_nanos, attempt: 1 }
    }

    /// The current try failed: how long to wait before the next one, or `None` when it was the
    /// last and its error is the one that comes back.
    pub fn on_failure(&mut self) -> (r: Option<u128>)
        requires
            old(self).attempt() >= 1,
            backoff_fits(old(self).attempts(), old(self).attempt(), old(self).base() as nat),
        ensures
            final(self).attempts() == old(self).attempts(),
            final(self).base() == old(self).base(),
            r matches Some(d) ==> backoff_spec(
                old(self).attempts(),
                old(self).attempt(),
                old(self).base() as nat,
            ) == Some(d as nat) && final(self).attempt() == old(self).attempt() + 1,
            r is None ==> backoff_spec(old(self).attempts(), old(self).attempt(), old(self).base() as nat) is None
                && final(self).attempt() == old(self).attempt(),
    {
        let delay = backoff_delay(self.attempts, self.attempt, self.base_nanos);
        if delay.is_some() {
            self.attempt = self.attempt + 1;
        }
        delay
    }
}

proof fn lemma_pow2_32()
    ensures
        pow2(32) == 0x1_0000_0000,
{
    reveal_with_fuel(pow2, 33);
}

proof fn lemma_pow2_monotone(a: nat, b: nat)
    requires
        a <= b,
    ensures
        pow2(a) <= pow2(b),
    decreases b,
{
    if a < b {
        lemma_pow2_monotone(a, (b - 1) as nat);
    }
}

/// The total wait before try number `n`: the waits after failures one to `n - 1`.
pub open spec fn total_wait(base: nat, n: nat) -> nat
    decreases n,
{
    if n <= 1 {
        0
    } else {
        total_wait(base, (n - 1) as nat) + base * pow2((n - 2) as nat)
    }
}

/// The waits add up to `base` times one less than a power of two: an operation that succeeds on
/// try `n` has waited `base * (2^(n-1) - 1)`, and one that fails all `attempts` tries has waited
/// `base * (2^(attempts-1) - 1)`, with nothing after the last try.
pub proof fn law_total_wait(base: nat, n: nat)
    requires
        n >= 1,
    ensures
        total_wait(base, n) == base * (pow2((n - 1) as nat) - 1),
    decreases n,
{
    if n > 1 {
        law_total_wait(base, (n - 1) as nat);
        let p = pow2((n - 2) as nat);
        lemma_pow2_monotone(0, (n - 2) as nat);
        assert(pow2((n - 1) as nat) == 2 * p);
        assert(total_wait(base, n) == base * (p - 1) + base * p);
        assert(base * (p - 1) + base * p == base * (2 * p - 1)) by (nonlinear_arith)
            requires
                p >= 1,
        ;
    } else {
        assert(pow2(0) == 1);
        assert(base * 0 == 0);
    }
}

/// The waits between tries are the ones `backoff_spec` hands out, one after each failure.
pub proof fn law_waits_are_the_backoffs(attempts: u32, base: nat, n: nat)
    requires
        2 <= n <= attempts,
    ensures
        total_wait(base, n) == total_wait(base, (n - 1) as nat) + backoff_spec(
            attempts,
            (n - 1) as u32,
            base,
        )->Some_0,
{
}

/// How a retry loop runs, from try number `attempt` on, having waited `waited` so far, when the
/// tries succeed as `outcomes` says (`outcomes[i]` is whether try `i + 1` succeeds): the number of
/// tries made, the total wait, and whether the last try succeeded. After each failure the loop
/// asks `backoff_spec` for the wait, and stops when there is none.
pub open spec fn run_retries(attempts: u32, base: nat, outcomes: Seq<bool>, attempt: nat, waited: nat) -> (
    nat,
    nat,
    bool,
)
    decreases attempts - attempt,
{
    if attempt < 1 || attempt > attempts || attempt > outcomes.len() {
        (attempt, waited, false)
    } else if outcomes[attempt - 1] {
        (attempt, waited, true)
    } else {
        match backoff_spec(attempts, attempt as u32, base) {
            None => (attempt, waited, false),
            Some(delay) => run_retries(attempts, base, outcomes, attempt + 1, waited + delay),
        }
    }
}

proof fn lemma_run_retries(attempts: u32, base: nat, outcomes: Seq<bool>, attempt: nat)
    requires
        1 <= attempt <= attempts,
        outcomes.len() >= attempts,
        forall|i: int| 0 <= i < attempt - 1 ==> !outcomes[i],
    ensures
        ({
            let (n, waited, succeeded) = run_retries(
                attempts,
                base,
                outcomes,
                attempt,
                total_wait(base, attempt),
            );
            &&& attempt <= n <= attempts
            &&& forall|i: int| 0 <= i < n - 1 ==> !outcomes[i]
            &&& n < attempts ==> outcomes[n - 1]
            &&& succeeded == outcomes[n - 1]
            &&& waited == total_wait(base, n)
        }),
    decreases attempts - attempt,
{
    if !outcomes[attempt - 1] && attempt < attempts {
        assert(total_wait(base, attempt + 1) == total_wait(base, attempt) + base * pow2(
            (attempt - 1) as nat,
        ));
        assert forall|i: int| 0 <= i < attempt + 1 - 1 implies !outcomes[i] by {
            if i < attempt - 1 {
            } else {
                assert(i == attempt - 1);
            }
        }
        lemma_run_retries(attempts, base, outcomes, attempt + 1);
    }
}

/// What a retry loop does as a whole: with `outcomes` saying which tries would succeed, it makes
/// `n` tries, where `n` is the first try that succeeds or `attempts`, whichever comes first; every
/// try before the last failed; what comes back is the last try's outcome, its value or its error;
/// and the total wait is `base * (2^(n-1) - 1)`, with nothing after the last try. One attempt, or
/// success at once, means one call and no wait.
pub proof fn law_retry_loop(attempts: u32, base: nat, outcomes: Seq<bool>)
    requires
        attempts >= 1,
        outcomes.len() >= attempts,
    ensures
        ({
            let (n, waited, succeeded) = run_retries(attempts, base, outcomes, 1, 0);
            &&& 1 <= n <= attempts
            &&& forall|i: int| 0 <= i < n - 1 ==> !outcomes[i]
            &&& n < attempts ==> outcomes[n - 1]
            &&& succeeded == outcomes[n - 1]
            &&& waited == base * (pow2((n - 1) as nat) - 1)
            &&& (attempts == 1 || outcomes[0]) ==> n == 1 && waited == 0
        }),
{
    assert(total_wait(base, 1) == 0);
    lemma_run_retries(attempts, base, outcomes, 1);
    let n = run_retries(attempts, base, outcomes, 1, 0).0;
    law_total_wait(base, n);
}

} // verus!
