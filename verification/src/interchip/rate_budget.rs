//! A steady rate with bounded bursts.

use vstd::prelude::*;

verus! {

/// Credit that refills with time and is spent in fixed intervals.
#[derive(Clone, Copy, Debug, PartialEq, Eq, Structural)]
pub struct FixedIntervalBudget {
    interval_us: u64,
    credit_us: u64,
    last_refill_us: u64,
    max_credit_us: u64,
}

/// What a budget has.
pub struct BudgetView {
    pub interval_us: u64,
    pub credit_us: u64,
    pub last_refill_us: u64,
    pub max_credit_us: u64,
}

impl View for FixedIntervalBudget {
    type V = BudgetView;

    closed spec fn view(&self) -> BudgetView {
        BudgetView {
            interval_us: self.interval_us,
            credit_us: self.credit_us,
            last_refill_us: self.last_refill_us,
            max_credit_us: self.max_credit_us,
        }
    }
}

/// The smaller of the two.
pub open spec fn least(a: int, b: int) -> int {
    if a < b {
        a
    } else {
        b
    }
}

impl BudgetView {
    /// The credit at `now_us`: what was there and the time since the last
    /// refill, up to the most that may be saved.
    pub open spec fn credit_at(self, now_us: u64) -> int {
        least(
            least(self.credit_us + now_us.saturating_sub(self.last_refill_us), u64::MAX as int),
            self.max_credit_us as int,
        )
    }

    /// Whether one interval can be spent at `now_us`.
    pub open spec fn affords(self, now_us: u64) -> bool {
        self.credit_at(now_us) >= self.interval_us
    }

    /// The budget after one was asked for at `now_us`.
    pub open spec fn after(self, now_us: u64) -> BudgetView {
        BudgetView {
            interval_us: self.interval_us,
            credit_us: if self.affords(now_us) {
                (self.credit_at(now_us) - self.interval_us) as u64
            } else {
                self.credit_at(now_us) as u64
            },
            last_refill_us: now_us,
            max_credit_us: self.max_credit_us,
        }
    }
}

impl FixedIntervalBudget {
    /// A budget of one interval that can save up to `max_burst` of them.
    pub fn new(now_us: u64, interval_us: u64, max_burst: u8) -> (r: Self)
        ensures
            r@ == (BudgetView {
                interval_us,
                credit_us: interval_us,
                last_refill_us: now_us,
                max_credit_us: least(interval_us * max_burst, u64::MAX as int) as u64,
            }),
    {
        assert(interval_us * max_burst <= 0xffff_ffff_ffff_ffff * 255) by (nonlinear_arith)
            requires
                interval_us <= 0xffff_ffff_ffff_ffff,
                max_burst <= 255,
        ;
        assert(0 <= interval_us * max_burst) by (nonlinear_arith)
            requires
                0 <= interval_us,
                0 <= max_burst,
        ;
        let product: u128 = (interval_us as u128) * (max_burst as u128);
        let max_credit_us: u64 = if product > 0xffff_ffff_ffff_ffffu128 {
            u64::MAX
        } else {
            product as u64
        };
        Self { interval_us, credit_us: interval_us, last_refill_us: now_us, max_credit_us }
    }

    /// Spends one interval, if there is enough credit.
    pub fn try_take(&mut self, now_us: u64) -> (r: bool)
        ensures
            r == old(self)@.affords(now_us),
            final(self)@ == old(self)@.after(now_us),
    {
        let elapsed: u64 = now_us.saturating_sub(self.last_refill_us);
        self.last_refill_us = now_us;
        let refilled: u64 = self.credit_us.saturating_add(elapsed);
        self.credit_us = if refilled < self.max_credit_us {
            refilled
        } else {
            self.max_credit_us
        };
        if self.credit_us < self.interval_us {
            return false;
        }
        self.credit_us -= self.interval_us;
        true
    }
}

/// A clock that goes back creates no credit.
pub proof fn law_backward_clock_creates_no_credit(b: BudgetView, now_us: u64)
    requires
        now_us <= b.last_refill_us,
    ensures
        b.credit_at(now_us) <= b.credit_us,
{
}

/// However long nothing was spent, no more is there than the burst allows.
pub proof fn law_credit_is_bounded(b: BudgetView, now_us: u64)
    ensures
        b.after(now_us).credit_us <= b.max_credit_us,
{
}

/// The budget after it was asked at each of these times.
pub open spec fn after_all(b: BudgetView, times: Seq<u64>) -> BudgetView
    decreases times.len(),
{
    if times.len() == 0 {
        b
    } else {
        after_all(b, times.drop_last()).after(times.last())
    }
}

/// How often it was granted then.
pub open spec fn granted(b: BudgetView, times: Seq<u64>) -> nat
    decreases times.len(),
{
    if times.len() == 0 {
        0
    } else {
        granted(b, times.drop_last()) + (if after_all(b, times.drop_last()).affords(times.last()) {
            1nat
        } else {
            0
        })
    }
}

/// Whether the times do not go back.
pub open spec fn in_order(times: Seq<u64>) -> bool {
    forall|i: int, j: int| 0 <= i <= j < times.len() ==> #[trigger] times[i] <= #[trigger] times[j]
}

proof fn lemma_granted(b: BudgetView, times: Seq<u64>)
    requires
        times.len() > 0,
        in_order(times),
    ensures
        ({
            let end = after_all(b, times);
            &&& end.interval_us == b.interval_us
            &&& end.max_credit_us == b.max_credit_us
            &&& end.last_refill_us == times.last()
            &&& granted(b, times) * b.interval_us + end.credit_us <= b.credit_at(times[0])
                + (times.last() - times[0])
        }),
    decreases times.len(),
{
    let rest = times.drop_last();
    let before = after_all(b, rest);
    let n = granted(b, rest) as int;
    let interval = b.interval_us as int;
    assert((n + 1) * interval == n * interval + interval) by (nonlinear_arith);
    if rest.len() > 0 {
        assert(in_order(rest));
        lemma_granted(b, rest);
        assert(rest[0] == times[0]);
        assert(rest.last() == times[times.len() - 2]);
        assert(rest.last() <= times.last());
    } else {
        assert(times.last() == times[0]);
        assert(n == 0);
        assert(0 * interval == 0);
        assert(after_all(b, rest) == b);
    }
}

/// Of the requests in any stretch of time, as long as the clock does not go
/// back in it, no more are granted than the burst and one for each interval
/// that passes.
pub proof fn law_rate_is_bounded(b: BudgetView, times: Seq<u64>, burst: nat)
    requires
        times.len() > 0,
        in_order(times),
        b.interval_us > 0,
        b.max_credit_us <= b.interval_us * burst,
    ensures
        granted(b, times) * b.interval_us <= b.max_credit_us + (times.last() - times[0]),
        granted(b, times) <= burst + (times.last() - times[0]) / (b.interval_us as int),
{
    lemma_granted(b, times);
    let n = granted(b, times) as int;
    let interval = b.interval_us as int;
    let passed = times.last() - times[0];
    let k = passed / interval;
    assert(times[0] <= times[times.len() - 1]);
    vstd::arithmetic::div_mod::lemma_fundamental_div_mod(passed, interval);
    vstd::arithmetic::div_mod::lemma_mod_bound(passed, interval);
    assert(n <= burst + k) by (nonlinear_arith)
        requires
            n * interval <= interval * burst + passed,
            passed < interval * k + interval,
            interval > 0,
    ;
}

/// Requests that are an interval apart are all granted, once the first is.
pub proof fn law_paced_requests_are_granted(b: BudgetView, times: Seq<u64>)
    requires
        b.interval_us <= b.max_credit_us,
        times.len() > 0,
        b.affords(times[0]),
        forall|i: int, j: int|
            0 <= i < j < times.len() ==> #[trigger] times[j] - #[trigger] times[i] >= b.interval_us,
    ensures
        granted(b, times) == times.len(),
        after_all(b, times).last_refill_us == times.last(),
        after_all(b, times).interval_us == b.interval_us,
        after_all(b, times).max_credit_us == b.max_credit_us,
    decreases times.len(),
{
    let rest = times.drop_last();
    if rest.len() > 0 {
        law_paced_requests_are_granted(b, rest);
        assert(rest.last() == times[times.len() - 2]);
    } else {
        assert(after_all(b, rest) == b);
        assert(granted(b, rest) == 0);
    }
}

/// What was saved can be spent at once: as many requests at one time are granted
/// as there are intervals in the credit, and not one more.
pub proof fn law_what_was_saved_is_granted(b: BudgetView, now_us: u64, times: Seq<u64>)
    requires
        b.interval_us > 0,
        forall|i: int| 0 <= i < times.len() ==> #[trigger] times[i] == now_us,
    ensures
        times.len() * b.interval_us <= b.credit_at(now_us) ==> granted(b, times) == times.len(),
        times.len() * b.interval_us > b.credit_at(now_us) ==> granted(b, times) < times.len(),
{
    let n = times.len() as int;
    let interval = b.interval_us as int;
    if n * interval <= b.credit_at(now_us) {
        lemma_spent_at_once(b, now_us, times);
    } else if n > 0 {
        lemma_granted(b, times);
        assert(times[0] == now_us && times[n - 1] == now_us);
        let g = granted(b, times) as int;
        assert(g < n) by (nonlinear_arith)
            requires
                g * interval < n * interval,
                interval > 0,
        ;
    } else {
        assert(0 * interval == 0);
    }
}

proof fn lemma_spent_at_once(b: BudgetView, now_us: u64, times: Seq<u64>)
    requires
        forall|i: int| 0 <= i < times.len() ==> #[trigger] times[i] == now_us,
        times.len() * b.interval_us <= b.credit_at(now_us),
    ensures
        granted(b, times) == times.len(),
        after_all(b, times).interval_us == b.interval_us,
        after_all(b, times).max_credit_us == b.max_credit_us,
        after_all(b, times).credit_at(now_us) == b.credit_at(now_us) - times.len() * b.interval_us,
    decreases times.len(),
{
    let n = times.len() as int;
    let interval = b.interval_us as int;
    if n > 0 {
        let rest = times.drop_last();
        assert((n - 1) * interval == n * interval - interval) by (nonlinear_arith);
        lemma_spent_at_once(b, now_us, rest);
        assert(times.last() == now_us);
    } else {
        assert(0 * interval == 0);
    }
}

} // verus!
