//! A byte budget that is renewed once per cycle.
use vstd::prelude::*;

use crate::time::{Clock, Duration, Instant};
use crate::transmit::{respond, Transmit, UdpTransmit};

verus! {

/// What a [`JlsRateLimiter`] knows, in mathematical integers.
pub struct LimiterView {
    /// When the running cycle began.
    pub last_cycle: int,
    /// Bytes admitted in the running cycle.
    pub data_handled: nat,
    /// Length of a cycle in nanoseconds.
    pub cycle_period: nat,
    /// Budget of a cycle.
    pub bytes_per_cycle: nat,
}

impl LimiterView {
    /// Whether the running cycle has come to its end at `now`.
    pub open spec fn cycle_over(self, now: int) -> bool {
        crate::time::elapsed(now, self.last_cycle) >= self.cycle_period
    }

    /// The limiter at `now`, before anything is offered: a cycle that has come
    /// to its end gives way to one that begins at `now` with nothing admitted.
    pub open spec fn rolled(self, now: int) -> LimiterView {
        if self.cycle_over(now) {
            LimiterView { last_cycle: now, data_handled: 0, ..self }
        } else {
            self
        }
    }

    /// Whether `size` bytes offered at `now` still fit into the budget.
    pub open spec fn admits(self, size: nat, now: int) -> bool {
        self.rolled(now).data_handled + size <= self.bytes_per_cycle
    }

    /// The limiter after `size` bytes were offered at `now`.
    pub open spec fn offered(self, size: nat, now: int) -> LimiterView {
        let rolled = self.rolled(now);
        if self.admits(size, now) {
            LimiterView { data_handled: rolled.data_handled + size, ..rolled }
        } else {
            rolled
        }
    }

    /// Whether the count of bytes stays within a machine word when `size` more
    /// are added at `now`.
    pub open spec fn countable(self, size: nat, now: int) -> bool {
        self.rolled(now).data_handled + size <= usize::MAX
    }

    /// No more is admitted in the running cycle than the budget allows.
    pub open spec fn within_budget(self) -> bool {
        self.data_handled <= self.bytes_per_cycle
    }
}

/// Admits datagrams as long as the bytes admitted in the running cycle stay
/// within a budget.
#[derive(Debug)]
pub struct JlsRateLimiter {
    last_cycle: Instant,
    data_handled: usize,
    cycle_period: Duration,
    /// Budget of a cycle.
    pub bytes_per_cycle: usize,
}

impl View for JlsRateLimiter {
    type V = LimiterView;

    closed spec fn view(&self) -> LimiterView {
        LimiterView {
            last_cycle: self.last_cycle@,
            data_handled: self.data_handled as nat,
            cycle_period: self.cycle_period@,
            bytes_per_cycle: self.bytes_per_cycle as nat,
        }
    }
}

impl JlsRateLimiter {
    /// A limiter whose first cycle begins at `start`, with nothing admitted.
    pub fn starting_at(start: Instant, cycle_period: Duration, bytes_per_cycle: usize) -> (limiter:
        JlsRateLimiter)
        ensures
            limiter@ == (LimiterView {
                last_cycle: start@,
                data_handled: 0,
                cycle_period: cycle_period@,
                bytes_per_cycle: bytes_per_cycle as nat,
            }),
    {
        JlsRateLimiter { last_cycle: start, data_handled: 0, cycle_period, bytes_per_cycle }
    }

    /// A limiter whose first cycle begins at the moment of the call, as `clock`
    /// tells it, with nothing admitted. Which reading that is, is up to the clock;
    /// [`starting_at`](Self::starting_at) takes it as an argument.
    pub fn new(clock: &Clock, cycle_period: Duration, bytes_per_cycle: usize) -> (limiter:
        JlsRateLimiter)
        ensures
            limiter@.data_handled == 0,
            limiter@.cycle_period == cycle_period@,
            limiter@.bytes_per_cycle == bytes_per_cycle,
            exists|start: Instant| #[trigger]
                call_ensures(Clock::now, (clock,), start) && limiter@.last_cycle == start@,
    {
        JlsRateLimiter::starting_at(clock.now(), cycle_period, bytes_per_cycle)
    }

    /// Offers `data_size` bytes at `now`. They are admitted, and counted, if
    /// they fit into what is left of the budget; otherwise the count stays.
    pub fn should_send(&mut self, data_size: usize, now: Instant) -> (admitted: bool)
        requires
            old(self)@.countable(data_size as nat, now@),
        ensures
            admitted == old(self)@.admits(data_size as nat, now@),
            final(self)@ == old(self)@.offered(data_size as nat, now@),
    {
        if now.duration_since(self.last_cycle).nanos >= self.cycle_period.nanos {
            self.data_handled = 0;
            self.last_cycle = now;
        }
        if self.data_handled + data_size > self.bytes_per_cycle {
            return false;
        }
        self.data_handled += data_size;
        true
    }

    /// Whether [`should_send`](Self::should_send) can count `data_size` more
    /// bytes at `now`.
    pub fn can_count(&self, data_size: usize, now: Instant) -> (can: bool)
        ensures
            can == self@.countable(data_size as nat, now@),
    {
        let handled: usize = if now.duration_since(self.last_cycle).nanos
            >= self.cycle_period.nanos {
            0
        } else {
            self.data_handled
        };
        data_size <= usize::MAX - handled
    }

    /// Offers the whole of `buf` at `now`. If it is admitted, the datagram to
    /// send comes back: the front of `buf`, as much of it as `trans` asks for.
    pub fn try_send<'a>(&mut self, buf: &'a [u8], trans: Transmit, now: Instant) -> (datagram:
        Option<UdpTransmit<'a>>)
        requires
            old(self)@.countable(buf@.len(), now@),
            old(self)@.admits(buf@.len(), now@) ==> trans.size <= buf@.len(),
        ensures
            datagram is Some <==> old(self)@.admits(buf@.len(), now@),
            datagram matches Some(datagram) ==> datagram.carries(
                trans,
                buf@.take(trans.size as int),
            ),
            final(self)@ == old(self)@.offered(buf@.len(), now@),
    {
        if self.should_send(buf.len(), now) {
            return Some(respond(trans, buf));
        }
        None
    }
}

/// An offer to a limiter: so many bytes, at such a time.
pub struct Offer {
    /// Bytes offered.
    pub size: nat,
    /// When they are offered.
    pub now: int,
}

impl LimiterView {
    /// The limiter after a series of offers, first to last.
    pub open spec fn after(self, offers: Seq<Offer>) -> LimiterView
        decreases offers.len(),
    {
        if offers.len() == 0 {
            self
        } else {
            self.after(offers.drop_last()).offered(offers.last().size, offers.last().now)
        }
    }

    /// The bytes that a limiter admits in all out of a series of offers.
    pub open spec fn admitted(self, offers: Seq<Offer>) -> nat
        decreases offers.len(),
    {
        if offers.len() == 0 {
            0
        } else {
            let before = self.after(offers.drop_last());
            let last = offers.last();
            self.admitted(offers.drop_last()) + if before.admits(last.size, last.now) {
                last.size
            } else {
                0
            }
        }
    }

    /// How many of a series of offers begin a new cycle.
    pub open spec fn renewals(self, offers: Seq<Offer>) -> nat
        decreases offers.len(),
    {
        if offers.len() == 0 {
            0
        } else {
            let before = self.after(offers.drop_last());
            self.renewals(offers.drop_last()) + if before.cycle_over(offers.last().now) {
                1nat
            } else {
                0
            }
        }
    }
}

/// An offer, admitted or refused, leaves the length of a cycle and its budget
/// alone, and never carries the count of the running cycle over the budget.
pub proof fn offer_keeps_budget(limiter: LimiterView, size: nat, now: int)
    ensures
        limiter.offered(size, now).cycle_period == limiter.cycle_period,
        limiter.offered(size, now).bytes_per_cycle == limiter.bytes_per_cycle,
        limiter.within_budget() ==> limiter.offered(size, now).within_budget(),
{
}

/// A refused offer has no effect within its cycle: whatever is offered next is
/// treated as if the refused offer had not been made.
pub proof fn refusal_leaves_cycle_alone(limiter: LimiterView, size: nat, now: int)
    requires
        !limiter.admits(size, now),
    ensures
        limiter.offered(size, now) == limiter.rolled(now),
        !limiter.cycle_over(now) ==> limiter.offered(size, now) == limiter,
{
}

/// Once a full cycle has gone by, the whole budget is there again: an offer is
/// admitted exactly if it is no larger than the budget.
pub proof fn full_cycle_renews_budget(limiter: LimiterView, size: nat, now: int)
    requires
        now >= limiter.last_cycle + limiter.cycle_period,
    ensures
        limiter.admits(size, now) <==> size <= limiter.bytes_per_cycle,
{
}

/// Before a period has gone by, an offer gets what is left of the budget: it is
/// admitted exactly if the count and the offer together stay within the budget,
/// the count then grows by the offer, and the cycle goes on as it began.
pub proof fn running_cycle_gives_what_is_left(limiter: LimiterView, size: nat, now: int)
    requires
        limiter.cycle_period > 0,
        now < limiter.last_cycle + limiter.cycle_period,
    ensures
        limiter.admits(size, now) <==> limiter.data_handled + size <= limiter.bytes_per_cycle,
        limiter.admits(size, now) ==> limiter.offered(size, now).data_handled
            == limiter.data_handled + size,
        !limiter.admits(size, now) ==> limiter.offered(size, now).data_handled
            == limiter.data_handled,
        limiter.offered(size, now).last_cycle == limiter.last_cycle,
        limiter.countable(size, now) <==> limiter.data_handled + size <= usize::MAX,
{
}

/// Once a period has gone by, and always where a period has no length, an offer
/// begins a cycle of its own: the cycle begins when the offer is made, and counts
/// that offer, if it is admitted, and nothing of what was before.
pub proof fn ended_cycle_starts_over(limiter: LimiterView, size: nat, now: int)
    requires
        now >= limiter.last_cycle + limiter.cycle_period || limiter.cycle_period == 0,
    ensures
        limiter.admits(size, now) <==> size <= limiter.bytes_per_cycle,
        limiter.admits(size, now) ==> limiter.offered(size, now).data_handled == size,
        !limiter.admits(size, now) ==> limiter.offered(size, now).data_handled == 0,
        limiter.offered(size, now).last_cycle == now,
        limiter.countable(size, now) <==> size <= usize::MAX,
{
}

/// An offer larger than the budget is refused at any time.
pub proof fn oversize_is_refused(limiter: LimiterView, size: nat, now: int)
    requires
        size > limiter.bytes_per_cycle,
    ensures
        !limiter.admits(size, now),
{
}

/// Where an offer is admitted, any smaller offer would have been, too.
pub proof fn admission_is_monotone(limiter: LimiterView, smaller: nat, size: nat, now: int)
    requires
        smaller <= size,
        limiter.admits(size, now),
    ensures
        limiter.admits(smaller, now),
{
}

/// A count within the budget can go on as long as budget and offer together fit
/// into a machine word.
pub proof fn budget_bounds_count(limiter: LimiterView, size: nat, now: int)
    requires
        limiter.within_budget(),
        limiter.bytes_per_cycle + size <= usize::MAX,
    ensures
        limiter.countable(size, now),
{
}

/// Accounting over a series of offers: every cycle begun adds at most one
/// budget, and takes at least one period.
proof fn lemma_accounts(limiter: LimiterView, offers: Seq<Offer>)
    requires
        limiter.within_budget(),
        limiter.cycle_period > 0,
    ensures
        ({
            let end = limiter.after(offers);
            let renewals = limiter.renewals(offers);
            &&& end.within_budget()
            &&& end.cycle_period == limiter.cycle_period
            &&& end.bytes_per_cycle == limiter.bytes_per_cycle
            &&& limiter.data_handled + limiter.admitted(offers) <= renewals
                * limiter.bytes_per_cycle + end.data_handled
            &&& limiter.last_cycle + renewals * limiter.cycle_period <= end.last_cycle
        }),
    decreases offers.len(),
{
    if offers.len() > 0 {
        let front = offers.drop_last();
        lemma_accounts(limiter, front);
        let renewals = limiter.renewals(front) as int;
        let budget = limiter.bytes_per_cycle as int;
        let period = limiter.cycle_period as int;
        assert((renewals + 1) * budget == renewals * budget + budget) by (nonlinear_arith);
        assert((renewals + 1) * period == renewals * period + period) by (nonlinear_arith);
    }
}

/// Within a cycle, the first one of a new limiter as any other, offers add up: as
/// long as none begins a new cycle, the count grows by what is admitted of them.
/// Where nothing was counted before, the count is what is admitted of them.
pub proof fn count_is_sum_within_cycle(limiter: LimiterView, offers: Seq<Offer>)
    requires
        limiter.renewals(offers) == 0,
    ensures
        limiter.after(offers).data_handled == limiter.data_handled + limiter.admitted(offers),
        limiter.data_handled == 0 ==> limiter.after(offers).data_handled == limiter.admitted(
            offers,
        ),
        limiter.after(offers).last_cycle == limiter.last_cycle,
    decreases offers.len(),
{
    if offers.len() > 0 {
        count_is_sum_within_cycle(limiter, offers.drop_last());
    }
}

/// The count is the sum of what was admitted since the running cycle began: if an
/// offer begins a cycle and none of those behind it does, the count after all of
/// them is what is admitted of that offer and of those behind it, and the cycle
/// began when that offer was made.
pub proof fn count_is_sum_since_renewal(limiter: LimiterView, first: Offer, rest: Seq<Offer>)
    requires
        limiter.cycle_over(first.now),
        limiter.offered(first.size, first.now).renewals(rest) == 0,
    ensures
        ({
            let begun = limiter.offered(first.size, first.now);
            let of_first = if limiter.admits(first.size, first.now) {
                first.size
            } else {
                0
            };
            &&& begun.after(rest).data_handled == of_first + begun.admitted(rest)
            &&& begun.after(rest).last_cycle == first.now
        }),
{
    count_is_sum_within_cycle(limiter.offered(first.size, first.now), rest);
}

/// An offer can be split: at one and the same time two offers are both admitted
/// exactly if one of their joint size would be, and they leave the limiter as
/// that one would.
pub proof fn offer_can_be_split(limiter: LimiterView, first: nat, second: nat, now: int)
    requires
        limiter.cycle_period > 0,
    ensures
        limiter.admits(first + second, now) <==> limiter.admits(first, now) && limiter.offered(
            first,
            now,
        ).admits(second, now),
        limiter.admits(first + second, now) ==> limiter.offered(first, now).offered(second, now)
            == limiter.offered(first + second, now),
{
}

/// Within a window no longer than a period at most one offer begins a new cycle.
proof fn lemma_one_renewal(limiter: LimiterView, offers: Seq<Offer>, start: int)
    requires
        limiter.cycle_period > 0,
        forall|i: int|
            0 <= i < offers.len() ==> start <= (#[trigger] offers[i]).now < start
                + limiter.cycle_period,
    ensures
        limiter.after(offers).cycle_period == limiter.cycle_period,
        limiter.renewals(offers) <= 1,
        limiter.renewals(offers) == 1 ==> limiter.after(offers).last_cycle >= start,
    decreases offers.len(),
{
    if offers.len() > 0 {
        let front = offers.drop_last();
        assert forall|i: int| 0 <= i < front.len() implies start <= (#[trigger] front[i]).now
            < start + limiter.cycle_period by {
            assert(front[i] == offers[i]);
        }
        lemma_one_renewal(limiter, front, start);
        assert(start <= offers[offers.len() - 1].now < start + limiter.cycle_period);
    }
}

/// Two budgets bound any window of one period, wherever it lies and in whatever
/// order the clock readings in it come.
pub proof fn window_admits_two_budgets(limiter: LimiterView, offers: Seq<Offer>, start: int)
    requires
        limiter.within_budget(),
        limiter.cycle_period > 0,
        forall|i: int|
            0 <= i < offers.len() ==> start <= (#[trigger] offers[i]).now < start
                + limiter.cycle_period,
    ensures
        limiter.data_handled + limiter.admitted(offers) <= 2 * limiter.bytes_per_cycle,
{
    lemma_one_renewal(limiter, offers, start);
    lemma_accounts(limiter, offers);
    let renewals = limiter.renewals(offers) as int;
    let budget = limiter.bytes_per_cycle as int;
    assert(renewals * budget <= budget) by (nonlinear_arith)
        requires
            0 <= renewals <= 1,
            budget >= 0,
    ;
}

/// The running cycle never began later than the latest offer.
proof fn lemma_last_cycle_bound(limiter: LimiterView, offers: Seq<Offer>, end: int)
    requires
        limiter.last_cycle <= end,
        forall|i: int| 0 <= i < offers.len() ==> (#[trigger] offers[i]).now <= end,
    ensures
        limiter.after(offers).last_cycle <= end,
    decreases offers.len(),
{
    if offers.len() > 0 {
        let front = offers.drop_last();
        assert forall|i: int| 0 <= i < front.len() implies (#[trigger] front[i]).now <= end by {
            assert(front[i] == offers[i]);
        }
        lemma_last_cycle_bound(limiter, front, end);
        assert(offers[offers.len() - 1].now <= end);
    }
}

/// The limit holds over any stretch of time: whatever is offered up to `end`,
/// in whatever order the clock readings come, the bytes admitted since the
/// running cycle began stay within one budget for that cycle and one for each
/// full period that went by since.
pub proof fn admitted_bytes_are_bounded(limiter: LimiterView, offers: Seq<Offer>, end: int)
    requires
        limiter.within_budget(),
        limiter.cycle_period > 0,
        limiter.last_cycle <= end,
        forall|i: int| 0 <= i < offers.len() ==> (#[trigger] offers[i]).now <= end,
    ensures
        limiter.data_handled + limiter.admitted(offers) <= limiter.bytes_per_cycle * (1 + (end
            - limiter.last_cycle) / limiter.cycle_period as int),
{
    lemma_accounts(limiter, offers);
    lemma_last_cycle_bound(limiter, offers, end);
    let renewals = limiter.renewals(offers) as int;
    let budget = limiter.bytes_per_cycle as int;
    let period = limiter.cycle_period as int;
    let span = end - limiter.last_cycle;
    assert(renewals <= span / period) by (nonlinear_arith)
        requires
            renewals * period <= span,
            period > 0,
    ;
    let periods = span / period;
    assert(renewals * budget + budget <= budget * (1 + periods)) by (nonlinear_arith)
        requires
            renewals <= periods,
            budget >= 0,
    ;
}

} // verus!
