//! What holds of the forwarding as a whole.
use vstd::prelude::*;

use crate::addr::SocketAddr;
use crate::forward::{
    cycle_budget, ForwardOutcome, JlsForwardConnection, JlsState, RecvMeta, RATE_LIMIT_CYCLE_MILLIS,
};
use crate::limiter::{admitted_bytes_are_bounded, budget_bounds_count, Offer};
use crate::time::Instant;
use crate::upstream::{bound_upstream, plans, BindPlan, ConnectionError};

verus! {

/// A budget never gives away more than the rate: what a cycle may carry, spread
/// over the length of a cycle, is at most `rate_bps` bits per second.
pub proof fn budget_is_within_rate(rate_bps: u64)
    ensures
        cycle_budget(rate_bps) * 8 * 1000 <= rate_bps * RATE_LIMIT_CYCLE_MILLIS,
{
}

/// A budget is the rate, counted in bytes per cycle and rounded down, unless
/// the rate is too large to be counted with.
pub proof fn budget_matches_rate(rate_bps: u64)
    requires
        rate_bps <= u64::MAX / RATE_LIMIT_CYCLE_MILLIS,
        rate_bps * RATE_LIMIT_CYCLE_MILLIS / 8_000 <= usize::MAX,
    ensures
        cycle_budget(rate_bps) * 8_000 <= rate_bps * RATE_LIMIT_CYCLE_MILLIS,
        rate_bps * RATE_LIMIT_CYCLE_MILLIS < (cycle_budget(rate_bps) + 1) * 8_000,
{
}

/// A rate of 800 bits per second is one byte per cycle: a budget has one byte for
/// each 800 bits of the rate, as long as the rate is at most a tenth of what a
/// 64-bit number holds and the budget fits into a machine word. A budget that
/// would not fit is as large as can be, and a higher rate has the budget of the
/// highest that is counted with.
pub proof fn budget_counts_bytes_of_rate(rate_bps: u64)
    ensures
        cycle_budget(rate_bps) <= usize::MAX,
        rate_bps <= 1_844_674_407_370_955_161 && cycle_budget(rate_bps) < usize::MAX
            ==> 800 * cycle_budget(rate_bps) <= rate_bps < 800 * (cycle_budget(rate_bps) + 1),
        rate_bps <= 1_844_674_407_370_955_161 && cycle_budget(rate_bps) == usize::MAX
            ==> 800 * cycle_budget(rate_bps) <= rate_bps,
        rate_bps > 1_844_674_407_370_955_161 ==> cycle_budget(rate_bps) == cycle_budget(
            1_844_674_407_370_955_161,
        ),
{
}

/// A connection that was just set up treats both directions alike: each has the
/// budget of the rate for every ten milliseconds, and nothing of it is used. So in
/// either direction the first datagram, whenever it comes, is admitted exactly if
/// it fits into that budget; and what comes ten milliseconds or more after a
/// direction began finds the whole budget there.
pub proof fn fresh_connection_is_open_both_ways<S>(
    conn: JlsForwardConnection<S>,
    socket: S,
    upstream_addr: SocketAddr,
    rate_bps: u64,
    since: Instant,
    size: nat,
    now: int,
)
    requires
        conn.fresh(socket, upstream_addr, rate_bps, since),
    ensures
        conn.upstream_socket == socket,
        conn.upstream_addr == upstream_addr,
        conn.active_time == since,
        conn.from_upstream@.len() == 1_048_576,
        forall|i: int| 0 <= i < 1_048_576 ==> #[trigger] conn.from_upstream@[i] == 0,
        conn.send_limiter@.bytes_per_cycle == cycle_budget(rate_bps),
        conn.recv_limiter@.bytes_per_cycle == cycle_budget(rate_bps),
        conn.send_limiter@.cycle_period == 10_000_000,
        conn.recv_limiter@.cycle_period == 10_000_000,
        conn.send_limiter@.data_handled == 0,
        conn.recv_limiter@.data_handled == 0,
        conn.send_limiter@.admits(size, now) <==> size <= cycle_budget(rate_bps),
        conn.recv_limiter@.admits(size, now) <==> size <= cycle_budget(rate_bps),
        now >= conn.send_limiter@.last_cycle + 10_000_000 ==> conn.send_limiter@.offered(
            size,
            now,
        ).last_cycle == now,
        now >= conn.recv_limiter@.last_cycle + 10_000_000 ==> conn.recv_limiter@.offered(
            size,
            now,
        ).last_cycle == now,
{
}

/// In a state that holds to its rate every peer has that rate in both directions,
/// neither is over its budget, and there is room for answers.
pub proof fn every_peer_has_the_rate<S>(state: JlsState<S>, peer: SocketAddr)
    requires
        state.wf(),
        state.upstream_connections@.contains_key(peer),
    ensures
        ({
            let conn = state.upstream_connections@[peer];
            &&& conn.send_limiter@.bytes_per_cycle == cycle_budget(state.rate_bps)
            &&& conn.recv_limiter@.bytes_per_cycle == cycle_budget(state.rate_bps)
            &&& conn.send_limiter@.cycle_period == 10_000_000
            &&& conn.recv_limiter@.cycle_period == 10_000_000
            &&& conn.send_limiter@.data_handled <= cycle_budget(state.rate_bps)
            &&& conn.recv_limiter@.data_handled <= cycle_budget(state.rate_bps)
            &&& conn.from_upstream@.len() == 1_048_576
        }),
{
    assert(state.upstream_connections@[peer].wf(state.rate_bps));
}

/// The limit holds for the answers, too: what the upstream sends back to a peer
/// up to `end` is admitted only within one budget for the running cycle and one
/// for each ten milliseconds that went by since it began; in bits, within the rate
/// over that many cycles.
pub proof fn answers_hold_to_rate<S>(
    state: JlsState<S>,
    peer: SocketAddr,
    answers: Seq<Offer>,
    end: int,
)
    requires
        state.wf(),
        state.upstream_connections@.contains_key(peer),
        state.upstream_connections@[peer].recv_limiter@.last_cycle <= end,
        forall|i: int| 0 <= i < answers.len() ==> (#[trigger] answers[i]).now <= end,
    ensures
        ({
            let limiter = state.upstream_connections@[peer].recv_limiter@;
            let cycles = 1 + (end - limiter.last_cycle) / 10_000_000int;
            let admitted = limiter.admitted(answers);
            &&& limiter.data_handled + admitted <= cycle_budget(state.rate_bps) * cycles
            &&& 800 * admitted <= state.rate_bps * cycles
        }),
{
    every_peer_has_the_rate(state, peer);
    let limiter = state.upstream_connections@[peer].recv_limiter@;
    admitted_bytes_are_bounded(limiter, answers, end);
    budget_counts_bytes_of_rate(state.rate_bps);
    budget_counts_bytes_of_rate(1_844_674_407_370_955_161);
    let rate = state.rate_bps as int;
    let budget = cycle_budget(state.rate_bps) as int;
    let cycles = 1 + (end - limiter.last_cycle) / 10_000_000int;
    let admitted = limiter.admitted(answers) as int;
    assert(800 * admitted <= rate * cycles) by (nonlinear_arith)
        requires
            admitted <= budget * cycles,
            800 * budget <= rate,
            cycles >= 0,
    ;
}

/// What comes in as one datagram leaves as one datagram: whatever its length,
/// what is passed on has the same bytes and the same mark, goes to the upstream of
/// the sender, is not to be cut into smaller datagrams, and leaves from whatever
/// address the socket has. It is passed on exactly if, within ten milliseconds of
/// the beginning of the cycle, it and the count stay within the budget, or, later
/// than that, it does by itself. Passed on or not, the sender is heard of, and
/// keeps its upstream, its socket, its room for answers and the limit on them.
pub proof fn datagram_is_passed_on_whole<S>(
    before: JlsState<S>,
    after: JlsState<S>,
    contents: Seq<u8>,
    meta: RecvMeta,
    now: Instant,
    outcome: ForwardOutcome<'_>,
)
    requires
        after.received(before, contents, meta, now, outcome),
        before.wf(),
        before.upstream_connections@.contains_key(meta.addr),
    ensures
        after.upstream_connections@.contains_key(meta.addr),
        ({
            let conn = before.upstream_connections@[meta.addr];
            let heard = after.upstream_connections@[meta.addr];
            let counted = if now@ >= conn.send_limiter@.last_cycle + 10_000_000 {
                0
            } else {
                conn.send_limiter@.data_handled
            };
            &&& !(outcome is NotForwarded)
            &&& outcome is Send <==> counted + contents.len() <= cycle_budget(before.rate_bps)
            &&& outcome matches ForwardOutcome::Send(datagram) ==> {
                &&& datagram.destination == conn.upstream_addr
                &&& datagram.contents@ == contents
                &&& datagram.ecn == meta.ecn
                &&& datagram.segment_size is None
                &&& datagram.src_ip is None
            }
            &&& heard.active_time == now
            &&& heard.upstream_addr == conn.upstream_addr
            &&& heard.upstream_socket == conn.upstream_socket
            &&& heard.from_upstream == conn.from_upstream
            &&& heard.recv_limiter == conn.recv_limiter
            &&& outcome is Send ==> heard.send_limiter@.data_handled == counted + contents.len()
            &&& outcome is RateLimited ==> heard.send_limiter@.data_handled == counted
            &&& heard.send_limiter@.last_cycle == if now@ >= conn.send_limiter@.last_cycle
                + 10_000_000 {
                now@
            } else {
                conn.send_limiter@.last_cycle
            }
            &&& heard.send_limiter@.bytes_per_cycle == conn.send_limiter@.bytes_per_cycle
            &&& heard.send_limiter@.cycle_period == conn.send_limiter@.cycle_period
        }),
{
    every_peer_has_the_rate(before, meta.addr);
}

/// A datagram can be counted unless the bytes of its sender's running cycle and
/// its own overflow a machine word; one of a sender that is not forwarded always
/// can.
pub proof fn counting_fails_only_on_overflow<S>(
    state: JlsState<S>,
    peer: SocketAddr,
    size: nat,
    now: Instant,
)
    ensures
        !state.upstream_connections@.contains_key(peer) ==> state.countable(peer, size, now),
        size <= usize::MAX && state.upstream_connections@.contains_key(peer)
            && state.upstream_connections@[peer].send_limiter@.data_handled + size <= usize::MAX
            ==> state.countable(peer, size, now),
        state.upstream_connections@.contains_key(peer) && now@
            < state.upstream_connections@[peer].send_limiter@.last_cycle
            + state.upstream_connections@[peer].send_limiter@.cycle_period
            && state.upstream_connections@[peer].send_limiter@.cycle_period > 0
            && state.upstream_connections@[peer].send_limiter@.data_handled + size > usize::MAX
            ==> !state.countable(peer, size, now),
        state.upstream_connections@.contains_key(peer) && now@
            >= state.upstream_connections@[peer].send_limiter@.last_cycle
            + state.upstream_connections@[peer].send_limiter@.cycle_period ==> (state.countable(
            peer,
            size,
            now,
        ) <==> size <= usize::MAX),
{
}

/// A higher rate never means a smaller budget.
pub proof fn budget_is_monotone(lower: u64, higher: u64)
    requires
        lower <= higher,
    ensures
        cycle_budget(lower) <= cycle_budget(higher),
{
}

/// Once a peer is connected, its datagrams are taken: none is left for someone
/// else to handle, whatever is passed on goes unchanged to the upstream that the
/// peer was connected to, and the first one is passed on if it fits into the
/// budget at all.
pub proof fn connected_peer_is_forwarded<S>(
    before: JlsState<S>,
    connected: JlsState<S>,
    after: JlsState<S>,
    peer: SocketAddr,
    socket: S,
    upstream_addr: SocketAddr,
    since: Instant,
    contents: Seq<u8>,
    meta: RecvMeta,
    now: Instant,
    outcome: ForwardOutcome<'_>,
)
    requires
        connected.connected(before, peer, socket, upstream_addr, since),
        meta.addr == peer,
        after.received(connected, contents, meta, now, outcome),
    ensures
        !(outcome is NotForwarded),
        outcome is Send <==> contents.len() <= cycle_budget(before.rate_bps),
        outcome matches ForwardOutcome::Send(datagram) ==> datagram.destination == upstream_addr
            && datagram.contents@ == contents && datagram.ecn == meta.ecn
            && datagram.segment_size is None && datagram.src_ip is None,
        after.upstream_connections@[peer].upstream_addr == upstream_addr,
        after.upstream_connections@[peer].upstream_socket == socket,
        after.upstream_connections@[peer].active_time == now,
{
}

/// A datagram of one peer changes nothing for any other peer, and neither adds
/// nor removes a peer.
pub proof fn reception_is_isolated<S>(
    before: JlsState<S>,
    after: JlsState<S>,
    contents: Seq<u8>,
    meta: RecvMeta,
    now: Instant,
    outcome: ForwardOutcome<'_>,
    other: SocketAddr,
)
    requires
        after.received(before, contents, meta, now, outcome),
    ensures
        after.upstream_connections@.dom() == before.upstream_connections@.dom(),
        other != meta.addr && before.upstream_connections@.contains_key(other)
            ==> after.upstream_connections@[other] == before.upstream_connections@[other],
{
    assert(after.upstream_connections@.dom() =~= before.upstream_connections@.dom());
}

/// A datagram of a sender that is not forwarded is left for someone else to
/// handle, and changes nothing.
pub proof fn unknown_sender_changes_nothing<S>(
    before: JlsState<S>,
    after: JlsState<S>,
    contents: Seq<u8>,
    meta: RecvMeta,
    now: Instant,
    outcome: ForwardOutcome<'_>,
)
    requires
        after.received(before, contents, meta, now, outcome),
        !before.upstream_connections@.contains_key(meta.addr),
    ensures
        outcome is NotForwarded,
        after.upstream_connections@ == before.upstream_connections@,
        after.rate_bps == before.rate_bps,
{
}

/// A peer that is connected changes nothing for any other peer.
pub proof fn connection_is_isolated<S>(
    before: JlsState<S>,
    after: JlsState<S>,
    peer: SocketAddr,
    socket: S,
    upstream_addr: SocketAddr,
    now: Instant,
    other: SocketAddr,
)
    requires
        after.connected(before, peer, socket, upstream_addr, now),
        other != peer,
    ensures
        after.upstream_connections@.contains_key(peer),
        after.rate_bps == before.rate_bps,
        after.upstream_connections@.contains_key(other)
            == before.upstream_connections@.contains_key(other),
        after.upstream_connections@[other] == before.upstream_connections@[other],
{
}

/// With a limit of zero nothing but empty datagrams gets through.
pub proof fn zero_rate_passes_nothing<S>(
    before: JlsState<S>,
    after: JlsState<S>,
    contents: Seq<u8>,
    meta: RecvMeta,
    now: Instant,
    outcome: ForwardOutcome<'_>,
)
    requires
        before.wf(),
        before.rate_bps == 0,
        after.received(before, contents, meta, now, outcome),
        contents.len() > 0,
    ensures
        !(outcome is Send),
{
    if before.upstream_connections@.contains_key(meta.addr) {
        assert(before.upstream_connections@[meta.addr].wf(before.rate_bps));
    }
}

/// Under the rate of a state no count can overflow, where a machine word has 64
/// bits: a datagram of any size that memory can hold can be counted, from any
/// sender and at any time.
pub proof fn held_rate_never_overflows<S>(
    state: JlsState<S>,
    peer: SocketAddr,
    size: nat,
    now: Instant,
)
    requires
        state.wf(),
        usize::MAX == u64::MAX,
        size <= isize::MAX,
    ensures
        state.countable(peer, size, now),
{
    if state.upstream_connections@.contains_key(peer) {
        assert(state.upstream_connections@[peer].wf(state.rate_bps));
        assert(cycle_budget(state.rate_bps) <= u64::MAX / 8_000);
        budget_bounds_count(state.upstream_connections@[peer].send_limiter@, size, now@);
    }
}

/// What can happen to a state.
pub enum Step<'a, S> {
    /// A datagram comes in.
    Received {
        /// What is known of it.
        meta: RecvMeta,
        /// What it carries.
        contents: Seq<u8>,
        /// When it comes in.
        now: Instant,
        /// What becomes of it.
        outcome: ForwardOutcome<'a>,
    },
    /// A peer is connected.
    Connected {
        /// The peer.
        peer: SocketAddr,
        /// The socket that talks to the upstream on its behalf.
        socket: S,
        /// The upstream.
        upstream_addr: SocketAddr,
        /// When it is connected.
        now: Instant,
    },
}

impl<'a, S> Step<'a, S> {
    /// Whether this step leads from one state to the other.
    pub open spec fn leads(self, before: JlsState<S>, after: JlsState<S>) -> bool {
        match self {
            Step::Received { meta, contents, now, outcome } => after.received(
                before,
                contents,
                meta,
                now,
                outcome,
            ),
            Step::Connected { peer, socket, upstream_addr, now } => after.connected(
                before,
                peer,
                socket,
                upstream_addr,
                now,
            ),
        }
    }

    /// Whether this step is a datagram of `peer`.
    pub open spec fn is_from(self, peer: SocketAddr) -> bool {
        self matches Step::Received { meta, .. } && meta.addr == peer
    }

    /// Whether this step connects `peer`.
    pub open spec fn connects(self, peer: SocketAddr) -> bool {
        self matches Step::Connected { peer: connected, .. } && connected == peer
    }

    /// Whether this step, if it is a datagram of `peer`, is taken, and goes to
    /// `upstream` and unchanged if it is passed on.
    pub open spec fn forwards(self, peer: SocketAddr, upstream: SocketAddr) -> bool {
        match self {
            Step::Received { meta, contents, outcome, .. } => meta.addr == peer ==> match outcome {
                ForwardOutcome::NotForwarded => false,
                ForwardOutcome::RateLimited => true,
                ForwardOutcome::Send(datagram) => {
                    &&& datagram.destination == upstream
                    &&& datagram.contents@ == contents
                    &&& datagram.ecn == meta.ecn
                    &&& datagram.segment_size is None
                    &&& datagram.src_ip is None
                },
            },
            Step::Connected { .. } => true,
        }
    }

    /// Whether this step, if it is a datagram, comes no later than `end`.
    pub open spec fn no_later_than(self, end: int) -> bool {
        self matches Step::Received { now, .. } ==> now@ <= end
    }
}

/// Whether the states, one more than there are steps, are those that the steps
/// lead through.
pub open spec fn is_history<S>(states: Seq<JlsState<S>>, steps: Seq<Step<'_, S>>) -> bool {
    &&& states.len() == steps.len() + 1
    &&& forall|i: int|
        0 <= i < steps.len() ==> (#[trigger] steps[i]).leads(states[i], states[i + 1])
}

/// Whether none of the steps connects `peer` anew.
pub open spec fn never_reconnects<S>(steps: Seq<Step<'_, S>>, peer: SocketAddr) -> bool {
    forall|i: int| 0 <= i < steps.len() ==> !(#[trigger] steps[i]).connects(peer)
}

/// The history without its last step.
proof fn lemma_history_front<S>(
    states: Seq<JlsState<S>>,
    steps: Seq<Step<'_, S>>,
    peer: SocketAddr,
)
    requires
        is_history(states, steps),
        steps.len() > 0,
    ensures
        is_history(states.drop_last(), steps.drop_last()),
        never_reconnects(steps, peer) ==> never_reconnects(steps.drop_last(), peer),
        steps.last().leads(states[steps.len() - 1], states[steps.len() as int]),
        never_reconnects(steps, peer) ==> !steps.last().connects(peer),
{
    let front = steps.drop_last();
    assert forall|i: int| 0 <= i < front.len() implies (#[trigger] front[i]).leads(
        states.drop_last()[i],
        states.drop_last()[i + 1],
    ) && (never_reconnects(steps, peer) ==> !front[i].connects(peer)) by {
        assert(front[i] == steps[i]);
    }
    assert(steps[steps.len() - 1] == steps.last());
}

/// Whatever is received and whoever is connected, the rate of the state stays,
/// and every connection goes on holding to it.
pub proof fn history_keeps_rate<S>(states: Seq<JlsState<S>>, steps: Seq<Step<'_, S>>, i: int)
    requires
        is_history(states, steps),
        states[0].wf(),
        0 <= i < states.len(),
    ensures
        states[i].rate_bps == states[0].rate_bps,
        states[i].wf(),
    decreases i,
{
    if i > 0 {
        history_keeps_rate(states, steps, i - 1);
        let before = states[i - 1];
        let after = states[i];
        assert(steps[i - 1].leads(before, after));
        assert forall|addr: SocketAddr| #[trigger]
            after.upstream_connections@.contains_key(
                addr,
            ) implies after.upstream_connections@[addr].wf(after.rate_bps) by {
            if before.upstream_connections@.contains_key(addr) {
                assert(before.upstream_connections@[addr].wf(before.rate_bps));
            }
        }
    }
}

/// A state that was made by the library and changed by nothing else never comes
/// to a datagram that it cannot count, where a machine word has 64 bits.
pub proof fn history_never_overflows<S>(
    states: Seq<JlsState<S>>,
    steps: Seq<Step<'_, S>>,
    i: int,
    peer: SocketAddr,
    size: nat,
    now: Instant,
)
    requires
        is_history(states, steps),
        states[0].wf(),
        0 <= i < states.len(),
        usize::MAX == u64::MAX,
        size <= isize::MAX,
    ensures
        states[i].countable(peer, size, now),
{
    history_keeps_rate(states, steps, i);
    held_rate_never_overflows(states[i], peer, size, now);
}

/// Whether `peer` is connected in both states, to the same upstream and through
/// the same socket.
pub open spec fn same_connection<S>(
    before: JlsState<S>,
    after: JlsState<S>,
    peer: SocketAddr,
) -> bool {
    &&& before.upstream_connections@.contains_key(peer)
    &&& after.upstream_connections@.contains_key(peer)
    &&& after.upstream_connections@[peer].upstream_addr
        == before.upstream_connections@[peer].upstream_addr
    &&& after.upstream_connections@[peer].upstream_socket
        == before.upstream_connections@[peer].upstream_socket
}

/// A peer that is connected stays connected, to the same upstream and through
/// the same socket, as long as it is not connected anew.
proof fn lemma_stays_connected<S>(
    states: Seq<JlsState<S>>,
    steps: Seq<Step<'_, S>>,
    peer: SocketAddr,
    i: int,
)
    requires
        is_history(states, steps),
        never_reconnects(steps, peer),
        states[0].upstream_connections@.contains_key(peer),
        0 <= i < states.len(),
    ensures
        same_connection(states[0], states[i], peer),
    decreases i,
{
    if i > 0 {
        lemma_stays_connected(states, steps, peer, i - 1);
        assert(steps[i - 1].leads(states[i - 1], states[i]));
        assert(!steps[i - 1].connects(peer));
    }
}

/// Once a peer is connected, it stays forwarded to its upstream, whatever else is
/// received and whoever else is connected, until it is connected anew: in every
/// later state it is connected, to the same upstream and through the same socket;
/// each of its datagrams is taken; and whatever is passed on goes unchanged to
/// that upstream.
pub proof fn connected_peer_stays_forwarded<S>(
    states: Seq<JlsState<S>>,
    steps: Seq<Step<'_, S>>,
    peer: SocketAddr,
)
    requires
        is_history(states, steps),
        never_reconnects(steps, peer),
        states[0].upstream_connections@.contains_key(peer),
    ensures
        forall|i: int|
            0 <= i < states.len() ==> same_connection(states[0], #[trigger] states[i], peer),
        forall|i: int|
            0 <= i < steps.len() ==> (#[trigger] steps[i]).forwards(
                peer,
                states[0].upstream_connections@[peer].upstream_addr,
            ),
{
    assert forall|i: int| 0 <= i < states.len() implies same_connection(
        states[0],
        #[trigger] states[i],
        peer,
    ) by {
        lemma_stays_connected(states, steps, peer, i);
    }
    assert forall|i: int| 0 <= i < steps.len() implies (#[trigger] steps[i]).forwards(
        peer,
        states[0].upstream_connections@[peer].upstream_addr,
    ) by {
        lemma_stays_connected(states, steps, peer, i);
        assert(steps[i].leads(states[i], states[i + 1]));
    }
}

/// From the name to the datagram: where the name of an upstream resolved, a socket
/// was bound for it and a peer connected with both, every datagram of the peer
/// that is passed on goes to the first address that the name resolved to, until
/// the peer is connected anew.
pub proof fn peer_reaches_resolved_upstream<S>(
    addrs: Vec<SocketAddr>,
    plan: BindPlan,
    socket: S,
    upstream_addr: SocketAddr,
    before: JlsState<S>,
    peer: SocketAddr,
    since: Instant,
    states: Seq<JlsState<S>>,
    steps: Seq<Step<'_, S>>,
)
    requires
        addrs@.len() > 0,
        plans(Ok(addrs), Ok(plan)),
        bound_upstream(plan, Ok(socket)) == Ok::<_, ConnectionError>((socket, upstream_addr)),
        is_history(states, steps),
        states[0].connected(before, peer, socket, upstream_addr, since),
        never_reconnects(steps, peer),
    ensures
        forall|i: int| 0 <= i < steps.len() ==> (#[trigger] steps[i]).forwards(peer, addrs@[0]),
{
    connected_peer_stays_forwarded(states, steps, peer);
}

/// What does not concern a peer leaves its connection as it is.
proof fn lemma_untouched<S>(
    states: Seq<JlsState<S>>,
    steps: Seq<Step<'_, S>>,
    peer: SocketAddr,
    i: int,
)
    requires
        is_history(states, steps),
        states[0].upstream_connections@.contains_key(peer),
        0 <= i < states.len(),
        forall|j: int|
            0 <= j < i ==> !(#[trigger] steps[j]).is_from(peer) && !steps[j].connects(peer),
    ensures
        states[i].upstream_connections@.contains_key(peer),
        states[i].upstream_connections@[peer] == states[0].upstream_connections@[peer],
    decreases i,
{
    if i > 0 {
        lemma_untouched(states, steps, peer, i - 1);
        assert(steps[i - 1].leads(states[i - 1], states[i]));
        assert(!steps[i - 1].is_from(peer) && !steps[i - 1].connects(peer));
    }
}

/// The first datagram of a peer after it was connected is passed on exactly if it
/// fits into the budget at all, whatever happened to others in between and
/// however much or little time went by.
pub proof fn first_datagram_of_peer_is_passed_on<S>(
    states: Seq<JlsState<S>>,
    steps: Seq<Step<'_, S>>,
    peer: SocketAddr,
    socket: S,
    upstream_addr: SocketAddr,
    since: Instant,
    i: int,
)
    requires
        is_history(states, steps),
        states[0].upstream_connections@.contains_key(peer),
        states[0].upstream_connections@[peer].fresh(
            socket,
            upstream_addr,
            states[0].rate_bps,
            since,
        ),
        0 <= i < steps.len(),
        forall|j: int|
            0 <= j < i ==> !(#[trigger] steps[j]).is_from(peer) && !steps[j].connects(peer),
        steps[i].is_from(peer),
    ensures
        steps[i] matches Step::Received { contents, outcome, .. } && (outcome is Send
            <==> contents.len() <= cycle_budget(states[0].rate_bps)),
{
    lemma_untouched(states, steps, peer, i);
    assert(steps[i].leads(states[i], states[i + 1]));
}

/// The cycle of a peer began no later than its connection did, or one of its
/// datagrams came.
proof fn lemma_cycle_began<S>(
    states: Seq<JlsState<S>>,
    steps: Seq<Step<'_, S>>,
    peer: SocketAddr,
    i: int,
    latest: int,
)
    requires
        is_history(states, steps),
        never_reconnects(steps, peer),
        states[0].upstream_connections@.contains_key(peer),
        0 <= i < states.len(),
        states[0].upstream_connections@[peer].send_limiter@.last_cycle <= latest,
        forall|j: int|
            0 <= j < i && (#[trigger] steps[j]).is_from(peer) ==> steps[j].no_later_than(latest),
    ensures
        states[i].upstream_connections@.contains_key(peer),
        states[i].upstream_connections@[peer].send_limiter@.last_cycle <= latest,
    decreases i,
{
    if i > 0 {
        lemma_cycle_began(states, steps, peer, i - 1, latest);
        assert(steps[i - 1].leads(states[i - 1], states[i]));
        assert(!steps[i - 1].connects(peer));
        assert(steps[i - 1].is_from(peer) ==> steps[i - 1].no_later_than(latest));
    }
}

/// Nobody is cut off for good: a peer that was quiet for ten milliseconds has its
/// whole budget again. Whatever it sent before, if its first cycle began, and all
/// its earlier datagrams came, ten milliseconds ago or longer, its next datagram
/// is passed on exactly if it fits into the budget.
pub proof fn quiet_peer_has_its_whole_budget<S>(
    states: Seq<JlsState<S>>,
    steps: Seq<Step<'_, S>>,
    peer: SocketAddr,
    i: int,
)
    requires
        is_history(states, steps),
        never_reconnects(steps, peer),
        states[0].wf(),
        states[0].upstream_connections@.contains_key(peer),
        0 <= i < steps.len(),
        steps[i] matches Step::Received { meta, now, .. } && meta.addr == peer
            && states[0].upstream_connections@[peer].send_limiter@.last_cycle + 10_000_000
            <= now@ && forall|j: int|
            0 <= j < i && (#[trigger] steps[j]).is_from(peer) ==> steps[j].no_later_than(
                now@ - 10_000_000,
            ),
    ensures
        steps[i] matches Step::Received { contents, outcome, .. } && (outcome is Send
            <==> contents.len() <= cycle_budget(states[0].rate_bps)) && (outcome is RateLimited
            <==> contents.len() > cycle_budget(states[0].rate_bps)),
{
    if let Step::Received { now, .. } = steps[i] {
        lemma_cycle_began(states, steps, peer, i, now@ - 10_000_000);
        history_keeps_rate(states, steps, i);
        every_peer_has_the_rate(states[i], peer);
        assert(steps[i].leads(states[i], states[i + 1]));
    }
}

/// The bytes that a step passes on of `peer`.
pub open spec fn passed_bytes<S>(step: Step<'_, S>, peer: SocketAddr) -> nat {
    match step {
        Step::Received { meta, outcome: ForwardOutcome::Send(datagram), .. } => if meta.addr
            == peer {
            datagram.contents@.len()
        } else {
            0
        },
        _ => 0,
    }
}

/// The bytes that a series of steps passes on of `peer`.
pub open spec fn passed_bytes_of<S>(steps: Seq<Step<'_, S>>, peer: SocketAddr) -> nat
    decreases steps.len(),
{
    if steps.len() == 0 {
        0
    } else {
        passed_bytes_of(steps.drop_last(), peer) + passed_bytes(steps.last(), peer)
    }
}

/// What a series of steps offers to the limiter of `peer`.
spec fn offers_of<S>(steps: Seq<Step<'_, S>>, peer: SocketAddr) -> Seq<Offer>
    decreases steps.len(),
{
    if steps.len() == 0 {
        Seq::empty()
    } else {
        let front = offers_of(steps.drop_last(), peer);
        match steps.last() {
            Step::Received { meta, contents, now, .. } => if meta.addr == peer {
                front.push(Offer { size: contents.len(), now: now@ })
            } else {
                front
            },
            _ => front,
        }
    }
}

/// Through a history the limiter of a peer sees the offers of that peer and
/// nothing else, and what it admits is what is passed on.
proof fn lemma_history<S>(
    states: Seq<JlsState<S>>,
    steps: Seq<Step<'_, S>>,
    peer: SocketAddr,
    end: int,
)
    requires
        is_history(states, steps),
        never_reconnects(steps, peer),
        states[0].upstream_connections@.contains_key(peer),
        forall|i: int| 0 <= i < steps.len() ==> (#[trigger] steps[i]).no_later_than(end),
    ensures
        ({
            let limiter = states[0].upstream_connections@[peer].send_limiter@;
            let offers = offers_of(steps, peer);
            &&& states.last().upstream_connections@.contains_key(peer)
            &&& states.last().upstream_connections@[peer].send_limiter@ == limiter.after(offers)
            &&& passed_bytes_of(steps, peer) == limiter.admitted(offers)
            &&& forall|i: int| 0 <= i < offers.len() ==> (#[trigger] offers[i]).now <= end
        }),
    decreases steps.len(),
{
    if steps.len() > 0 {
        let front = steps.drop_last();
        lemma_history_front(states, steps, peer);
        assert forall|i: int| 0 <= i < front.len() implies (#[trigger] front[i]).no_later_than(
            end,
        ) by {
            assert(front[i] == steps[i]);
        }
        lemma_history(states.drop_last(), front, peer, end);
        assert(steps[steps.len() - 1].no_later_than(end));
        if steps.last().is_from(peer) {
            assert(offers_of(steps, peer).drop_last() =~= offers_of(front, peer));
        }
    }
}

/// The limit holds for what is passed on of a peer, however its datagrams mix
/// with those of others, whoever else is connected meanwhile, and in whatever
/// order the clock readings come. From the beginning of its running cycle up to
/// `end`, that is at most one budget for that cycle and one for each full cycle
/// that went by since; in bits, at most the rate times that many cycles.
pub proof fn forwarding_holds_to_rate<S>(
    states: Seq<JlsState<S>>,
    steps: Seq<Step<'_, S>>,
    peer: SocketAddr,
    end: int,
)
    requires
        is_history(states, steps),
        never_reconnects(steps, peer),
        states[0].wf(),
        states[0].upstream_connections@.contains_key(peer),
        states[0].upstream_connections@[peer].send_limiter@.last_cycle <= end,
        forall|i: int| 0 <= i < steps.len() ==> (#[trigger] steps[i]).no_later_than(end),
    ensures
        ({
            let limiter = states[0].upstream_connections@[peer].send_limiter@;
            let cycles = 1 + (end - limiter.last_cycle) / (RATE_LIMIT_CYCLE_MILLIS * 1_000_000);
            let passed = passed_bytes_of(steps, peer);
            &&& limiter.data_handled + passed <= cycle_budget(states[0].rate_bps) * cycles
            &&& passed * 8 * 1000 <= states[0].rate_bps * RATE_LIMIT_CYCLE_MILLIS * cycles
        }),
{
    assert(states[0].upstream_connections@[peer].wf(states[0].rate_bps));
    let limiter = states[0].upstream_connections@[peer].send_limiter@;
    lemma_history(states, steps, peer, end);
    admitted_bytes_are_bounded(limiter, offers_of(steps, peer), end);
    let rate = states[0].rate_bps;
    let cycles = 1 + (end - limiter.last_cycle) / (RATE_LIMIT_CYCLE_MILLIS * 1_000_000);
    let passed = passed_bytes_of(steps, peer) as int;
    let budget = cycle_budget(rate) as int;
    budget_is_within_rate(rate);
    assert(passed * 8 * 1000 <= rate * RATE_LIMIT_CYCLE_MILLIS * cycles) by (nonlinear_arith)
        requires
            passed <= budget * cycles,
            budget * 8 * 1000 <= rate * RATE_LIMIT_CYCLE_MILLIS,
            cycles >= 0,
    ;
}

} // verus!
