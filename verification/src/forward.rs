//! The peers that are forwarded, and what becomes of their datagrams.
use bytes::BytesMut;
use vstd::math::min;
use vstd::prelude::*;

use crate::addr::SocketAddr;
use crate::buffer::{buffered, buffered_bytes};
use crate::ecn::EcnCodepoint;
use crate::limiter::{JlsRateLimiter, LimiterView};
use crate::table::AddrTable;
use crate::time::{Clock, Duration, Instant};
use crate::transmit::{is_fitting, redirect_all, redirected, Transmit, UdpTransmit};
use crate::upstream::ConnectionError;

verus! {

/// Length of a cycle of the rate limit, in milliseconds.
pub const RATE_LIMIT_CYCLE_MILLIS: u64 = 10;

/// Room for what an upstream answers.
pub const RECV_BUFFER_SIZE: usize = 32 * 32 * 1024;

/// Length of a cycle of the rate limit.
pub fn rate_limit_cycle() -> (cycle: Duration)
    ensures
        cycle@ == RATE_LIMIT_CYCLE_MILLIS * 1_000_000,
        cycle@ == 10_000_000,
{
    Duration::from_millis(RATE_LIMIT_CYCLE_MILLIS)
}

/// Bytes per cycle at a rate of `rate_bps` bits per second, rounded down. A
/// rate that could not be multiplied by the length of a cycle counts as the
/// largest that can be; a budget that does not fit into a machine word counts
/// as the largest that does.
pub open spec fn cycle_budget(rate_bps: u64) -> nat {
    min(
        min(rate_bps as int, u64::MAX as int / RATE_LIMIT_CYCLE_MILLIS as int)
            * RATE_LIMIT_CYCLE_MILLIS / 8_000,
        usize::MAX as int,
    ) as nat
}

/// The budget of one cycle at a rate of `rate_bps` bits per second.
pub fn byte_per_cycle(rate_bps: u64) -> (budget: usize)
    ensures
        budget == cycle_budget(rate_bps),
{
    let largest: u64 = u64::MAX / RATE_LIMIT_CYCLE_MILLIS;
    let rate: u64 = if rate_bps <= largest {
        rate_bps
    } else {
        largest
    };
    let budget: u64 = rate * RATE_LIMIT_CYCLE_MILLIS / (1000 * 8);
    if budget <= usize::MAX as u64 {
        budget as usize
    } else {
        usize::MAX
    }
}

/// What is known of a datagram that came in.
#[derive(Debug, Clone, Copy, PartialEq, Eq, Structural)]
pub struct RecvMeta {
    /// Who sent it.
    pub addr: SocketAddr,
    /// The congestion mark that it carried.
    pub ecn: Option<EcnCodepoint>,
}

/// A peer whose traffic goes to an upstream, through the socket `S`.
#[derive(Debug)]
pub struct JlsForwardConnection<S> {
    /// The socket that talks to the upstream on behalf of the peer.
    pub upstream_socket: S,
    /// The upstream.
    pub upstream_addr: SocketAddr,
    /// Room for what the upstream answers.
    pub from_upstream: Vec<u8>,
    /// When the peer was last heard of.
    pub active_time: Instant,
    /// Limit on what goes from the peer to the upstream.
    pub send_limiter: JlsRateLimiter,
    /// Limit on what goes from the upstream to the peer.
    pub recv_limiter: JlsRateLimiter,
}

/// Whether a limiter holds to the rate `rate_bps`.
pub open spec fn holds_rate(limiter: LimiterView, rate_bps: u64) -> bool {
    &&& limiter.cycle_period == RATE_LIMIT_CYCLE_MILLIS * 1_000_000
    &&& limiter.bytes_per_cycle == cycle_budget(rate_bps)
    &&& limiter.within_budget()
}

impl<S> JlsForwardConnection<S> {
    /// Both directions hold to the rate `rate_bps`, and there is room for
    /// answers.
    pub open spec fn wf(&self, rate_bps: u64) -> bool {
        &&& holds_rate(self.send_limiter@, rate_bps)
        &&& holds_rate(self.recv_limiter@, rate_bps)
        &&& self.from_upstream@.len() == RECV_BUFFER_SIZE
    }

    /// Whether this is a connection as it is first set up: to `upstream_addr`
    /// through `socket`, heard of at `now`, with an empty answer buffer and
    /// with nothing counted yet in either direction.
    pub open spec fn fresh(
        &self,
        socket: S,
        upstream_addr: SocketAddr,
        rate_bps: u64,
        now: Instant,
    ) -> bool {
        &&& self.upstream_socket == socket
        &&& self.upstream_addr == upstream_addr
        &&& self.from_upstream@ == Seq::new(RECV_BUFFER_SIZE as nat, |i: int| 0u8)
        &&& self.active_time == now
        &&& holds_rate(self.send_limiter@, rate_bps)
        &&& self.send_limiter@.data_handled == 0
        &&& holds_rate(self.recv_limiter@, rate_bps)
        &&& self.recv_limiter@.data_handled == 0
    }

    /// Whether this is the connection `before` after `size` bytes of its peer
    /// came in at `now`: heard of now, with the bytes offered to the limit
    /// towards the upstream, and otherwise the same.
    pub open spec fn heard(&self, before: JlsForwardConnection<S>, size: nat, now: Instant) -> bool {
        &&& self.upstream_socket == before.upstream_socket
        &&& self.upstream_addr == before.upstream_addr
        &&& self.from_upstream == before.from_upstream
        &&& self.active_time == now
        &&& self.send_limiter@ == before.send_limiter@.offered(size, now@)
        &&& self.recv_limiter == before.recv_limiter
    }
}

/// What becomes of a datagram that came in.
#[derive(Debug)]
pub enum ForwardOutcome<'a> {
    /// The sender is not forwarded; the datagram is for someone else to handle.
    NotForwarded,
    /// The sender is forwarded, but has used up its budget; the datagram is
    /// dropped.
    RateLimited,
    /// The datagram goes to the upstream, as given, through the socket of the
    /// sender's connection.
    Send(UdpTransmit<'a>),
}

impl<'a> ForwardOutcome<'a> {
    /// Whether the datagram belonged to a peer that is forwarded, whether or
    /// not it was passed on.
    pub fn handled(&self) -> (handled: bool)
        ensures
            handled == !(self is NotForwarded),
    {
        match self {
            ForwardOutcome::NotForwarded => false,
            _ => true,
        }
    }
}

/// All peers that are forwarded.
#[derive(Debug)]
pub struct JlsState<S> {
    /// The connection of each peer, by the address of the peer.
    pub upstream_connections: AddrTable<JlsForwardConnection<S>>,
    /// Limit for each peer and direction, in bits per second.
    pub rate_bps: u64,
}

impl<S> JlsState<S> {
    /// Every connection holds to the rate of this state.
    pub open spec fn wf(&self) -> bool {
        forall|addr: SocketAddr| #[trigger]
            self.upstream_connections@.contains_key(addr)
                ==> self.upstream_connections@[addr].wf(self.rate_bps)
    }

    /// Whether the limit of `peer`, if it is forwarded, can count `size` more
    /// bytes at `now`.
    pub open spec fn countable(&self, peer: SocketAddr, size: nat, now: Instant) -> bool {
        self.upstream_connections@.contains_key(peer)
            ==> self.upstream_connections@[peer].send_limiter@.countable(size, now@)
    }

    /// Whether this is the state `before` with a connection of `peer` to
    /// `upstream_addr` set up at `now`, in place of any that it had.
    pub open spec fn connected(
        &self,
        before: JlsState<S>,
        peer: SocketAddr,
        socket: S,
        upstream_addr: SocketAddr,
        now: Instant,
    ) -> bool {
        &&& self.rate_bps == before.rate_bps
        &&& self.upstream_connections@.contains_key(peer)
        &&& self.upstream_connections@ == before.upstream_connections@.insert(
            peer,
            self.upstream_connections@[peer],
        )
        &&& self.upstream_connections@[peer].fresh(socket, upstream_addr, before.rate_bps, now)
    }

    /// Whether this is the state `before` after a datagram with `contents` came
    /// in at `now`, and `outcome` what becomes of the datagram.
    pub open spec fn received(
        &self,
        before: JlsState<S>,
        contents: Seq<u8>,
        meta: RecvMeta,
        now: Instant,
        outcome: ForwardOutcome<'_>,
    ) -> bool {
        &&& self.rate_bps == before.rate_bps
        &&& if before.upstream_connections@.contains_key(meta.addr) {
            let conn = before.upstream_connections@[meta.addr];
            &&& self.upstream_connections@ == before.upstream_connections@.insert(
                meta.addr,
                self.upstream_connections@[meta.addr],
            )
            &&& self.upstream_connections@[meta.addr].heard(conn, contents.len(), now)
            &&& if conn.send_limiter@.admits(contents.len(), now@) {
                outcome matches ForwardOutcome::Send(datagram) && datagram.carries(
                    passed_on(conn.upstream_addr, meta.ecn, contents.len()),
                    contents,
                )
            } else {
                outcome is RateLimited
            }
        } else {
            &&& self.upstream_connections@ == before.upstream_connections@
            &&& outcome is NotForwarded
        }
    }
}

/// The order to pass a datagram of `size` bytes on to `upstream`: as a single
/// datagram with the mark `ecn`, from whatever address the socket has.
pub open spec fn passed_on(upstream: SocketAddr, ecn: Option<EcnCodepoint>, size: nat) -> Transmit {
    Transmit {
        destination: upstream,
        ecn,
        size: size as usize,
        segment_size: None,
        src_ip: None,
    }
}

impl<S> JlsState<S> {
    /// A state in which nobody is forwarded yet, with a limit of `rate_bps`
    /// bits per second for each peer and direction.
    pub fn new(rate_bps: u64) -> (state: JlsState<S>)
        ensures
            state.upstream_connections@ == Map::<SocketAddr, JlsForwardConnection<S>>::empty(),
            state.rate_bps == rate_bps,
            state.wf(),
    {
        JlsState { upstream_connections: AddrTable::new(), rate_bps }
    }

    /// Whether [`handle_jls_forward`](Self::handle_jls_forward) can count a
    /// datagram of `size` bytes that comes in from `peer` at `now`.
    pub fn can_handle(&self, peer: &SocketAddr, size: usize, now: Instant) -> (can: bool)
        ensures
            can == self.countable(*peer, size as nat, now),
    {
        match self.upstream_connections.get(peer) {
            Some(conn) => conn.send_limiter.can_count(size, now),
            None => true,
        }
    }

    /// Takes a datagram that came in at `now`. If its sender is forwarded, the
    /// sender counts as heard of, and the datagram goes to the sender's
    /// upstream, unless the budget of the sender is used up. A state that only
    /// the library has changed can count any datagram where a machine word has 64
    /// bits.
    pub fn handle_jls_forward<'a>(&mut self, buf: &'a BytesMut, meta: &RecvMeta, now: Instant) -> (
    outcome: ForwardOutcome<'a>)
        requires
            old(self).countable(meta.addr, buffered(*buf).len(), now),
        ensures
            final(self).received(*old(self), buffered(*buf), *meta, now, outcome),
            outcome matches ForwardOutcome::Send(datagram) ==> {
                &&& datagram.destination
                    == old(self).upstream_connections@[meta.addr].upstream_addr
                &&& datagram.contents@ == buffered(*buf)
                &&& datagram.ecn == meta.ecn
                &&& datagram.segment_size is None
                &&& datagram.src_ip is None
            },
            old(self).wf() ==> final(self).wf(),
    {
        match self.upstream_connections.get_mut(&meta.addr) {
            Some(conn) => {
                let ecn = match meta.ecn {
                    Some(mark) => EcnCodepoint::from_bits(mark.bits()),
                    None => None,
                };
                let trans = Transmit {
                    destination: conn.upstream_addr,
                    ecn,
                    segment_size: None,
                    size: buf.len(),
                    src_ip: None,
                };
                conn.active_time = now;
                match conn.send_limiter.try_send(buffered_bytes(buf), trans, now) {
                    Some(datagram) => {
                        assert(buffered(*buf).take(trans.size as int) =~= buffered(*buf));
                        ForwardOutcome::Send(datagram)
                    },
                    None => ForwardOutcome::RateLimited,
                }
            },
            None => ForwardOutcome::NotForwarded,
        }
    }
}

impl<S> Default for JlsState<S> {
    /// A state in which nobody is forwarded, with a limit of zero.
    fn default() -> (state: JlsState<S>)
        ensures
            state.upstream_connections@ == Map::<SocketAddr, JlsForwardConnection<S>>::empty(),
            state.rate_bps == 0,
            state.wf(),
    {
        JlsState::new(0)
    }
}

/// A connection as it is first set up, its two limiters beginning their first
/// cycles at `send_start` and `recv_start`.
pub fn forward_conn_at<S>(
    socket: S,
    upstream_addr: SocketAddr,
    rate_bps: u64,
    send_start: Instant,
    recv_start: Instant,
    now: Instant,
) -> (conn: JlsForwardConnection<S>)
    ensures
        conn.fresh(socket, upstream_addr, rate_bps, now),
        conn.send_limiter@.last_cycle == send_start@,
        conn.recv_limiter@.last_cycle == recv_start@,
        conn.send_limiter@.bytes_per_cycle == cycle_budget(rate_bps),
        conn.recv_limiter@.bytes_per_cycle == cycle_budget(rate_bps),
        conn.send_limiter@.cycle_period == 10_000_000,
        conn.recv_limiter@.cycle_period == 10_000_000,
{
    let budget: usize = byte_per_cycle(rate_bps);
    let conn = JlsForwardConnection {
        upstream_socket: socket,
        upstream_addr,
        from_upstream: vec![0u8; RECV_BUFFER_SIZE],
        active_time: now,
        send_limiter: JlsRateLimiter::starting_at(send_start, rate_limit_cycle(), budget),
        recv_limiter: JlsRateLimiter::starting_at(recv_start, rate_limit_cycle(), budget),
    };
    assert(conn.from_upstream@ =~= Seq::new(RECV_BUFFER_SIZE as nat, |i: int| 0u8));
    conn
}

/// Sets up the forwarding of `remote_addr` through the socket in `bound`, if
/// one could be bound. The datagrams that the peer has sent so far, which
/// `trans` describes and `response_buffer` holds one behind the other, come
/// back ready to be sent to the upstream through that socket, up to the first
/// whose bytes are not all there. The limiters of the connection begin at the
/// moment of the call: with what `clock` reads when it is asked in the course of
/// the call. [`forward_conn_at`] takes these readings as arguments.
pub fn insert_forward_conn<'a, S>(
    jls_state: &mut JlsState<S>,
    bound: Result<(S, SocketAddr), ConnectionError>,
    trans: &Vec<Transmit>,
    response_buffer: &'a [u8],
    remote_addr: SocketAddr,
    clock: &Clock,
    now: Instant,
) -> (initial: Result<Vec<UdpTransmit<'a>>, ConnectionError>)
    ensures
        match bound {
            Ok((socket, upstream_addr)) => {
                &&& final(jls_state).connected(
                    *old(jls_state),
                    remote_addr,
                    socket,
                    upstream_addr,
                    now,
                )
                &&& initial matches Ok(datagrams) && is_fitting(
                    trans@,
                    response_buffer@.len(),
                    datagrams@.len(),
                ) && redirected(trans@, response_buffer@, upstream_addr, datagrams@)
            },
            Err(error) => {
                &&& *final(jls_state) == *old(jls_state)
                &&& initial == Err::<Vec<UdpTransmit<'a>>, _>(error)
            },
        },
        initial is Ok ==> ({
            let conn = final(jls_state).upstream_connections@[remote_addr];
            &&& exists|start: Instant| #[trigger]
                call_ensures(Clock::now, (clock,), start) && conn.send_limiter@.last_cycle
                    == start@
            &&& exists|start: Instant| #[trigger]
                call_ensures(Clock::now, (clock,), start) && conn.recv_limiter@.last_cycle
                    == start@
        }),
        initial matches Ok(datagrams) ==> forall|i: int|
            0 <= i < datagrams@.len() ==> (#[trigger] datagrams@[i]).contents@.len()
                == trans@[i].size,
        old(jls_state).wf() ==> final(jls_state).wf(),
{
    let (socket, upstream_addr) = match bound {
        Ok(bound) => bound,
        Err(error) => {
            return Err(error);
        },
    };
    let send_start = clock.now();
    let recv_start = clock.now();
    let conn = forward_conn_at(
        socket,
        upstream_addr,
        jls_state.rate_bps,
        send_start,
        recv_start,
        now,
    );
    let initial = redirect_all(trans, response_buffer, upstream_addr);
    jls_state.upstream_connections.insert(remote_addr, conn);
    Ok(initial)
}

} // verus!
