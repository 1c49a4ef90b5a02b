//! Datagrams on their way out.
use vstd::prelude::*;
use vstd::slice::slice_subrange;

use crate::addr::{IpAddr, SocketAddr};
use crate::ecn::EcnCodepoint;

verus! {

/// An order to send `size` bytes out of a buffer that is kept elsewhere.
#[derive(Debug, Clone, Copy, PartialEq, Eq, Structural)]
pub struct Transmit {
    /// Where the bytes go.
    pub destination: SocketAddr,
    /// Congestion mark to set.
    pub ecn: Option<EcnCodepoint>,
    /// How many bytes of the buffer are meant.
    pub size: usize,
    /// Size of the single datagrams, where the bytes hold several.
    pub segment_size: Option<usize>,
    /// Address to send from.
    pub src_ip: Option<IpAddr>,
}

/// A datagram that is ready for a socket.
#[derive(Debug, Clone, Copy)]
pub struct UdpTransmit<'a> {
    /// Where the datagram goes.
    pub destination: SocketAddr,
    /// Congestion mark to set.
    pub ecn: Option<EcnCodepoint>,
    /// What it carries.
    pub contents: &'a [u8],
    /// Size of the single datagrams, where the contents hold several.
    pub segment_size: Option<usize>,
    /// Address to send from.
    pub src_ip: Option<IpAddr>,
}

impl<'a> UdpTransmit<'a> {
    /// Whether this datagram is what `order` asks for, with `contents` for its
    /// bytes.
    pub open spec fn carries(&self, order: Transmit, contents: Seq<u8>) -> bool {
        &&& self.destination == order.destination
        &&& self.ecn == order.ecn
        &&& self.contents@ == contents
        &&& self.segment_size == order.segment_size
        &&& self.src_ip == order.src_ip
    }
}

/// Puts an order and the bytes that it is about together.
pub fn udp_transmit<'a>(transmit: &Transmit, buffer: &'a [u8]) -> (datagram: UdpTransmit<'a>)
    ensures
        datagram.carries(*transmit, buffer@),
{
    UdpTransmit {
        destination: transmit.destination,
        ecn: transmit.ecn,
        contents: buffer,
        segment_size: transmit.segment_size,
        src_ip: transmit.src_ip,
    }
}

/// A datagram has everything from its order but the bytes, and the bytes from
/// where the order points.
pub proof fn datagram_is_its_order(
    datagram: UdpTransmit<'_>,
    order: Transmit,
    contents: Seq<u8>,
)
    requires
        datagram.carries(order, contents),
    ensures
        datagram.destination == order.destination,
        datagram.ecn == order.ecn,
        datagram.contents@ == contents,
        datagram.segment_size == order.segment_size,
        datagram.src_ip == order.src_ip,
{
}

/// Cuts the bytes that an order asks for off the front of `buffer`.
pub fn respond<'a>(transmit: Transmit, buffer: &'a [u8]) -> (datagram: UdpTransmit<'a>)
    requires
        transmit.size <= buffer@.len(),
    ensures
        datagram.carries(transmit, buffer@.take(transmit.size as int)),
{
    udp_transmit(&transmit, slice_subrange(buffer, 0, transmit.size))
}

/// Where the bytes of the `i`-th order begin, if the orders share one buffer
/// and lie in it one behind the other.
pub open spec fn offset(orders: Seq<Transmit>, i: int) -> nat
    decreases i,
{
    if i <= 0 {
        0
    } else {
        offset(orders, i - 1) + orders[i - 1].size as nat
    }
}

/// The bytes of the `i`-th order in such a shared buffer.
pub open spec fn share(orders: Seq<Transmit>, buffer: Seq<u8>, i: int) -> Seq<u8> {
    buffer.subrange(offset(orders, i) as int, offset(orders, i + 1) as int)
}

/// The bytes that all orders ask for together.
pub open spec fn total_size(orders: Seq<Transmit>) -> nat {
    offset(orders, orders.len() as int)
}

/// Later orders begin further back.
proof fn lemma_offset_monotone(orders: Seq<Transmit>, i: int, j: int)
    requires
        0 <= i <= j,
    ensures
        offset(orders, i) <= offset(orders, j),
    decreases j,
{
    if i < j {
        lemma_offset_monotone(orders, i, j - 1);
    }
}

/// Whether `count` is how many of the orders, from the first on, find their
/// bytes in a shared buffer of `room` bytes: all up to the first that does not.
pub open spec fn is_fitting(orders: Seq<Transmit>, room: nat, count: nat) -> bool {
    &&& count <= orders.len()
    &&& offset(orders, count as int) <= room
    &&& count < orders.len() ==> offset(orders, count as int + 1) > room
}

/// Whether the datagrams are what the orders, from the first on, ask for, each
/// with its own share of the buffer, but with `upstream` for a destination.
pub open spec fn redirected(
    orders: Seq<Transmit>,
    buffer: Seq<u8>,
    upstream: SocketAddr,
    datagrams: Seq<UdpTransmit<'_>>,
) -> bool {
    forall|i: int|
        0 <= i < datagrams.len() ==> (#[trigger] datagrams[i]).carries(
            Transmit { destination: upstream, ..orders[i] },
            share(orders, buffer, i),
        )
}

/// Makes datagrams out of orders whose bytes lie in `buffer` one behind the
/// other, in order, and sends all of them to `upstream`, whatever destination
/// the orders name. The first order whose bytes are not all there ends the
/// series.
pub fn redirect_all<'a>(orders: &Vec<Transmit>, buffer: &'a [u8], upstream: SocketAddr) -> (datagrams:
    Vec<UdpTransmit<'a>>)
    ensures
        is_fitting(orders@, buffer@.len(), datagrams@.len()),
        redirected(orders@, buffer@, upstream, datagrams@),
        forall|i: int|
            0 <= i < datagrams@.len() ==> (#[trigger] datagrams@[i]).contents@.len()
                == orders@[i].size,
{
    let mut datagrams: Vec<UdpTransmit<'a>> = Vec::new();
    let len: usize = buffer.len();
    let mut pos: usize = 0;
    let mut i: usize = 0;
    while i < orders.len()
        invariant
            0 <= i <= orders@.len(),
            len == buffer@.len(),
            pos <= len,
            pos == offset(orders@, i as int),
            datagrams@.len() == i,
            redirected(orders@, buffer@, upstream, datagrams@),
            forall|j: int|
                0 <= j < datagrams@.len() ==> (#[trigger] datagrams@[j]).contents@.len()
                    == orders@[j].size,
        decreases orders@.len() - i,
    {
        let order = Transmit { destination: upstream, ..orders[i] };
        if order.size > len - pos {
            return datagrams;
        }
        datagrams.push(udp_transmit(&order, slice_subrange(buffer, pos, pos + order.size)));
        pos += order.size;
        i += 1;
    }
    datagrams
}

/// If there is room for all orders together, every one of them fits; if there
/// is not, some do not.
pub proof fn all_orders_fit(orders: Seq<Transmit>, room: nat, count: nat)
    requires
        is_fitting(orders, room, count),
    ensures
        count == orders.len() <==> total_size(orders) <= room,
{
    if count < orders.len() {
        lemma_offset_monotone(orders, count as int + 1, orders.len() as int);
    }
}

/// Each datagram is cut out where its order says. Let `begins` tell where the
/// bytes of each order begin, if each order begins where the one before it ends:
/// at zero for the first, and further on by the size of each order. Then every
/// datagram carries exactly the bytes from where its order begins to where it
/// ends, as many as the order asks for; all datagrams go to `upstream` and are
/// otherwise as ordered; and they stop only where the next order would end behind
/// the end of the buffer.
pub proof fn datagrams_are_cut_where_ordered(
    orders: Seq<Transmit>,
    buffer: Seq<u8>,
    upstream: SocketAddr,
    datagrams: Seq<UdpTransmit<'_>>,
    begins: Seq<int>,
)
    requires
        is_fitting(orders, buffer.len(), datagrams.len()),
        redirected(orders, buffer, upstream, datagrams),
        begins.len() == orders.len() + 1,
        begins[0] == 0,
        forall|i: int|
            0 <= i < orders.len() ==> begins[i + 1] == begins[i] + (#[trigger] orders[i]).size,
    ensures
        datagrams.len() <= orders.len(),
        begins[datagrams.len() as int] <= buffer.len(),
        datagrams.len() < orders.len() ==> begins[datagrams.len() as int + 1] > buffer.len(),
        forall|i: int|
            0 <= i < datagrams.len() ==> {
                &&& (#[trigger] datagrams[i]).contents@.len() == orders[i].size
                &&& datagrams[i].contents@ == buffer.subrange(
                    begins[i],
                    begins[i] + orders[i].size,
                )
                &&& datagrams[i].destination == upstream
                &&& datagrams[i].ecn == orders[i].ecn
                &&& datagrams[i].segment_size == orders[i].segment_size
                &&& datagrams[i].src_ip == orders[i].src_ip
            },
{
    let n = datagrams.len() as int;
    lemma_begins(orders, begins, n);
    if n < orders.len() {
        lemma_begins(orders, begins, n + 1);
    }
    assert forall|i: int| 0 <= i < n implies {
        &&& (#[trigger] datagrams[i]).contents@.len() == orders[i].size
        &&& datagrams[i].contents@ == buffer.subrange(begins[i], begins[i] + orders[i].size)
        &&& datagrams[i].destination == upstream
        &&& datagrams[i].ecn == orders[i].ecn
        &&& datagrams[i].segment_size == orders[i].segment_size
        &&& datagrams[i].src_ip == orders[i].src_ip
    } by {
        lemma_begins(orders, begins, i);
        lemma_begins(orders, begins, i + 1);
        lemma_offset_monotone(orders, i + 1, n);
        assert(begins[i + 1] == begins[i] + orders[i].size);
    }
}

/// There is one way only to tell where orders begin.
proof fn lemma_begins(orders: Seq<Transmit>, begins: Seq<int>, i: int)
    requires
        0 <= i <= orders.len(),
        begins.len() == orders.len() + 1,
        begins[0] == 0,
        forall|j: int|
            0 <= j < orders.len() ==> begins[j + 1] == begins[j] + (#[trigger] orders[j]).size,
    ensures
        begins[i] == offset(orders, i),
    decreases i,
{
    if i > 0 {
        lemma_begins(orders, begins, i - 1);
        assert(begins[i - 1 + 1] == begins[i - 1] + orders[i - 1].size);
    }
}

/// The contents of the first `n` datagrams, one behind the other.
pub open spec fn joined(datagrams: Seq<UdpTransmit<'_>>, n: int) -> Seq<u8>
    decreases n,
{
    if n <= 0 {
        Seq::empty()
    } else {
        joined(datagrams, n - 1) + datagrams[n - 1].contents@
    }
}

/// Nothing of the buffer is lost, doubled or put out of order: the contents of
/// the datagrams, one behind the other, are the front of the buffer.
pub proof fn shares_cover_buffer(
    orders: Seq<Transmit>,
    buffer: Seq<u8>,
    upstream: SocketAddr,
    datagrams: Seq<UdpTransmit<'_>>,
)
    requires
        is_fitting(orders, buffer.len(), datagrams.len()),
        redirected(orders, buffer, upstream, datagrams),
    ensures
        joined(datagrams, datagrams.len() as int) == buffer.take(
            offset(orders, datagrams.len() as int) as int,
        ),
{
    lemma_joined_prefix(orders, buffer, upstream, datagrams, datagrams.len() as int);
}

/// The same for the first `n` datagrams.
proof fn lemma_joined_prefix(
    orders: Seq<Transmit>,
    buffer: Seq<u8>,
    upstream: SocketAddr,
    datagrams: Seq<UdpTransmit<'_>>,
    n: int,
)
    requires
        0 <= n <= datagrams.len(),
        offset(orders, datagrams.len() as int) <= buffer.len(),
        redirected(orders, buffer, upstream, datagrams),
    ensures
        joined(datagrams, n) == buffer.take(offset(orders, n) as int),
    decreases n,
{
    lemma_offset_monotone(orders, n, datagrams.len() as int);
    if n > 0 {
        lemma_joined_prefix(orders, buffer, upstream, datagrams, n - 1);
        assert(datagrams[n - 1].contents@ == share(orders, buffer, n - 1));
    }
    assert(joined(datagrams, n) =~= buffer.take(offset(orders, n) as int));
}

} // verus!
