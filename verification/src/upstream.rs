//! From the name of an upstream to a socket that can reach it.
use vstd::prelude::*;

use crate::addr::SocketAddr;

verus! {

/// Why a connection came to nothing.
#[derive(Debug)]
pub enum ConnectionError {
    /// The peer could not be forwarded, for the reason given.
    JlsForwardError(String),
}

/// What to bind, once it is known where the upstream is.
#[derive(Debug, Clone, Copy)]
pub struct BindPlan {
    /// The upstream.
    pub upstream_addr: SocketAddr,
    /// The local endpoint to bind: any port, on any address of the family of
    /// the upstream.
    pub bind_addr: &'static str,
}

/// The local endpoint that can reach `upstream`.
pub open spec fn local_endpoint(upstream: SocketAddr) -> Seq<char> {
    if upstream is V6 {
        "[::]:0"@
    } else {
        "0.0.0.0:0"@
    }
}

/// Whether `plan` is what follows from what the name of an upstream resolved to:
/// the first address and the local endpoint to reach it from, or the reason why
/// there is none.
pub open spec fn plans(
    resolved: Result<Vec<SocketAddr>, String>,
    plan: Result<BindPlan, ConnectionError>,
) -> bool {
    match resolved {
        Err(reason) => plan == Err::<BindPlan, _>(ConnectionError::JlsForwardError(reason)),
        Ok(addrs) => if addrs@.len() == 0 {
            plan matches Err(ConnectionError::JlsForwardError(reason)) && reason@
                == "jls upstream domain name resolved failed"@
        } else {
            plan matches Ok(plan) && plan.upstream_addr == addrs@[0] && plan.bind_addr@
                == local_endpoint(addrs@[0])
        },
    }
}

/// Picks the upstream out of what its name resolved to, and the local endpoint
/// to reach it from. The first address counts; a name that did not resolve, or
/// resolved to nothing, is an error.
pub fn plan_bind(resolved: Result<Vec<SocketAddr>, String>) -> (plan: Result<
    BindPlan,
    ConnectionError,
>)
    ensures
        plans(resolved, plan),
        resolved is Ok && resolved->Ok_0@.len() > 0 ==> plan is Ok,
        plan matches Ok(plan) ==> resolved is Ok && resolved->Ok_0@.len() > 0
            && plan.upstream_addr == resolved->Ok_0@[0],
        plan matches Ok(plan) ==> (plan.upstream_addr is V6 ==> plan.bind_addr@ == "[::]:0"@),
        plan matches Ok(plan) ==> (plan.upstream_addr is V4 ==> plan.bind_addr@ == "0.0.0.0:0"@),
{
    match resolved {
        Err(reason) => Err(ConnectionError::JlsForwardError(reason)),
        Ok(addrs) => {
            if addrs.len() == 0 {
                return Err(
                    ConnectionError::JlsForwardError(
                        "jls upstream domain name resolved failed".to_owned(),
                    ),
                );
            }
            let upstream_addr = addrs[0];
            let bind_addr = if upstream_addr.is_ipv6() {
                "[::]:0"
            } else {
                "0.0.0.0:0"
            };
            Ok(BindPlan { upstream_addr, bind_addr })
        },
    }
}

/// The socket that was bound, with the upstream that it is for, or the reason why
/// there is none.
pub open spec fn bound_upstream<S>(plan: BindPlan, bound: Result<S, String>) -> Result<
    (S, SocketAddr),
    ConnectionError,
> {
    match bound {
        Ok(socket) => Ok((socket, plan.upstream_addr)),
        Err(reason) => Err(ConnectionError::JlsForwardError(reason)),
    }
}

/// Joins the socket that was bound to the upstream that it is for; a socket
/// that could not be bound is an error.
pub fn finish_bind<S>(plan: BindPlan, bound: Result<S, String>) -> (upstream: Result<
    (S, SocketAddr),
    ConnectionError,
>)
    ensures
        upstream == bound_upstream(plan, bound),
{
    match bound {
        Ok(socket) => Ok((socket, plan.upstream_addr)),
        Err(reason) => Err(ConnectionError::JlsForwardError(reason)),
    }
}

/// There is a plan exactly if the name resolved to something; it goes to the
/// first address, whichever that is, and from a local endpoint of the family of
/// that address: any IPv6 address for IPv6, any IPv4 address for IPv4.
pub proof fn plan_can_reach_upstream(
    addrs: Vec<SocketAddr>,
    plan: Result<BindPlan, ConnectionError>,
)
    requires
        plans(Ok(addrs), plan),
    ensures
        plan is Ok <==> addrs@.len() > 0,
        plan matches Ok(plan) ==> plan.upstream_addr == addrs@[0],
        plan matches Ok(plan) ==> (addrs@[0] is V6 ==> plan.bind_addr@ == "[::]:0"@),
        plan matches Ok(plan) ==> (addrs@[0] is V4 ==> plan.bind_addr@ == "0.0.0.0:0"@),
        plan matches Err(error) ==> error->JlsForwardError_0@
            == "jls upstream domain name resolved failed"@,
{
}

/// Only the first address counts: names that resolve to the same first address
/// give the same upstream and the same local endpoint, whatever comes behind it.
pub proof fn later_addresses_do_not_count(
    addrs: Vec<SocketAddr>,
    others: Vec<SocketAddr>,
    plan: BindPlan,
    other: BindPlan,
)
    requires
        addrs@.len() > 0,
        others@.len() > 0,
        addrs@[0] == others@[0],
        plans(Ok(addrs), Ok(plan)),
        plans(Ok(others), Ok(other)),
    ensures
        plan.upstream_addr == other.upstream_addr,
        plan.bind_addr@ == other.bind_addr@,
{
}

/// A reason why there is no upstream, or no socket for it, comes through as it
/// is; and a socket comes through as it is, with the upstream it was bound for.
pub proof fn reasons_come_through<S>(
    reason: String,
    plan: Result<BindPlan, ConnectionError>,
    bound_for: BindPlan,
    socket: S,
)
    requires
        plans(Err(reason), plan),
    ensures
        plan matches Err(error) && error->JlsForwardError_0 == reason,
        bound_upstream::<S>(bound_for, Err(reason)) matches Err(error)
            && error->JlsForwardError_0 == reason,
        bound_upstream(bound_for, Ok(socket)) matches Ok(pair) && pair.0 == socket && pair.1
            == bound_for.upstream_addr,
{
}

} // verus!
