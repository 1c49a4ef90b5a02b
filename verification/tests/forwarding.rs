use bytes::BytesMut;

use jls_forward::addr::{IpAddr, SocketAddr, SocketAddrV4, SocketAddrV6};
use jls_forward::ecn::EcnCodepoint;
use jls_forward::forward::{
    forward_conn_at, insert_forward_conn, ForwardOutcome, JlsState, RecvMeta, RECV_BUFFER_SIZE,
};
use jls_forward::table::AddrTable;
use jls_forward::time::{Clock, Instant};
use jls_forward::transmit::{redirect_all, respond, udp_transmit, Transmit};
use jls_forward::upstream::{finish_bind, plan_bind, BindPlan, ConnectionError};

fn v4(last: u8, port: u16) -> SocketAddr {
    SocketAddr::V4(SocketAddrV4 { ip: 0x7f00_0000 + last as u32, port })
}

fn v6(ip: u128, port: u16) -> SocketAddr {
    SocketAddr::V6(SocketAddrV6 { ip, port, flowinfo: 0, scope_id: 0 })
}

fn order(destination: SocketAddr, size: usize) -> Transmit {
    Transmit {
        destination,
        ecn: Some(EcnCodepoint::Ect0),
        size,
        segment_size: Some(3),
        src_ip: Some(IpAddr::V4(0x0a00_0001)),
    }
}

fn from(addr: SocketAddr) -> RecvMeta {
    RecvMeta { addr, ecn: None }
}

fn buf(bytes: &[u8]) -> BytesMut {
    BytesMut::from(bytes)
}

/// A state with a rate of 800 bits, that is one byte per cycle, for each unit
/// of `budget`, and one peer with the socket 7.
fn connected(budget: u64) -> (JlsState<u32>, Clock) {
    let clock = Clock::start();
    let mut state: JlsState<u32> = JlsState::new(budget * 800);
    let now = clock.now();
    let initial = insert_forward_conn(
        &mut state,
        Ok((7, v4(1, 4445))),
        &vec![],
        b"",
        v4(2, 5000),
        &clock,
        now,
    );
    assert!(initial.unwrap().is_empty());
    (state, clock)
}

#[test]
fn unknown_sender_is_not_handled() {
    let (mut state, clock) = connected(100);
    let data = buf(b"hello");
    let outcome = state.handle_jls_forward(&data, &from(v4(3, 5000)), clock.now());
    assert!(matches!(outcome, ForwardOutcome::NotForwarded));
    assert!(!outcome.handled());
    let outcome = state.handle_jls_forward(&data, &from(v4(2, 5001)), clock.now());
    assert!(!outcome.handled());
    assert!(state.upstream_connections.get(&v4(3, 5000)).is_none());
}

#[test]
fn known_sender_reaches_its_upstream() {
    let (mut state, clock) = connected(100);
    let data = buf(b"hello");
    let now = Instant { nanos: clock.now().nanos + 5 };
    let meta = RecvMeta { addr: v4(2, 5000), ecn: Some(EcnCodepoint::Ce) };
    assert!(state.can_handle(&meta.addr, 5, now));
    let outcome = state.handle_jls_forward(&data, &meta, now);
    assert!(outcome.handled());
    match outcome {
        ForwardOutcome::Send(d) => {
            assert_eq!(d.destination, v4(1, 4445));
            assert_eq!(d.contents, b"hello");
            assert_eq!(d.ecn, Some(EcnCodepoint::Ce));
            assert_eq!(d.segment_size, None);
            assert_eq!(d.src_ip, None);
        }
        _ => panic!("not sent"),
    }
    let conn = state.upstream_connections.get(&v4(2, 5000)).unwrap();
    assert_eq!(conn.active_time, now);
    assert_eq!(conn.upstream_socket, 7);
}

#[test]
fn limited_sender_is_handled_and_heard_of() {
    let (mut state, clock) = connected(4);
    let data = buf(b"hello");
    let now = Instant { nanos: clock.now().nanos + 5 };
    let outcome = state.handle_jls_forward(&data, &from(v4(2, 5000)), now);
    assert!(matches!(outcome, ForwardOutcome::RateLimited));
    assert!(outcome.handled());
    assert_eq!(state.upstream_connections.get(&v4(2, 5000)).unwrap().active_time, now);
}

#[test]
fn peers_have_budgets_of_their_own() {
    let (mut state, clock) = connected(5);
    let now = clock.now();
    insert_forward_conn(&mut state, Ok((8, v4(9, 443))), &vec![], b"", v4(3, 5000), &clock, now).unwrap();
    // both limiters began before this, and a full cycle ago
    let t = Instant { nanos: clock.now().nanos + 20_000_000 };
    let data = buf(b"hello");
    let one = buf(b"x");
    let first = from(v4(2, 5000));
    let second = from(v4(3, 5000));
    assert!(matches!(state.handle_jls_forward(&data, &first, t), ForwardOutcome::Send(_)));
    assert!(matches!(state.handle_jls_forward(&one, &first, t), ForwardOutcome::RateLimited));
    match state.handle_jls_forward(&data, &second, t) {
        ForwardOutcome::Send(d) => assert_eq!(d.destination, v4(9, 443)),
        _ => panic!("not sent"),
    }
    let later = Instant { nanos: t.nanos + 10_000_000 };
    assert!(matches!(state.handle_jls_forward(&data, &first, later), ForwardOutcome::Send(_)));
}

#[test]
fn history_of_a_peer_holds_to_its_rate() {
    let (mut state, clock) = connected(10);
    let peer = from(v4(2, 5000));
    let t0 = clock.now().nanos + 10_000_000;
    let data = buf(b"abcd");
    let other = buf(b"zz");
    let mut passed: usize = 0;
    let mut i: u128 = 0;
    while i < 30 {
        let now = Instant { nanos: t0 + i * 1_000_000 };
        if let ForwardOutcome::Send(d) = state.handle_jls_forward(&data, &peer, now) {
            passed += d.contents.len();
        }
        assert!(!state.handle_jls_forward(&other, &from(v4(9, 9)), now).handled());
        i += 1;
    }
    // three cycles of ten bytes, two datagrams of four bytes in each
    assert_eq!(passed, 24);
}

#[test]
fn default_state_forwards_nobody() {
    let mut state: JlsState<u32> = JlsState::default();
    assert_eq!(state.rate_bps, 0);
    let data = buf(b"x");
    let now = Instant { nanos: 1 };
    assert!(!state.handle_jls_forward(&data, &from(v4(2, 5000)), now).handled());
    let clock = Clock::start();
    insert_forward_conn(&mut state, Ok((1, v4(1, 1))), &vec![], b"", v4(2, 5000), &clock, now).unwrap();
    let empty = buf(b"");
    assert!(matches!(
        state.handle_jls_forward(&data, &from(v4(2, 5000)), now),
        ForwardOutcome::RateLimited
    ));
    assert!(matches!(
        state.handle_jls_forward(&empty, &from(v4(2, 5000)), now),
        ForwardOutcome::Send(_)
    ));
}

#[test]
fn insertion_sets_the_connection_up() {
    let clock = Clock::start();
    let mut state: JlsState<u32> = JlsState::new(1_024_000);
    let now = Instant { nanos: 42 };
    let trans = vec![order(v4(5, 1), 3), order(v4(6, 2), 0), order(v4(7, 3), 2)];
    let datagrams = insert_forward_conn(
        &mut state,
        Ok((7, v6(1, 4445))),
        &trans,
        b"abcdefgh",
        v4(2, 5000),
        &clock,
        now,
    )
    .unwrap();
    assert_eq!(datagrams.len(), 3);
    assert_eq!(datagrams[0].contents, b"abc");
    assert_eq!(datagrams[1].contents, b"");
    assert_eq!(datagrams[2].contents, b"de");
    for d in datagrams.iter() {
        assert_eq!(d.destination, v6(1, 4445));
        assert_eq!(d.ecn, Some(EcnCodepoint::Ect0));
        assert_eq!(d.segment_size, Some(3));
        assert_eq!(d.src_ip, Some(IpAddr::V4(0x0a00_0001)));
    }
    let conn = state.upstream_connections.get(&v4(2, 5000)).unwrap();
    assert_eq!(conn.upstream_addr, v6(1, 4445));
    assert_eq!(conn.active_time, now);
    assert_eq!(conn.from_upstream.len(), RECV_BUFFER_SIZE);
    assert_eq!(RECV_BUFFER_SIZE, 1_048_576);
    assert!(conn.from_upstream.iter().all(|b| *b == 0));
    assert_eq!(conn.send_limiter.bytes_per_cycle, 1280);
    assert_eq!(conn.recv_limiter.bytes_per_cycle, 1280);
}

#[test]
fn failed_bind_leaves_the_state_alone() {
    let (mut state, clock) = connected(5);
    let error = ConnectionError::JlsForwardError("no route".to_string());
    let result = insert_forward_conn(
        &mut state,
        Err(error),
        &vec![order(v4(1, 1), 100)],
        b"",
        v4(3, 5000),
        &clock,
        clock.now(),
    );
    match result {
        Err(ConnectionError::JlsForwardError(reason)) => assert_eq!(reason, "no route"),
        Ok(_) => panic!("connected"),
    }
    assert!(state.upstream_connections.get(&v4(3, 5000)).is_none());
    assert!(state.upstream_connections.get(&v4(2, 5000)).is_some());
}

#[test]
fn reconnection_replaces_the_upstream() {
    let (mut state, clock) = connected(100);
    let now = clock.now();
    insert_forward_conn(&mut state, Ok((9, v6(3, 443))), &vec![], b"", v4(2, 5000), &clock, now).unwrap();
    let data = buf(b"hello");
    match state.handle_jls_forward(&data, &from(v4(2, 5000)), clock.now()) {
        ForwardOutcome::Send(d) => assert_eq!(d.destination, v6(3, 443)),
        _ => panic!("not sent"),
    }
    assert_eq!(state.upstream_connections.get(&v4(2, 5000)).unwrap().upstream_socket, 9);
}

#[test]
fn redirected_datagrams_cover_the_front_of_the_buffer() {
    let trans = vec![order(v4(5, 1), 1), order(v4(5, 1), 4), order(v4(5, 1), 2)];
    let datagrams = redirect_all(&trans, b"0123456789", v4(9, 9));
    let mut joined: Vec<u8> = Vec::new();
    for d in datagrams.iter() {
        joined.extend_from_slice(d.contents);
    }
    assert_eq!(joined, b"0123456");
    assert!(redirect_all(&vec![], b"0123", v4(9, 9)).is_empty());
}

#[test]
fn missing_bytes_end_the_series() {
    let trans = vec![order(v4(5, 1), 2), order(v4(5, 1), usize::MAX), order(v4(5, 1), 1)];
    let datagrams = redirect_all(&trans, b"0123456789", v4(9, 9));
    assert_eq!(datagrams.len(), 1);
    assert_eq!(datagrams[0].contents, b"01");
    let exact = vec![order(v4(5, 1), 2), order(v4(5, 1), 3)];
    assert_eq!(redirect_all(&exact, b"01234", v4(9, 9)).len(), 2);
    assert_eq!(redirect_all(&exact, b"0123", v4(9, 9)).len(), 1);
}

#[test]
fn orders_become_datagrams() {
    let d = udp_transmit(&order(v4(5, 1), 99), b"xyz");
    assert_eq!(d.contents, b"xyz");
    assert_eq!(d.destination, v4(5, 1));
    assert_eq!(d.src_ip, Some(IpAddr::V4(0x0a00_0001)));
    assert_eq!(respond(order(v4(5, 1), 2), b"xyz").contents, b"xy");
}

#[test]
fn upstream_is_the_first_address() {
    let plan = plan_bind(Ok(vec![v6(1, 4445), v4(1, 4445)])).unwrap();
    assert_eq!(plan.upstream_addr, v6(1, 4445));
    assert_eq!(plan.bind_addr, "[::]:0");
    let plan = plan_bind(Ok(vec![v4(1, 4445), v6(1, 4445)])).unwrap();
    assert_eq!(plan.upstream_addr, v4(1, 4445));
    assert_eq!(plan.bind_addr, "0.0.0.0:0");
}

#[test]
fn unresolved_upstream_is_an_error() {
    match plan_bind(Err("lookup failed".to_string())) {
        Err(ConnectionError::JlsForwardError(reason)) => assert_eq!(reason, "lookup failed"),
        Ok(_) => panic!("resolved"),
    }
    match plan_bind(Ok(vec![])) {
        Err(ConnectionError::JlsForwardError(reason)) => {
            assert_eq!(reason, "jls upstream domain name resolved failed")
        }
        Ok(_) => panic!("resolved"),
    }
}

#[test]
fn bound_socket_is_joined_to_its_upstream() {
    let plan = BindPlan { upstream_addr: v4(1, 4445), bind_addr: "0.0.0.0:0" };
    assert_eq!(finish_bind(plan, Ok(3u8)).unwrap(), (3u8, v4(1, 4445)));
    match finish_bind::<u8>(plan, Err("in use".to_string())) {
        Err(ConnectionError::JlsForwardError(reason)) => assert_eq!(reason, "in use"),
        Ok(_) => panic!("bound"),
    }
}

#[test]
fn marks_survive_the_header() {
    for mark in [EcnCodepoint::Ect0, EcnCodepoint::Ect1, EcnCodepoint::Ce] {
        assert_eq!(EcnCodepoint::from_bits(mark.bits()), Some(mark));
    }
    assert_eq!(EcnCodepoint::Ect0.bits(), 2);
    assert_eq!(EcnCodepoint::Ect1.bits(), 1);
    assert_eq!(EcnCodepoint::Ce.bits(), 3);
    assert_eq!(EcnCodepoint::from_bits(0b1111_1100), None);
    assert_eq!(EcnCodepoint::from_bits(0b1111_1101), Some(EcnCodepoint::Ect1));
}

#[test]
fn table_tells_endpoints_apart() {
    let mut table: AddrTable<u32> = AddrTable::new();
    let addrs = vec![
        v4(1, 80),
        v4(1, 81),
        v4(2, 80),
        SocketAddr::V6(SocketAddrV6 { ip: 0x7f00_0001, port: 80, flowinfo: 0, scope_id: 0 }),
        SocketAddr::V6(SocketAddrV6 { ip: 0x7f00_0001, port: 80, flowinfo: 1, scope_id: 0 }),
        SocketAddr::V6(SocketAddrV6 { ip: 0x7f00_0001, port: 80, flowinfo: 0, scope_id: 1 }),
        SocketAddr::V6(SocketAddrV6 { ip: 0x7f00_0001, port: 81, flowinfo: 0, scope_id: 0 }),
        SocketAddr::V6(SocketAddrV6 {
            ip: u128::MAX,
            port: u16::MAX,
            flowinfo: u32::MAX,
            scope_id: u32::MAX,
        }),
    ];
    for (i, addr) in addrs.iter().enumerate() {
        assert!(table.get(addr).is_none());
        assert!(table.get_mut(addr).is_none());
        table.insert(*addr, i as u32);
    }
    for (i, addr) in addrs.iter().enumerate() {
        assert_eq!(table.get(addr), Some(&(i as u32)));
        *table.get_mut(addr).unwrap() += 100;
    }
    for (i, addr) in addrs.iter().enumerate() {
        assert_eq!(table.get(addr), Some(&(i as u32 + 100)));
    }
    table.insert(v4(1, 80), 5);
    assert_eq!(table.get(&v4(1, 80)), Some(&5));
    assert_eq!(table.get(&v4(1, 81)), Some(&101));
    assert!(v6(1, 1).is_ipv6());
    assert!(!v4(1, 1).is_ipv6());
}

#[test]
fn limiters_begin_when_they_are_told() {
    let ms = |millis: u128| Instant { nanos: millis * 1_000_000 };
    let mut conn = forward_conn_at(7u32, v4(1, 4445), 80_000, ms(100), ms(103), ms(42));
    assert_eq!(conn.upstream_socket, 7);
    assert_eq!(conn.upstream_addr, v4(1, 4445));
    assert_eq!(conn.active_time, ms(42));
    assert_eq!(conn.from_upstream.len(), RECV_BUFFER_SIZE);
    assert!(conn.send_limiter.should_send(100, ms(109)));
    assert!(!conn.send_limiter.should_send(1, ms(109)));
    assert!(conn.send_limiter.should_send(1, ms(110)));
    assert!(conn.recv_limiter.should_send(100, ms(110)));
    assert!(!conn.recv_limiter.should_send(1, ms(112)));
    assert!(conn.recv_limiter.should_send(1, ms(113)));
}

#[test]
fn peer_stays_with_its_upstream() {
    let (mut state, clock) = connected(10);
    let now = clock.now();
    let data = buf(b"abcd");
    let mut t = now.nanos + 10_000_000;
    for i in 0..5u16 {
        let other = v4(50, 6000 + i);
        insert_forward_conn(&mut state, Ok((99, v4(60, i))), &vec![], b"", other, &clock, now)
            .unwrap();
        let later = Instant { nanos: t };
        state.handle_jls_forward(&data, &from(other), later);
        match state.handle_jls_forward(&data, &from(v4(2, 5000)), later) {
            ForwardOutcome::Send(d) => assert_eq!(d.destination, v4(1, 4445)),
            _ => panic!("not sent"),
        }
        let conn = state.upstream_connections.get(&v4(2, 5000)).unwrap();
        assert_eq!(conn.upstream_socket, 7);
        t += 10_000_000;
    }
}

#[test]
fn first_datagram_needs_only_to_fit() {
    let (mut state, clock) = connected(5);
    let now = clock.now();
    insert_forward_conn(&mut state, Ok((8, v4(9, 443))), &vec![], b"", v4(3, 5000), &clock, now)
        .unwrap();
    let five = buf(b"hello");
    assert!(state.handle_jls_forward(&five, &from(v4(3, 5000)), now).handled());
    assert!(matches!(
        state.handle_jls_forward(&five, &from(v4(2, 5000)), now),
        ForwardOutcome::Send(_)
    ));
    let (mut state, clock) = connected(5);
    let six = buf(b"hello!");
    assert!(matches!(
        state.handle_jls_forward(&six, &from(v4(2, 5000)), clock.now()),
        ForwardOutcome::RateLimited
    ));
}

#[test]
fn highest_rate_can_always_count() {
    let clock = Clock::start();
    let mut state: JlsState<u32> = JlsState::new(u64::MAX);
    let now = clock.now();
    insert_forward_conn(&mut state, Ok((8, v4(9, 443))), &vec![], b"", v4(3, 5000), &clock, now)
        .unwrap();
    let data = buf(b"hello");
    state.handle_jls_forward(&data, &from(v4(3, 5000)), now);
    assert!(state.can_handle(&v4(3, 5000), isize::MAX as usize, now));
    assert!(state.can_handle(&v4(4, 5000), usize::MAX, now));
}

#[test]
fn resolved_upstream_gets_the_datagrams() {
    let plan = plan_bind(Ok(vec![v6(5, 443), v4(1, 443)])).unwrap();
    let bound = finish_bind(plan, Ok(7u32));
    let clock = Clock::start();
    let mut state: JlsState<u32> = JlsState::new(8_000_000);
    let now = clock.now();
    insert_forward_conn(&mut state, bound, &vec![], b"", v4(2, 5000), &clock, now).unwrap();
    let data = buf(b"hello");
    for _ in 0..3 {
        match state.handle_jls_forward(&data, &from(v4(2, 5000)), now) {
            ForwardOutcome::Send(d) => assert_eq!(d.destination, v6(5, 443)),
            _ => panic!("not sent"),
        }
    }
}

#[test]
fn rate_stays_with_the_state() {
    let (mut state, clock) = connected(5);
    let data = buf(b"hello");
    let now = clock.now();
    state.handle_jls_forward(&data, &from(v4(2, 5000)), now);
    state.handle_jls_forward(&data, &from(v4(8, 8)), now);
    insert_forward_conn(&mut state, Ok((8, v4(9, 443))), &vec![], b"", v4(3, 5000), &clock, now)
        .unwrap();
    assert_eq!(state.rate_bps, 4_000);
    for peer in [v4(2, 5000), v4(3, 5000)] {
        let conn = state.upstream_connections.get(&peer).unwrap();
        assert_eq!(conn.send_limiter.bytes_per_cycle, 5);
        assert_eq!(conn.recv_limiter.bytes_per_cycle, 5);
    }
}
