use jls_forward::probe::{
    attempt_failed, check_acceptance, check_early_data, check_exchange, is_echo, next_step, remote_found, reply_parts, reply_written,
    request_read, request_sent, response_read, stream_opened, Accepted, Exchange, ServerStep,
    Surprise, REQUEST_LIMIT,
};

fn seen(reply: &[u8], jls: Option<bool>) -> Exchange {
    Exchange { early_data: false, reply: reply.to_vec(), jls }
}

#[test]
fn streams_are_served_until_the_peer_leaves() {
    match next_step::<u8, String>(Accepted::Stream(3)) {
        ServerStep::Serve(stream) => assert_eq!(stream, 3),
        ServerStep::Leave(_) => panic!("left"),
    }
    assert!(matches!(
        next_step::<u8, String>(Accepted::ApplicationClosed),
        ServerStep::Leave(Ok(()))
    ));
    match next_step::<u8, String>(Accepted::Failed("reset".to_string())) {
        ServerStep::Leave(Err(error)) => assert_eq!(error, "reset"),
        _ => panic!("served"),
    }
}

#[test]
fn failures_of_a_request_are_told() {
    assert_eq!(REQUEST_LIMIT, 65_536);
    assert_eq!(request_read(Ok(vec![1, 2])), Ok(vec![1, 2]));
    assert_eq!(
        request_read(Err("too long".to_string())),
        Err("failed reading request: too long".to_string())
    );
    assert_eq!(reply_written(Ok(()), Ok(())), Ok(()));
    assert_eq!(reply_written(Err("stopped".to_string()), Ok(())), Ok(()));
    assert_eq!(
        reply_written(Ok(()), Err("stopped".to_string())),
        Err("failed to send response: stopped".to_string())
    );
}

#[test]
fn echo_names_the_server() {
    assert!(is_echo(b"quic_server:test", b"quic_server:", b"test"));
    assert!(!is_echo(b"jls_server:test", b"quic_server:", b"test"));
    assert!(!is_echo(b"quic_server:tess", b"quic_server:", b"test"));
    assert!(!is_echo(b"quic_server:", b"quic_server:", b"test"));
    assert!(!is_echo(b"quic", b"quic_server:", b"test"));
    assert!(!is_echo(b"quic_server:test!", b"quic_server:", b"test"));
    assert!(is_echo(b"", b"", b""));
}

#[test]
fn unauthenticated_client_is_answered_by_the_upstream() {
    let verdict = check_exchange(
        &seen(b"quic_server:test", Some(false)),
        false,
        false,
        b"quic_server:",
        b"test",
    );
    assert_eq!(verdict, Ok(()));
}

#[test]
fn surprises_of_the_client() {
    let good = seen(b"quic_server:test", Some(false));
    assert_eq!(
        check_exchange(&good, true, false, b"quic_server:", b"test"),
        Err(Surprise::NoEarlyData)
    );
    let early = Exchange { early_data: true, reply: b"quic_server:test".to_vec(), jls: Some(false) };
    assert_eq!(check_exchange(&early, true, false, b"quic_server:", b"test"), Ok(()));
    assert_eq!(check_exchange(&early, false, false, b"quic_server:", b"test"), Ok(()));
    assert_eq!(
        check_exchange(&seen(b"jls_server:test", Some(true)), false, false, b"quic_server:", b"test"),
        Err(Surprise::WrongReply)
    );
    assert_eq!(
        check_exchange(&good, false, true, b"quic_server:", b"test"),
        Err(Surprise::WrongAuthentication)
    );
    assert_eq!(
        check_exchange(&seen(b"quic_server:test", None), false, false, b"quic_server:", b"test"),
        Err(Surprise::WrongAuthentication)
    );
}

#[test]
fn early_data_is_decided_first() {
    assert_eq!(check_early_data(true, false), Err(Surprise::NoEarlyData));
    assert_eq!(check_early_data(true, true), Ok(()));
    assert_eq!(check_early_data(false, false), Ok(()));
    assert_eq!(check_early_data(false, true), Ok(()));
}

#[test]
fn reply_is_the_name_and_then_the_request() {
    let (first, second) = reply_parts(b"quic_server:", b"test");
    assert_eq!(first, b"quic_server:");
    assert_eq!(second, b"test");
    let whole = [first, second].concat();
    assert!(is_echo(&whole, b"quic_server:", b"test"));
}

#[test]
fn failures_of_the_client_are_told() {
    assert_eq!(remote_found(Some(7u8)), Ok(7u8));
    assert_eq!(
        remote_found::<u8>(None),
        Err("couldn't resolve to an address".to_string())
    );
    assert_eq!(stream_opened(Ok(3u8)), Ok(3u8));
    assert_eq!(
        stream_opened::<u8>(Err("closed".to_string())),
        Err("failed to open stream: closed".to_string())
    );
    assert_eq!(request_sent(Ok(())), Ok(()));
    assert_eq!(
        request_sent(Err("stopped".to_string())),
        Err("failed to send request: stopped".to_string())
    );
    assert_eq!(response_read(Ok(vec![9])), Ok(vec![9]));
    assert_eq!(
        response_read(Err("reset".to_string())),
        Err("failed to read response: reset".to_string())
    );
}

#[test]
fn acceptance_of_early_data_matches_the_call() {
    assert!(check_acceptance(true, true));
    assert!(check_acceptance(false, false));
    assert!(!check_acceptance(true, false));
    assert!(!check_acceptance(false, true));
}

#[test]
fn attempts_without_credentials_fail() {
    assert!(attempt_failed::<u8, String>(&Err("refused".to_string())));
    assert!(!attempt_failed::<u8, String>(&Ok(1)));
}
