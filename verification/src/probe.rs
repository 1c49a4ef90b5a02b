//! A probe of the whole path: a server that echoes what it is sent, under its
//! own name, and a client that tells from the echo who answered it.
use vstd::prelude::*;

verus! {

/// Longest request that the server reads.
pub const REQUEST_LIMIT: usize = 64 * 1024;

/// What came of waiting for the next stream of a connection.
#[derive(Debug)]
pub enum Accepted<T, E> {
    /// The peer opened a stream.
    Stream(T),
    /// The peer closed the connection.
    ApplicationClosed,
    /// The connection broke.
    Failed(E),
}

/// What the server does next on a connection.
#[derive(Debug)]
pub enum ServerStep<T, E> {
    /// Answer the request on this stream, and wait for the next stream.
    Serve(T),
    /// Leave the connection, with this result.
    Leave(Result<(), E>),
}

/// Each stream is a request of its own. A connection that the peer closes has
/// come to its regular end; any other loss is an error.
pub fn next_step<T, E>(accepted: Accepted<T, E>) -> (step: ServerStep<T, E>)
    ensures
        step == match accepted {
            Accepted::Stream(stream) => ServerStep::Serve(stream),
            Accepted::ApplicationClosed => ServerStep::Leave(Ok(())),
            Accepted::Failed(error) => ServerStep::Leave(Err(error)),
        },
{
    match accepted {
        Accepted::Stream(stream) => ServerStep::Serve(stream),
        Accepted::ApplicationClosed => ServerStep::Leave(Ok(())),
        Accepted::Failed(error) => ServerStep::Leave(Err(error)),
    }
}

/// Passes on what succeeded, and says what failed otherwise.
fn or_explain<T>(outcome: Result<T, String>, what: &str) -> (explained: Result<T, String>)
    ensures
        match outcome {
            Ok(value) => explained == Ok::<_, String>(value),
            Err(reason) => explained matches Err(message) && message@ == what@ + reason@,
        },
{
    match outcome {
        Ok(value) => Ok(value),
        Err(reason) => Err(what.to_owned().concat(reason.as_str())),
    }
}

/// Passes a request on that could be read, and says what failed otherwise.
pub fn request_read(read: Result<Vec<u8>, String>) -> (request: Result<Vec<u8>, String>)
    ensures
        match read {
            Ok(bytes) => request == Ok::<_, String>(bytes),
            Err(reason) => request matches Err(message) && message@ == "failed reading request: "@
                + reason@,
        },
{
    or_explain(read, "failed reading request: ")
}

/// The two writes that answer a request, in order: the name of the server, then
/// the request itself. Together they are its echo.
pub fn reply_parts<'a>(name: &'a [u8], request: &'a [u8]) -> (parts: (&'a [u8], &'a [u8]))
    ensures
        parts.0@ == name@,
        parts.1@ == request@,
        parts.0@ + parts.1@ == echo(name@, request@),
{
    (name, request)
}

/// The result of answering a request, from that of writing the server's name
/// and that of writing the echo. Only the echo counts.
pub fn reply_written(_name: Result<(), String>, echo: Result<(), String>) -> (reply: Result<
    (),
    String,
>)
    ensures
        match echo {
            Ok(()) => reply is Ok,
            Err(reason) => reply matches Err(message) && message@ == "failed to send response: "@
                + reason@,
        },
{
    or_explain(echo, "failed to send response: ")
}

/// Takes the first address of the server that the client is to talk to.
pub fn remote_found<T>(first: Option<T>) -> (remote: Result<T, String>)
    ensures
        match first {
            Some(addr) => remote == Ok::<_, String>(addr),
            None => remote matches Err(message) && message@ == "couldn't resolve to an address"@,
        },
{
    match first {
        Some(addr) => Ok(addr),
        None => Err("couldn't resolve to an address".to_owned()),
    }
}

/// Passes a stream on that the client could open, and says what failed
/// otherwise.
pub fn stream_opened<T>(opened: Result<T, String>) -> (stream: Result<T, String>)
    ensures
        match opened {
            Ok(value) => stream == Ok::<_, String>(value),
            Err(reason) => stream matches Err(message) && message@ == "failed to open stream: "@
                + reason@,
        },
{
    or_explain(opened, "failed to open stream: ")
}

/// The result of sending the client's request, and what failed where it failed.
pub fn request_sent(sent: Result<(), String>) -> (request: Result<(), String>)
    ensures
        match sent {
            Ok(()) => request is Ok,
            Err(reason) => request matches Err(message) && message@ == "failed to send request: "@
                + reason@,
        },
{
    or_explain(sent, "failed to send request: ")
}

/// Passes a response on that the client could read, and says what failed
/// otherwise.
pub fn response_read(read: Result<Vec<u8>, String>) -> (response: Result<Vec<u8>, String>)
    ensures
        match read {
            Ok(bytes) => response == Ok::<_, String>(bytes),
            Err(reason) => response matches Err(message) && message@
                == "failed to read response: "@ + reason@,
        },
{
    or_explain(read, "failed to read response: ")
}

/// What a server with this name answers to `request`.
pub open spec fn echo(name: Seq<u8>, request: Seq<u8>) -> Seq<u8> {
    name + request
}

/// The echo of a request tells servers apart: no two names give the same reply
/// to it.
pub proof fn echo_tells_servers_apart(name: Seq<u8>, other: Seq<u8>, request: Seq<u8>)
    requires
        echo(name, request) == echo(other, request),
    ensures
        name == other,
{
    let n = name.len() as int;
    assert(echo(name, request).len() == n + request.len());
    assert(echo(other, request).len() == other.len() + request.len());
    assert(name =~= echo(name, request).take(n));
    assert(other =~= echo(other, request).take(n));
}

/// An echo begins with the name and ends with the request, with nothing between
/// them and nothing left out.
pub proof fn echo_is_name_then_request(name: Seq<u8>, request: Seq<u8>)
    ensures
        echo(name, request).len() == name.len() + request.len(),
        echo(name, request).take(name.len() as int) == name,
        echo(name, request).skip(name.len() as int) == request,
{
    assert(echo(name, request).take(name.len() as int) =~= name);
    assert(echo(name, request).skip(name.len() as int) =~= request);
}

/// Whether `reply` is what a server with this name answers to `request`.
pub fn is_echo(reply: &[u8], name: &[u8], request: &[u8]) -> (is: bool)
    ensures
        is == (reply@ == echo(name@, request@)),
{
    let split: usize = name.len();
    if reply.len() < split || reply.len() - split != request.len() {
        assert(reply@.len() != echo(name@, request@).len());
        return false;
    }
    let mut i: usize = 0;
    while i < reply.len()
        invariant
            i <= reply@.len(),
            split == name@.len(),
            reply@.len() == split + request@.len(),
            forall|j: int| 0 <= j < i ==> reply@[j] == echo(name@, request@)[j],
        decreases reply@.len() - i,
    {
        let expected: u8 = if i < split {
            name[i]
        } else {
            request[i - split]
        };
        if reply[i] != expected {
            assert(reply@[i as int] != echo(name@, request@)[i as int]);
            return false;
        }
        i += 1;
    }
    assert(reply@ =~= echo(name@, request@));
    true
}

/// What the client saw.
#[derive(Debug)]
pub struct Exchange {
    /// Whether the handshake allowed data ahead of its end.
    pub early_data: bool,
    /// What came back.
    pub reply: Vec<u8>,
    /// Whether the client was recognised by its credentials, where the handshake
    /// has come far enough to tell.
    pub jls: Option<bool>,
}

/// What the client did not expect.
#[derive(Debug, Clone, Copy, PartialEq, Eq, Structural)]
pub enum Surprise {
    /// Early data was called for, and not possible.
    NoEarlyData,
    /// The reply came from another server, or was garbled.
    WrongReply,
    /// The client was recognised where it should not have been, or the other
    /// way round.
    WrongAuthentication,
}

/// Whether the client goes on, once it is known whether the handshake allows
/// early data: not if early data is called for and not possible. This is decided
/// before the handshake is waited for and before any stream is opened.
pub fn check_early_data(zero_rtt: bool, early_data: bool) -> (verdict: Result<(), Surprise>)
    ensures
        verdict == if zero_rtt && !early_data {
            Err(Surprise::NoEarlyData)
        } else {
            Ok(())
        },
{
    if zero_rtt && !early_data {
        return Err(Surprise::NoEarlyData);
    }
    Ok(())
}

/// Whether the server treated early data as the client expects: accepted exactly
/// if `zero_rtt` calls for it.
pub fn check_acceptance(zero_rtt: bool, accepted: bool) -> (ok: bool)
    ensures
        ok == (accepted == zero_rtt),
{
    accepted == zero_rtt
}

/// Whether an attempt to connect came to nothing, as every attempt of a client
/// without credentials must at a server that asks for them.
pub fn attempt_failed<T, E>(attempt: &Result<T, E>) -> (failed: bool)
    ensures
        failed == (*attempt is Err),
{
    attempt.is_err()
}

/// Holds what the client saw against what it expects: early data if `zero_rtt`
/// calls for it, the echo of `request` by the server `name`, and to be
/// recognised or not as `jls` says. The first surprise counts, in that order.
pub fn check_exchange(exchange: &Exchange, zero_rtt: bool, jls: bool, name: &[u8], request: &[u8]) -> (
verdict: Result<(), Surprise>)
    ensures
        verdict == if zero_rtt && !exchange.early_data {
            Err(Surprise::NoEarlyData)
        } else if exchange.reply@ != echo(name@, request@) {
            Err(Surprise::WrongReply)
        } else if exchange.jls != Some(jls) {
            Err(Surprise::WrongAuthentication)
        } else {
            Ok(())
        },
{
    if let Err(surprise) = check_early_data(zero_rtt, exchange.early_data) {
        return Err(surprise);
    }
    if !is_echo(exchange.reply.as_slice(), name, request) {
        return Err(Surprise::WrongReply);
    }
    match exchange.jls {
        Some(recognised) => {
            if recognised == jls {
                Ok(())
            } else {
                Err(Surprise::WrongAuthentication)
            }
        },
        None => Err(Surprise::WrongAuthentication),
    }
}

} // verus!
