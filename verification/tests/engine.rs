use tailsrv::engine::{
    classify_socket_errno, handle_completion, CompletionEffect, SocketErrorClass, UserData,
    DRAIN_FROM, EAGAIN, ECONNRESET, EPIPE, FILL_FROM,
};
use tailsrv::registry::{Client, Registry};

#[test]
fn tag_values() {
    assert_eq!(UserData::NewClient.encode(), 0);
    assert_eq!(UserData::Inotify.encode(), 1);
    assert_eq!(UserData::FillPipe(7).encode(), FILL_FROM + 7);
    assert_eq!(UserData::DrainPipe(7).encode(), DRAIN_FROM + 7);
}

#[test]
fn tag_round_trip() {
    for ud in [
        UserData::NewClient,
        UserData::Inotify,
        UserData::FillPipe(0),
        UserData::FillPipe(40000),
        UserData::FillPipe(u16::MAX),
        UserData::DrainPipe(u16::MAX),
    ] {
        assert_eq!(UserData::decode(ud.encode()), Some(ud));
    }
}

#[test]
fn unknown_tags_do_not_decode() {
    assert_eq!(UserData::decode(2), None);
    assert_eq!(UserData::decode(99999), None);
    assert_eq!(UserData::decode(DRAIN_FROM + 70000), None);
    // The ranges hold every client id and nothing more.
    assert_eq!(UserData::decode(FILL_FROM + 65535), Some(UserData::FillPipe(65535)));
    assert_eq!(UserData::decode(FILL_FROM + 65536), None);
    assert_eq!(UserData::decode(DRAIN_FROM + 65536), None);
}

#[test]
fn errno_classification() {
    assert_eq!(classify_socket_errno(EPIPE), SocketErrorClass::PeerGone);
    assert_eq!(classify_socket_errno(ECONNRESET), SocketErrorClass::PeerGone);
    assert_eq!(classify_socket_errno(EAGAIN), SocketErrorClass::WouldBlock);
    assert_eq!(classify_socket_errno(5), SocketErrorClass::Other);
}

fn fresh(offset: u64) -> Client {
    Client {
        offset,
        bytes_in_pipe: 0,
        in_flight: false,
    }
}

#[test]
fn completion_poll_tags() {
    let mut reg = Registry::new();
    assert_eq!(
        handle_completion(&mut reg, UserData::NewClient.encode(), Ok(1)),
        CompletionEffect::ReadEventfd
    );
    assert_eq!(
        handle_completion(&mut reg, UserData::Inotify.encode(), Ok(1)),
        CompletionEffect::ReadInotify
    );
    assert_eq!(
        handle_completion(&mut reg, UserData::Inotify.encode(), Err(5)),
        CompletionEffect::PollError { errno: 5 }
    );
    assert_eq!(
        handle_completion(&mut reg, 77, Ok(0)),
        CompletionEffect::UnknownTag
    );
}

#[test]
fn completion_fill_then_drain() {
    let mut reg = Registry::new();
    reg.insert(3, fresh(50));
    let e = handle_completion(&mut reg, UserData::FillPipe(3).encode(), Ok(20));
    assert_eq!(e, CompletionEffect::Filled { id: 3 });
    assert_eq!(reg.get(3).unwrap().bytes_in_pipe, 20);

    let e = handle_completion(&mut reg, UserData::DrainPipe(3).encode(), Ok(20));
    assert_eq!(e, CompletionEffect::Drained { id: 3 });
    let c = reg.get(3).unwrap();
    assert_eq!(c.offset, 70);
    assert_eq!(c.bytes_in_pipe, 0);
    assert!(!c.in_flight);
}

#[test]
fn completion_for_departed_client_is_stale() {
    let mut reg = Registry::new();
    let e = handle_completion(&mut reg, UserData::FillPipe(3).encode(), Ok(20));
    assert_eq!(e, CompletionEffect::Stale { id: 3 });
}

#[test]
fn would_block_keeps_the_session_and_retries_the_chunk() {
    let mut reg = Registry::new();
    reg.insert(4, fresh(0));
    // The session gets a fill-and-drain planned, moves 10 bytes into its
    // pipe, and then the drain hits a socket that is not writable.
    let plans = reg.plan_requests(100);
    assert_eq!(plans, vec![(4, tailsrv::registry::PlannedReq::FillAndDrain)]);
    assert!(reg.record_fill(4, 10));
    let e = handle_completion(&mut reg, UserData::DrainPipe(4).encode(), Err(EAGAIN));
    assert_eq!(e, CompletionEffect::Retry { id: 4 });

    // The session is still registered, nothing was lost or advanced,
    // and the next planning pass re-issues the drain of the same bytes.
    let c = reg.get(4).unwrap();
    assert_eq!(c.offset, 0);
    assert_eq!(c.bytes_in_pipe, 10);
    assert!(!c.in_flight);
    let plans = reg.plan_requests(100);
    assert_eq!(plans, vec![(4, tailsrv::registry::PlannedReq::Drain)]);
}

#[test]
fn would_block_for_a_departed_client_is_stale() {
    let mut reg = Registry::new();
    let e = handle_completion(&mut reg, UserData::DrainPipe(4).encode(), Err(EAGAIN));
    assert_eq!(e, CompletionEffect::Stale { id: 4 });
}

#[test]
fn peer_reset_ends_only_that_session() {
    let mut reg = Registry::new();
    reg.insert(1, fresh(10));
    reg.insert(2, fresh(20));

    let e = handle_completion(&mut reg, UserData::DrainPipe(1).encode(), Err(ECONNRESET));
    assert_eq!(
        e,
        CompletionEffect::ClientFailed {
            id: 1,
            peer_gone: true
        }
    );
    assert!(!reg.contains(1));
    // The other session is unaffected.
    assert_eq!(reg.get(2), Some(fresh(20)));
}

#[test]
fn unexpected_socket_error_is_reported_as_such() {
    let mut reg = Registry::new();
    reg.insert(1, fresh(0));
    let e = handle_completion(&mut reg, UserData::FillPipe(1).encode(), Err(5));
    assert_eq!(
        e,
        CompletionEffect::ClientFailed {
            id: 1,
            peer_gone: false
        }
    );
    assert!(!reg.contains(1));
}
