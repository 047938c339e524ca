//! The event-loop engine: tagging of kernel requests, classification of
//! socket errors, and the handling of each completion the kernel posts.
//!
//! Every request submitted to the kernel carries a numeric tag saying
//! what its completion means; the two fixed tags mark the new-client
//! signal and the filesystem watch, and two disjoint ranges carry the
//! client id of a fill or drain transfer.

use crate::registry::Client;
use crate::registry::Registry;
use crate::registry::spec_on_drain;
use crate::registry::spec_on_fill;
use crate::registry::spec_on_would_block;
use vstd::prelude::*;

verus! {

/// What a completion that finished says was done.
#[derive(Debug, Clone, Copy, PartialEq, Eq, Structural)]
pub enum UserData {
    /// The listener signalled newly registered clients.
    NewClient,
    /// The filesystem watch has events to read.
    Inotify,
    /// A splice from the file into a client's pipe finished.
    FillPipe(u16),
    /// A splice from a client's pipe to its socket finished.
    DrainPipe(u16),
}

/// First tag of the range carrying fill completions.
pub const FILL_FROM: u64 = 100000;

/// One past the last tag of the fill range: the range holds every
/// client id.
pub const FILL_TO: u64 = FILL_FROM + 65536;

/// First tag of the range carrying drain completions.
pub const DRAIN_FROM: u64 = 200000;

/// One past the last tag of the drain range: the range holds every
/// client id.
pub const DRAIN_TO: u64 = DRAIN_FROM + 65536;

/// The numeric tag a request carries.
pub open spec fn spec_encode(ud: UserData) -> u64 {
    match ud {
        UserData::NewClient => 0,
        UserData::Inotify => 1,
        UserData::FillPipe(id) => (id + FILL_FROM) as u64,
        UserData::DrainPipe(id) => (id + DRAIN_FROM) as u64,
    }
}

/// What a numeric tag means, if anything.
pub open spec fn spec_decode(v: u64) -> Option<UserData> {
    if v == 0 {
        Some(UserData::NewClient)
    } else if v == 1 {
        Some(UserData::Inotify)
    } else if FILL_FROM <= v < FILL_TO {
        Some(UserData::FillPipe((v - FILL_FROM) as u16))
    } else if DRAIN_FROM <= v < DRAIN_TO {
        Some(UserData::DrainPipe((v - DRAIN_FROM) as u16))
    } else {
        None
    }
}

impl UserData {
    /// The numeric tag this request carries.
    pub fn encode(self) -> (v: u64)
        ensures
            v == spec_encode(self),
    {
        match self {
            UserData::NewClient => 0,
            UserData::Inotify => 1,
            UserData::FillPipe(id) => id as u64 + FILL_FROM,
            UserData::DrainPipe(id) => id as u64 + DRAIN_FROM,
        }
    }

    /// What a numeric tag means, if anything.
    pub fn decode(v: u64) -> (r: Option<UserData>)
        ensures
            r == spec_decode(v),
    {
        if v == 0 {
            Some(UserData::NewClient)
        } else if FILL_FROM <= v && v < FILL_TO {
            Some(UserData::FillPipe((v - FILL_FROM) as u16))
        } else if DRAIN_FROM <= v && v < DRAIN_TO {
            Some(UserData::DrainPipe((v - DRAIN_FROM) as u16))
        } else if v == 1 {
            Some(UserData::Inotify)
        } else {
            None
        }
    }
}

/// Every tag decodes back to the request it was made from: no
/// completion can be attributed to the wrong source or the wrong
/// client, whatever the client id.
pub proof fn lemma_encode_then_decode(ud: UserData)
    ensures
        spec_decode(spec_encode(ud)) == Some(ud),
{
}

/// A tag that means anything is the tag of what it means: decoding
/// loses nothing.
pub proof fn lemma_decode_then_encode(v: u64)
    requires
        spec_decode(v) is Some,
    ensures
        spec_encode(spec_decode(v)->Some_0) == v,
{
}

/// How a failed socket transfer is treated.
#[derive(Debug, Clone, Copy, PartialEq, Eq, Structural)]
pub enum SocketErrorClass {
    /// The peer went away (broken pipe or connection reset): the session
    /// ends cleanly.
    PeerGone,
    /// The socket is not ready: the transfer is retried later.
    WouldBlock,
    /// Anything else: the session ends with an error report.
    Other,
}

/// Broken pipe.
pub const EPIPE: i32 = 32;

/// Connection reset by peer.
pub const ECONNRESET: i32 = 104;

/// Operation would block.
pub const EAGAIN: i32 = 11;

/// How an errno from a socket transfer is treated.
pub open spec fn spec_classify(errno: i32) -> SocketErrorClass {
    if errno == EPIPE || errno == ECONNRESET {
        SocketErrorClass::PeerGone
    } else if errno == EAGAIN {
        SocketErrorClass::WouldBlock
    } else {
        SocketErrorClass::Other
    }
}

/// Classifies an errno from a socket transfer.
pub fn classify_socket_errno(errno: i32) -> (r: SocketErrorClass)
    ensures
        r == spec_classify(errno),
{
    if errno == EPIPE || errno == ECONNRESET {
        SocketErrorClass::PeerGone
    } else if errno == EAGAIN {
        SocketErrorClass::WouldBlock
    } else {
        SocketErrorClass::Other
    }
}

/// What a failed transfer completion does to the registry, following
/// the socket error policy: a not-ready socket keeps the session for a
/// retry; any other error ends that one session.
pub open spec fn spec_failed_transfer(
    before: Map<u16, Client>,
    after: Map<u16, Client>,
    id: u16,
    errno: i32,
    e: CompletionEffect,
) -> bool {
    if spec_classify(errno) == SocketErrorClass::WouldBlock {
        if before.dom().contains(id) {
            after == before.insert(id, spec_on_would_block(before[id]))
                && e == (CompletionEffect::Retry { id })
        } else {
            after == before && e == (CompletionEffect::Stale { id })
        }
    } else {
        after == before.remove(id) && e == (CompletionEffect::ClientFailed {
            id,
            peer_gone: spec_classify(errno) == SocketErrorClass::PeerGone,
        })
    }
}

/// What the caller must do after one completion is handled.
#[derive(Debug, Clone, Copy, PartialEq, Eq, Structural)]
pub enum CompletionEffect {
    /// New clients registered themselves: drain the signal counter.
    ReadEventfd,
    /// Filesystem events are pending: read them and apply the watcher.
    ReadInotify,
    /// A poll completion reported an error: report it and carry on.
    PollError { errno: i32 },
    /// Bytes entered the client's pipe; its bookkeeping was updated.
    Filled { id: u16 },
    /// Bytes reached the client's socket; its bookkeeping was updated.
    Drained { id: u16 },
    /// The client's socket was not ready for a transfer: nothing moved,
    /// the session is kept as it was, and the next planning pass issues
    /// the same transfer again.
    Retry { id: u16 },
    /// A transfer for the client failed, so it was deregistered.
    /// `peer_gone` tells a clean disconnect from an unexpected error.
    ClientFailed { id: u16, peer_gone: bool },
    /// A transfer completion that cannot be recorded: the client is no
    /// longer registered, or the byte count cannot be accounted.
    Stale { id: u16 },
    /// The tag is not one this process issues.
    UnknownTag,
}

/// Handles one kernel completion, carrying tag `user_data` and either a
/// transferred byte count or an errno: updates the one client session it
/// concerns and says what, if anything, the caller must now do.
///
/// A successful fill adds to the client's pipe account; a successful
/// drain advances the client's offset by exactly the bytes delivered and
/// clears its in-flight mark.  A transfer that failed because the socket
/// was not ready leaves the session as it was, to be retried by the next
/// planning pass; any other failed transfer deregisters the client.  No
/// other session is touched.
pub fn handle_completion(reg: &mut Registry, user_data: u64, result: Result<u64, i32>) -> (e:
    CompletionEffect)
    requires
        old(reg).wf(),
    ensures
        final(reg).wf(),
        (match spec_decode(user_data) {
            None => final(reg)@ == old(reg)@ && e == CompletionEffect::UnknownTag,
            Some(UserData::NewClient) => final(reg)@ == old(reg)@ && (match result {
                Ok(_) => e == CompletionEffect::ReadEventfd,
                Err(errno) => e == (CompletionEffect::PollError { errno }),
            }),
            Some(UserData::Inotify) => final(reg)@ == old(reg)@ && (match result {
                Ok(_) => e == CompletionEffect::ReadInotify,
                Err(errno) => e == (CompletionEffect::PollError { errno }),
            }),
            Some(UserData::FillPipe(id)) => (match result {
                Ok(n) => {
                    if old(reg).contains_spec(id)
                        && old(reg)@[id].bytes_in_pipe + n <= u64::MAX {
                        final(reg)@ == old(reg)@.insert(id, spec_on_fill(old(reg)@[id], n))
                            && e == (CompletionEffect::Filled { id })
                    } else {
                        final(reg)@ == old(reg)@ && e == (CompletionEffect::Stale { id })
                    }
                },
                Err(errno) => spec_failed_transfer(old(reg)@, final(reg)@, id, errno, e),
            }),
            Some(UserData::DrainPipe(id)) => (match result {
                Ok(n) => {
                    if old(reg).contains_spec(id) && n <= old(reg)@[id].bytes_in_pipe
                        && old(reg)@[id].offset + n <= u64::MAX {
                        final(reg)@ == old(reg)@.insert(id, spec_on_drain(old(reg)@[id], n))
                            && e == (CompletionEffect::Drained { id })
                    } else {
                        final(reg)@ == old(reg)@ && e == (CompletionEffect::Stale { id })
                    }
                },
                Err(errno) => spec_failed_transfer(old(reg)@, final(reg)@, id, errno, e),
            }),
        }),
{
    match UserData::decode(user_data) {
        None => CompletionEffect::UnknownTag,
        Some(UserData::NewClient) => match result {
            Ok(_) => CompletionEffect::ReadEventfd,
            Err(errno) => CompletionEffect::PollError { errno },
        },
        Some(UserData::Inotify) => match result {
            Ok(_) => CompletionEffect::ReadInotify,
            Err(errno) => CompletionEffect::PollError { errno },
        },
        Some(UserData::FillPipe(id)) => match result {
            Ok(n) => {
                if reg.record_fill(id, n) {
                    CompletionEffect::Filled { id }
                } else {
                    CompletionEffect::Stale { id }
                }
            },
            Err(errno) => {
                let class = classify_socket_errno(errno);
                match class {
                    SocketErrorClass::WouldBlock => {
                        if reg.clear_in_flight(id) {
                            CompletionEffect::Retry { id }
                        } else {
                            CompletionEffect::Stale { id }
                        }
                    },
                    _ => {
                        reg.remove(id);
                        CompletionEffect::ClientFailed {
                            id,
                            peer_gone: matches!(class, SocketErrorClass::PeerGone),
                        }
                    },
                }
            },
        },
        Some(UserData::DrainPipe(id)) => match result {
            Ok(n) => {
                if reg.record_drain(id, n) {
                    CompletionEffect::Drained { id }
                } else {
                    CompletionEffect::Stale { id }
                }
            },
            Err(errno) => {
                let class = classify_socket_errno(errno);
                match class {
                    SocketErrorClass::WouldBlock => {
                        if reg.clear_in_flight(id) {
                            CompletionEffect::Retry { id }
                        } else {
                            CompletionEffect::Stale { id }
                        }
                    },
                    _ => {
                        reg.remove(id);
                        CompletionEffect::ClientFailed {
                            id,
                            peer_gone: matches!(class, SocketErrorClass::PeerGone),
                        }
                    },
                }
            },
        },
    }
}

} // verus!
