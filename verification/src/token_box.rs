//! Typed poll tokens: every readiness token the event poller hands back
//! is a bare number, and these functions say which source it stands for.
//!
//! The two highest numbers are reserved for the listener and the
//! filesystem watch; every other number carries a client id and which of
//! the client's two stages it is in, interleaved by parity.

use vstd::prelude::*;

verus! {

/// What a readiness token stands for.
#[derive(Debug, Clone, Copy, PartialEq, Eq, Structural)]
pub enum TypedToken {
    /// The listening socket.
    Listener,
    /// The filesystem watch.
    Inotify,
    /// A client still reading its header.
    NurseryToken(usize),
    /// A client being streamed to.
    PoolToken(usize),
}

/// A client id occupies two token values, one per stage.
pub const CATEGORIES: usize = 2;

/// The source a bare token number stands for.
pub open spec fn spec_from_token(token: usize) -> TypedToken {
    if token == usize::MAX - 1 {
        TypedToken::Listener
    } else if token == usize::MAX - 2 {
        TypedToken::Inotify
    } else if token % CATEGORIES == 0 {
        TypedToken::NurseryToken(token / CATEGORIES)
    } else {
        TypedToken::PoolToken(((token - 1) as usize) / CATEGORIES)
    }
}

/// The bare token number a source is registered under.
pub open spec fn spec_to_token(tt: TypedToken) -> int {
    match tt {
        TypedToken::Listener => usize::MAX - 1,
        TypedToken::Inotify => usize::MAX - 2,
        TypedToken::NurseryToken(x) => x * CATEGORIES,
        TypedToken::PoolToken(x) => x * CATEGORIES + 1,
    }
}

/// The source a bare token number stands for.
pub fn from_token(token: usize) -> (tt: TypedToken)
    ensures
        tt == spec_from_token(token),
{
    if token == usize::MAX - 1 {
        TypedToken::Listener
    } else if token == usize::MAX - 2 {
        TypedToken::Inotify
    } else if token % CATEGORIES == 0 {
        TypedToken::NurseryToken(token / CATEGORIES)
    } else {
        TypedToken::PoolToken((token - 1) / CATEGORIES)
    }
}

/// The bare token number a source is registered under.  Client ids must
/// be small enough that their two token values exist and stay clear of
/// the two reserved numbers.
pub fn to_token(tt: TypedToken) -> (token: usize)
    requires
        (match tt {
            TypedToken::NurseryToken(x) => x < (usize::MAX - 3) / 2,
            TypedToken::PoolToken(x) => x < (usize::MAX - 3) / 2,
            _ => true,
        }),
    ensures
        token == spec_to_token(tt),
{
    match tt {
        TypedToken::Listener => usize::MAX - 1,
        TypedToken::Inotify => usize::MAX - 2,
        TypedToken::NurseryToken(x) => x * CATEGORIES,
        TypedToken::PoolToken(x) => x * CATEGORIES + 1,
    }
}

/// Every token number decodes, and encodes back to itself: no readiness
/// event can be attributed to the wrong source.
pub proof fn lemma_token_round_trip(token: usize)
    ensures
        spec_to_token(spec_from_token(token)) == token,
{
}

/// A source with a small enough client id encodes to a token that
/// decodes back to it: distinct sources never share a token.
pub proof fn lemma_typed_token_round_trip(tt: TypedToken)
    requires
        (match tt {
            TypedToken::NurseryToken(x) => x < (usize::MAX - 3) / 2,
            TypedToken::PoolToken(x) => x < (usize::MAX - 3) / 2,
            _ => true,
        }),
    ensures
        spec_from_token(spec_to_token(tt) as usize) == tt,
{
}

} // verus!
