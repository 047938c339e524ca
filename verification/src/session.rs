//! The per-client transfer loop, as decisions over plain values.
//!
//! A session resolves its header to a starting offset once, then
//! repeatedly compares its offset against the latest observed file length:
//! if it is behind it sends a bounded chunk, otherwise it waits to be
//! woken.  The functions here decide each step; the caller performs the
//! actual zero-copy transfer and reports how many bytes the kernel moved.

use vstd::prelude::*;

verus! {

/// Upper bound on the bytes sent to one client in one step, so that a
/// single fast reader cannot monopolise the server.
pub const CHUNK_SIZE: u64 = 1048576;

/// The starting offset a header resolves to, against the file length
/// observed at handshake time.  A non-negative header is an absolute
/// offset; a negative header counts back from the end of the file,
/// saturating at zero.
pub open spec fn resolved_offset(header: int, file_len: int) -> int {
    if header >= 0 {
        header
    } else if file_len + header >= 0 {
        file_len + header
    } else {
        0
    }
}

/// Resolves a client header to a starting byte offset.
///
/// A non-negative header is an absolute offset, which may lie beyond the
/// current end of the file.  A negative header `-k` means "the last `k`
/// bytes": it resolves to `file_len - k`, saturating at zero when `k`
/// exceeds the current file length.
pub fn resolve_offset(header: i64, file_len: u64) -> (offset: u64)
    ensures
        offset == resolved_offset(header as int, file_len as int),
{
    if header >= 0 {
        header as u64
    } else if header == i64::MIN {
        // -header would overflow i64; the magnitude 2^63 still fits in u64.
        let mag: u64 = 9223372036854775808;
        if file_len >= mag {
            file_len - mag
        } else {
            0
        }
    } else {
        let mag = (-header) as u64;
        if file_len >= mag {
            file_len - mag
        } else {
            0
        }
    }
}

/// What a session should do next, given its offset and the latest
/// observed file length.
#[derive(Debug, Clone, Copy, PartialEq, Eq, Structural)]
pub enum Action {
    /// Everything observed so far has been sent: block until woken.
    Wait,
    /// Send `count` bytes starting at the session's current offset.
    Send { count: u64 },
}

/// The next step of the transfer loop: wait when caught up (or when the
/// header pointed beyond the end of the file), otherwise send what is
/// outstanding, capped at `CHUNK_SIZE`.
pub fn next_action(offset: u64, file_len: u64) -> (a: Action)
    ensures
        offset >= file_len ==> a == Action::Wait,
        offset < file_len && file_len - offset <= CHUNK_SIZE
            ==> a == (Action::Send { count: (file_len - offset) as u64 }),
        offset < file_len && file_len - offset > CHUNK_SIZE
            ==> a == (Action::Send { count: CHUNK_SIZE }),
{
    if offset >= file_len {
        Action::Wait
    } else {
        let remaining = file_len - offset;
        if remaining <= CHUNK_SIZE {
            Action::Send { count: remaining }
        } else {
            Action::Send { count: CHUNK_SIZE }
        }
    }
}

/// Appends `count` bytes of `file`, starting at `offset`, to `out`.
/// This is the file-source capability a send step relies on: what a
/// zero-copy transfer of that range would deliver.
fn append_range(file: &Vec<u8>, out: &mut Vec<u8>, offset: usize, count: usize)
    requires
        offset + count <= file@.len(),
    ensures
        final(out)@ == old(out)@ + file@.subrange(offset as int, offset + count),
{
    let mut i: usize = 0;
    while i < count
        invariant
            offset + count <= file@.len(),
            i <= count,
            out@ == old(out)@ + file@.subrange(offset as int, offset + i),
        decreases count - i,
    {
        proof {
            assert(file.len() == file@.len());
        }
        out.push(file[offset + i]);
        assert(out@ =~= old(out)@ + file@.subrange(offset as int, offset + i + 1));
        i = i + 1;
    }
}

/// The bytes of `file` from `offset` to `offset + count`, as a send step
/// would deliver them.
pub fn read_range(file: &Vec<u8>, offset: usize, count: usize) -> (out: Vec<u8>)
    requires
        offset + count <= file@.len(),
    ensures
        out@ == file@.subrange(offset as int, offset + count),
{
    let mut out: Vec<u8> = Vec::new();
    append_range(file, &mut out, offset, count);
    proof {
        assert(out@ =~= file@.subrange(offset as int, offset + count));
    }
    out
}

/// Runs the transfer loop against an in-memory file until the session is
/// caught up: everything from the starting offset to the end of the file
/// is delivered, in order, whatever chunking the loop used.  A starting
/// offset beyond the end of the file delivers nothing.
pub fn stream_to_end(file: &Vec<u8>, start: u64) -> (r: (Vec<u8>, u64))
    ensures
        start <= file@.len()
            ==> r.0@ == file@.subrange(start as int, file@.len() as int)
                && r.1 == file@.len(),
        start > file@.len() ==> r.0@ == Seq::<u8>::empty() && r.1 == start,
{
    let file_len: u64 = file.len() as u64;
    let mut out: Vec<u8> = Vec::new();
    let mut offset: u64 = start;
    if offset >= file_len {
        proof {
            if start <= file@.len() {
                assert(out@ =~= file@.subrange(start as int, file@.len() as int));
            }
        }
        return (out, offset);
    }
    while offset < file_len
        invariant
            start <= offset <= file_len,
            file_len == file@.len(),
            out@ == file@.subrange(start as int, offset as int),
        decreases file_len - offset,
    {
        let count: u64 = match next_action(offset, file_len) {
            Action::Wait => 0,
            Action::Send { count } => count,
        };
        proof {
            assert(file.len() == file@.len());
            assert(offset + count <= file_len);
        }
        append_range(file, &mut out, offset as usize, count as usize);
        proof {
            assert(out@ =~= file@.subrange(start as int, offset + count));
        }
        offset = offset + count;
    }
    (out, offset)
}

/// Whether a sequence of per-step transfer sizes is one the kernel could
/// have reported for a session that started at `start` against a file of
/// length `file_len`: each step moves a non-negative number of bytes and
/// never reads past the end of the file.
pub open spec fn valid_sends(file_len: int, start: int, sends: Seq<int>) -> bool
    decreases sends.len(),
{
    if sends.len() == 0 {
        true
    } else {
        &&& 0 <= sends[0]
        &&& start + sends[0] <= file_len
        &&& valid_sends(file_len, start + sends[0], sends.drop_first())
    }
}

/// The session's offset after a sequence of transfers.
pub open spec fn offset_after(start: int, sends: Seq<int>) -> int
    decreases sends.len(),
{
    if sends.len() == 0 {
        start
    } else {
        offset_after(start + sends[0], sends.drop_first())
    }
}

/// Everything a session writes to its socket over a sequence of
/// transfers: the concatenation of the chunks it sends.
pub open spec fn session_output(file: Seq<u8>, start: int, sends: Seq<int>) -> Seq<u8>
    decreases sends.len(),
{
    if sends.len() == 0 {
        Seq::empty()
    } else {
        file.subrange(start, start + sends[0])
            + session_output(file, start + sends[0], sends.drop_first())
    }
}

/// The session offset never runs backwards and never passes the end of
/// the file: after any valid sequence of transfers it lies between where
/// it started and the file length.
pub proof fn lemma_offset_in_bounds(file_len: int, start: int, sends: Seq<int>)
    requires
        0 <= start <= file_len,
        valid_sends(file_len, start, sends),
    ensures
        start <= offset_after(start, sends) <= file_len,
    decreases sends.len(),
{
    if sends.len() > 0 {
        lemma_offset_in_bounds(file_len, start + sends[0], sends.drop_first());
    }
}

/// Appending one more transfer advances the final offset by its size.
pub proof fn lemma_offset_after_push(start: int, sends: Seq<int>, n: int)
    ensures
        offset_after(start, sends.push(n)) == offset_after(start, sends) + n,
    decreases sends.len(),
{
    if sends.len() == 0 {
        assert(sends.push(n)[0] == n);
        assert(sends.push(n).drop_first() =~= Seq::<int>::empty());
        assert(offset_after(start + n, Seq::<int>::empty()) == start + n);
    } else {
        assert(sends.push(n)[0] == sends[0]);
        assert(sends.push(n).drop_first() =~= sends.drop_first().push(n));
        lemma_offset_after_push(start + sends[0], sends.drop_first(), n);
    }
}

/// One more transfer that stays within the file extends a valid
/// sequence: this is what each round of the transfer loop does, whatever
/// part of the requested chunk the kernel actually moved.
pub proof fn lemma_valid_sends_push(file_len: int, start: int, sends: Seq<int>, n: int)
    requires
        valid_sends(file_len, start, sends),
        0 <= n,
        offset_after(start, sends) + n <= file_len,
    ensures
        valid_sends(file_len, start, sends.push(n)),
    decreases sends.len(),
{
    if sends.len() == 0 {
        assert(sends.push(n)[0] == n);
        assert(sends.push(n).drop_first() =~= Seq::<int>::empty());
        assert(valid_sends(file_len, start + n, Seq::<int>::empty()));
    } else {
        assert(sends.push(n)[0] == sends[0]);
        assert(sends.push(n).drop_first() =~= sends.drop_first().push(n));
        lemma_valid_sends_push(file_len, start + sends[0], sends.drop_first(), n);
    }
}

/// A prefix of a valid sequence of transfers is itself valid.
pub proof fn lemma_valid_sends_take(file_len: int, start: int, sends: Seq<int>, i: int)
    requires
        valid_sends(file_len, start, sends),
        0 <= i <= sends.len(),
    ensures
        valid_sends(file_len, start, sends.take(i)),
    decreases sends.len(),
{
    if sends.len() > 0 && i > 0 {
        assert(sends.take(i).drop_first() =~= sends.drop_first().take(i - 1));
        lemma_valid_sends_take(file_len, start + sends[0], sends.drop_first(), i - 1);
    }
}

/// The offset a session holds is non-decreasing over the life of the
/// session, and never exceeds the file length: at any two points of a
/// valid transfer sequence, the later offset is at least the earlier one.
pub proof fn lemma_offset_monotone(file_len: int, start: int, sends: Seq<int>, i: int, j: int)
    requires
        0 <= start <= file_len,
        valid_sends(file_len, start, sends),
        0 <= i <= j <= sends.len(),
    ensures
        start <= offset_after(start, sends.take(i))
            <= offset_after(start, sends.take(j)) <= file_len,
    decreases j - i,
{
    lemma_valid_sends_take(file_len, start, sends, i);
    lemma_valid_sends_take(file_len, start, sends, j);
    lemma_offset_in_bounds(file_len, start, sends.take(i));
    lemma_offset_in_bounds(file_len, start, sends.take(j));
    if i < j {
        lemma_offset_monotone(file_len, start, sends, i, j - 1);
        assert(sends.take(j) =~= sends.take(j - 1).push(sends[j - 1]));
        lemma_offset_after_push(start, sends.take(j - 1), sends[j - 1]);
        lemma_valid_sends_take(file_len, start, sends, j - 1);
        lemma_send_nonneg(file_len, start, sends, j - 1);
    }
}

/// Every step of a valid transfer sequence moves a non-negative number
/// of bytes.
pub proof fn lemma_send_nonneg(file_len: int, start: int, sends: Seq<int>, i: int)
    requires
        valid_sends(file_len, start, sends),
        0 <= i < sends.len(),
    ensures
        sends[i] >= 0,
    decreases i,
{
    if i > 0 {
        lemma_send_nonneg(file_len, start + sends[0], sends.drop_first(), i - 1);
    }
}

/// What a session writes is exactly the contiguous run of file bytes from
/// its starting offset to its final offset: no byte is skipped, duplicated
/// or reordered, and the total number of bytes written is the distance the
/// offset advanced.
pub proof fn lemma_session_output_contiguous(file: Seq<u8>, start: int, sends: Seq<int>)
    requires
        0 <= start <= file.len(),
        valid_sends(file.len() as int, start, sends),
    ensures
        session_output(file, start, sends)
            == file.subrange(start, offset_after(start, sends)),
        session_output(file, start, sends).len() == offset_after(start, sends) - start,
    decreases sends.len(),
{
    lemma_offset_in_bounds(file.len() as int, start, sends);
    if sends.len() == 0 {
        assert(session_output(file, start, sends) =~= file.subrange(start, start));
    } else {
        let mid = start + sends[0];
        lemma_session_output_contiguous(file, mid, sends.drop_first());
        let end = offset_after(start, sends);
        lemma_offset_in_bounds(file.len() as int, mid, sends.drop_first());
        assert(file.subrange(start, mid) + file.subrange(mid, end)
            =~= file.subrange(start, end));
    }
}

/// A session that starts at the current end of the file sends nothing
/// until the file grows: every valid transfer sequence from there is all
/// zero-length steps and its output is empty.
pub proof fn lemma_caught_up_sends_nothing(file: Seq<u8>, sends: Seq<int>)
    requires
        valid_sends(file.len() as int, file.len() as int, sends),
    ensures
        session_output(file, file.len() as int, sends) == Seq::<u8>::empty(),
        offset_after(file.len() as int, sends) == file.len(),
{
    lemma_offset_in_bounds(file.len() as int, file.len() as int, sends);
    lemma_session_output_contiguous(file, file.len() as int, sends);
    assert(file.subrange(file.len() as int, file.len() as int) =~= Seq::<u8>::empty());
}

/// Chunk sizes are unobservable: of two sessions streaming the same file
/// from the same starting offset, the one that has advanced less far has
/// written exactly a prefix of what the other wrote, whatever chunking
/// either used.  Sessions that advanced equally far wrote identical bytes.
pub proof fn lemma_chunking_unobservable(
    file: Seq<u8>,
    start: int,
    sends1: Seq<int>,
    sends2: Seq<int>,
)
    requires
        0 <= start <= file.len(),
        valid_sends(file.len() as int, start, sends1),
        valid_sends(file.len() as int, start, sends2),
        offset_after(start, sends1) <= offset_after(start, sends2),
    ensures
        session_output(file, start, sends1)
            == session_output(file, start, sends2)
                .take(offset_after(start, sends1) - start),
        offset_after(start, sends1) == offset_after(start, sends2)
            ==> session_output(file, start, sends1) == session_output(file, start, sends2),
{
    lemma_session_output_contiguous(file, start, sends1);
    lemma_session_output_contiguous(file, start, sends2);
    lemma_offset_in_bounds(file.len() as int, start, sends1);
    lemma_offset_in_bounds(file.len() as int, start, sends2);
    let end1 = offset_after(start, sends1);
    let end2 = offset_after(start, sends2);
    assert(file.subrange(start, end1) =~= file.subrange(start, end2).take(end1 - start));
}

/// A client that asks for absolute offset `h`, against a file that
/// already holds more than `h` bytes, receives the file byte at position
/// `h` first, as soon as it receives anything at all.
pub proof fn lemma_first_byte_absolute(file: Seq<u8>, header: int, sends: Seq<int>)
    requires
        0 <= header < file.len(),
        valid_sends(file.len() as int, resolved_offset(header, file.len() as int), sends),
        offset_after(resolved_offset(header, file.len() as int), sends) > header,
    ensures
        resolved_offset(header, file.len() as int) == header,
        session_output(file, header, sends)[0] == file[header],
{
    lemma_offset_in_bounds(file.len() as int, header, sends);
    lemma_session_output_contiguous(file, header, sends);
    let end = offset_after(header, sends);
    assert(session_output(file, header, sends)[0] == file.subrange(header, end)[0]);
}

/// A client that asks for the last `k` bytes of a file of length `L >= k`
/// starts at offset `L - k`, and receives the file byte at position
/// `L - k` first, as soon as it receives anything at all.
pub proof fn lemma_first_byte_from_end(file: Seq<u8>, k: int, sends: Seq<int>)
    requires
        0 < k <= file.len(),
        valid_sends(file.len() as int, resolved_offset(-k, file.len() as int), sends),
        offset_after(resolved_offset(-k, file.len() as int), sends) > file.len() - k,
    ensures
        resolved_offset(-k, file.len() as int) == file.len() - k,
        session_output(file, file.len() - k, sends)[0] == file[file.len() - k],
{
    let start = file.len() - k;
    lemma_offset_in_bounds(file.len() as int, start, sends);
    lemma_session_output_contiguous(file, start, sends);
    let end = offset_after(start, sends);
    assert(session_output(file, start, sends)[0] == file.subrange(start, end)[0]);
}

} // verus!
