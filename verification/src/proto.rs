//! The wire protocol: parsing the one-line header a client sends after
//! connecting, and resolving it to a starting byte offset.
//!
//! A header line is an optionally-signed decimal integer with surrounding
//! ASCII whitespace permitted.  The richer request form also accepts the
//! words `end` (or an empty line) and `byte <n>`.

use vstd::prelude::*;
use vstd::slice::slice_index_get;
use vstd::slice::slice_subrange;

verus! {

/// Errors from parsing a client's request line.
#[derive(Debug, Clone, Copy, PartialEq, Eq, Structural)]
pub enum HeaderError {
    /// The first word of the line is not a known request form.
    UnknownIndex,
    /// The request form needs another word that is missing.
    NotEnoughTokens,
    /// A word that should be a decimal integer is not one, or is out of
    /// range for a signed 64-bit integer.
    Int,
}

/// ASCII whitespace: space, tab, line feed, vertical tab, form feed,
/// carriage return.
pub open spec fn is_ascii_ws(b: u8) -> bool {
    b == 32 || (9 <= b && b <= 13)
}

/// An ASCII decimal digit.
pub open spec fn is_digit(b: u8) -> bool {
    48 <= b && b <= 57
}

/// `s` without its leading ASCII whitespace.
pub open spec fn skip_ws_front(s: Seq<u8>) -> Seq<u8>
    decreases s.len(),
{
    if s.len() > 0 && is_ascii_ws(s[0]) {
        skip_ws_front(s.drop_first())
    } else {
        s
    }
}

/// `s` without its trailing ASCII whitespace.
pub open spec fn skip_ws_back(s: Seq<u8>) -> Seq<u8>
    decreases s.len(),
{
    if s.len() > 0 && is_ascii_ws(s.last()) {
        skip_ws_back(s.drop_last())
    } else {
        s
    }
}

/// `s` without surrounding ASCII whitespace.
pub open spec fn trimmed(s: Seq<u8>) -> Seq<u8> {
    skip_ws_back(skip_ws_front(s))
}

/// Every byte of `s` is a decimal digit.
pub open spec fn all_digits(s: Seq<u8>) -> bool {
    forall|i: int| 0 <= i < s.len() ==> is_digit(#[trigger] s[i])
}

/// The value of a string of decimal digits, most significant first.
pub open spec fn digits_val(s: Seq<u8>) -> int
    decreases s.len(),
{
    if s.len() == 0 {
        0
    } else {
        digits_val(s.drop_last()) * 10 + (s.last() - 48)
    }
}

/// The signed 64-bit integer a byte string denotes, if it denotes one:
/// an optional sign followed by one or more decimal digits, with the
/// value in range.  No surrounding whitespace is accepted here.
pub open spec fn spec_parse_i64(s: Seq<u8>) -> Option<i64> {
    if s.len() > 0 && (s[0] == 43 || s[0] == 45) {
        let mag = s.drop_first();
        if mag.len() > 0 && all_digits(mag) {
            if s[0] == 45 {
                if -digits_val(mag) >= i64::MIN {
                    Some((-digits_val(mag)) as i64)
                } else {
                    None
                }
            } else {
                if digits_val(mag) <= i64::MAX {
                    Some(digits_val(mag) as i64)
                } else {
                    None
                }
            }
        } else {
            None
        }
    } else if s.len() > 0 && all_digits(s) {
        if digits_val(s) <= i64::MAX {
            Some(digits_val(s) as i64)
        } else {
            None
        }
    } else {
        None
    }
}

/// The header a line denotes: its integer, with surrounding ASCII
/// whitespace ignored.
pub open spec fn spec_parse_header(s: Seq<u8>) -> Option<i64> {
    spec_parse_i64(trimmed(s))
}

/// A string of digits is worth at least zero.
proof fn lemma_digits_val_nonneg(s: Seq<u8>)
    requires
        all_digits(s),
    ensures
        digits_val(s) >= 0,
    decreases s.len(),
{
    if s.len() > 0 {
        assert(forall|i: int| 0 <= i < s.drop_last().len()
            ==> #[trigger] s.drop_last()[i] == s[i]);
        lemma_digits_val_nonneg(s.drop_last());
    }
}

/// A prefix of a string of digits is worth no more than the whole.
proof fn lemma_digits_val_prefix(s: Seq<u8>, i: int)
    requires
        all_digits(s),
        0 <= i <= s.len(),
    ensures
        digits_val(s.take(i)) <= digits_val(s),
    decreases s.len(),
{
    if i == s.len() {
        assert(s.take(i) =~= s);
    } else {
        assert(forall|j: int| 0 <= j < s.drop_last().len()
            ==> #[trigger] s.drop_last()[j] == s[j]);
        lemma_digits_val_prefix(s.drop_last(), i);
        assert(s.drop_last().take(i) =~= s.take(i));
        lemma_digits_val_nonneg(s.drop_last());
    }
}

/// Whether a byte is ASCII whitespace.
fn is_ws_byte(b: u8) -> (r: bool)
    ensures
        r == is_ascii_ws(b),
{
    b == 32 || (9 <= b && b <= 13)
}

/// The bounds of the span of `s` that remains once surrounding ASCII
/// whitespace is dropped.
fn trim_range(s: &[u8]) -> (r: (usize, usize))
    ensures
        r.0 <= r.1 <= s@.len(),
        s@.subrange(r.0 as int, r.1 as int) == trimmed(s@),
{
    let len = s.len();
    let mut i: usize = 0;
    proof {
        assert(s@.skip(0) =~= s@);
    }
    while i < len && is_ws_byte(*slice_index_get(s, i))
        invariant
            i <= len,
            len == s@.len(),
            skip_ws_front(s@) == skip_ws_front(s@.skip(i as int)),
        decreases len - i,
    {
        proof {
            assert(s@.skip(i as int)[0] == s@[i as int]);
            assert(s@.skip(i as int).drop_first() =~= s@.skip(i as int + 1));
        }
        i = i + 1;
    }
    proof {
        if i < len {
            assert(s@.skip(i as int)[0] == s@[i as int]);
        }
        assert(skip_ws_front(s@) == s@.skip(i as int));
        assert(s@.skip(i as int) =~= s@.subrange(i as int, len as int));
    }
    let mut j: usize = len;
    while j > i && is_ws_byte(*slice_index_get(s, j - 1))
        invariant
            i <= j <= len,
            len == s@.len(),
            skip_ws_front(s@) == s@.subrange(i as int, len as int),
            skip_ws_back(s@.subrange(i as int, len as int))
                == skip_ws_back(s@.subrange(i as int, j as int)),
        decreases j,
    {
        proof {
            assert(s@.subrange(i as int, j as int).last() == s@[j - 1]);
            assert(s@.subrange(i as int, j as int).drop_last()
                =~= s@.subrange(i as int, j as int - 1));
        }
        j = j - 1;
    }
    proof {
        if j > i {
            assert(s@.subrange(i as int, j as int).last() == s@[j - 1]);
        }
        assert(skip_ws_back(s@.subrange(i as int, j as int))
            == s@.subrange(i as int, j as int));
    }
    (i, j)
}

/// Parses an optionally-signed decimal integer, exactly as
/// `spec_parse_i64` describes; no whitespace is accepted.
fn parse_i64(s: &[u8]) -> (r: Result<i64, HeaderError>)
    ensures
        (match spec_parse_i64(s@) {
            Some(v) => r == Ok::<i64, HeaderError>(v),
            None => r == Err::<i64, HeaderError>(HeaderError::Int),
        }),
{
    let len = s.len();
    if len == 0 {
        return Err(HeaderError::Int);
    }
    let first = *slice_index_get(s, 0);
    let neg = first == 45;
    let start: usize = if first == 43 || first == 45 {
        1
    } else {
        0
    };
    if start >= len {
        // A sign with no digits after it.
        return Err(HeaderError::Int);
    }
    let ghost mag: Seq<u8> = if start == 1 {
        s@.drop_first()
    } else {
        s@
    };
    proof {
        assert(mag =~= s@.subrange(start as int, len as int));
    }
    // The largest magnitude in range, and its leading digits: the value
    // may reach 2^63 for a negative header and 2^63 - 1 otherwise.
    let ghost bound: u64 = if neg {
        9223372036854775808u64
    } else {
        9223372036854775807u64
    };
    let lead: u64 = 922337203685477580;
    let last_digit: u64 = if neg {
        8
    } else {
        7
    };
    let mut acc: u64 = 0;
    let mut k: usize = start;
    while k < len
        invariant
            start <= 1,
            start <= k <= len,
            len == s@.len(),
            start == 1 <==> (s@[0] == 43 || s@[0] == 45),
            neg <==> s@[0] == 45,
            mag == s@.subrange(start as int, len as int),
            bound == (if neg { 9223372036854775808u64 } else { 9223372036854775807u64 }),
            lead == 922337203685477580u64,
            last_digit == (if neg { 8u64 } else { 7u64 }),
            bound == lead * 10 + last_digit,
            all_digits(mag.take(k - start)),
            acc == digits_val(mag.take(k - start)),
            acc <= bound,
        decreases len - k,
    {
        let b = *slice_index_get(s, k);
        proof {
            assert(mag[k - start] == s@[k as int]);
        }
        if !(48 <= b && b <= 57) {
            proof {
                assert(!is_digit(mag[k - start]));
                assert(!all_digits(mag));
                if start == 0 {
                    assert(mag =~= s@);
                    assert(!all_digits(s@));
                } else {
                    assert(mag =~= s@.drop_first());
                }
            }
            return Err(HeaderError::Int);
        }
        let d: u64 = (b - 48) as u64;
        proof {
            assert(mag.take(k - start + 1).drop_last() =~= mag.take(k - start));
            assert(mag.take(k - start + 1).last() == mag[k - start]);
            assert(digits_val(mag.take(k - start + 1)) == acc * 10 + d);
        }
        if acc > lead || (acc == lead && d > last_digit) {
            // The digits so far already exceed the representable range.
            proof {
                assert(acc * 10 + d > bound);
                lemma_digits_val_nonneg(mag.take(k - start + 1));
                if start == 0 {
                    assert(mag =~= s@);
                } else {
                    assert(mag =~= s@.drop_first());
                }
                if all_digits(mag) {
                    lemma_digits_val_prefix(mag, k - start + 1);
                    assert(digits_val(mag) > bound);
                }
            }
            return Err(HeaderError::Int);
        }
        acc = acc * 10 + d;
        k = k + 1;
    }
    proof {
        assert(mag.take(k - start) =~= mag);
        assert(mag.len() > 0);
    }
    if neg {
        if acc == 9223372036854775808 {
            Ok(i64::MIN)
        } else {
            Ok(-(acc as i64))
        }
    } else {
        Ok(acc as i64)
    }
}

/// A parsed client request: where the stream should start.
#[derive(Debug, Clone, Copy, PartialEq, Eq, Structural)]
pub enum Req {
    /// Start at the current end of the file.
    End,
    /// Start at the offset this signed count resolves to: absolute if
    /// non-negative, else counted back from the end of the file.
    Byte(i64),
}

/// The index of the first space in `s`, or its length if it has none.
pub open spec fn first_space_at(s: Seq<u8>) -> int
    decreases s.len(),
{
    if s.len() == 0 {
        0
    } else if s[0] == 32 {
        0
    } else {
        1 + first_space_at(s.drop_first())
    }
}

/// The first space-separated word of `s` (everything, if spaceless).
pub open spec fn first_token(s: Seq<u8>) -> Seq<u8> {
    s.take(first_space_at(s))
}

/// The request a line denotes.  The first word is tried as a signed
/// integer; failing that, an empty word or `end` asks for the end of the
/// file, and `byte` asks for the offset its second word gives.
pub open spec fn spec_parse_req(s: Seq<u8>) -> Result<Req, HeaderError> {
    let t1 = trimmed(first_token(s));
    match spec_parse_i64(t1) {
        Some(v) => Ok(Req::Byte(v)),
        None => if t1 == Seq::<u8>::empty() || t1 == seq![101u8, 110u8, 100u8] {
            Ok(Req::End)
        } else if t1 == seq![98u8, 121u8, 116u8, 101u8] {
            if first_space_at(s) == s.len() {
                Err(HeaderError::NotEnoughTokens)
            } else {
                let t2 = trimmed(first_token(s.skip(first_space_at(s) + 1)));
                match spec_parse_i64(t2) {
                    Some(v) => Ok(Req::Byte(v)),
                    None => Err(HeaderError::Int),
                }
            }
        } else {
            Err(HeaderError::UnknownIndex)
        },
    }
}

/// A position is the first space exactly when no space precedes it and
/// it holds a space or is the end.
proof fn lemma_first_space_char(s: Seq<u8>, p: int)
    requires
        0 <= p <= s.len(),
        forall|m: int| 0 <= m < p ==> s[m] != 32,
        p < s.len() ==> s[p] == 32,
    ensures
        first_space_at(s) == p,
    decreases s.len(),
{
    if s.len() > 0 && p > 0 {
        assert(forall|m: int| 0 <= m < p - 1
            ==> #[trigger] s.drop_first()[m] == s[m + 1]);
        lemma_first_space_char(s.drop_first(), p - 1);
    }
}

/// The index of the first space in `s`, or its length if it has none.
fn find_space(s: &[u8]) -> (p: usize)
    ensures
        p <= s@.len(),
        p == first_space_at(s@),
{
    let len = s.len();
    let mut p: usize = 0;
    while p < len && *slice_index_get(s, p) != 32
        invariant
            p <= len,
            len == s@.len(),
            forall|m: int| 0 <= m < p ==> s@[m] != 32,
        decreases len - p,
    {
        p = p + 1;
    }
    proof {
        lemma_first_space_char(s@, p as int);
    }
    p
}

/// Whether `t` is the word `end`.
fn is_word_end(t: &[u8]) -> (r: bool)
    ensures
        r <==> t@ == seq![101u8, 110u8, 100u8],
{
    let r = t.len() == 3 && *slice_index_get(t, 0) == 101 && *slice_index_get(t, 1) == 110
        && *slice_index_get(t, 2) == 100;
    proof {
        if r {
            assert(t@ =~= seq![101u8, 110u8, 100u8]);
        }
    }
    r
}

/// Whether `t` is the word `byte`.
fn is_word_byte(t: &[u8]) -> (r: bool)
    ensures
        r <==> t@ == seq![98u8, 121u8, 116u8, 101u8],
{
    let r = t.len() == 4 && *slice_index_get(t, 0) == 98 && *slice_index_get(t, 1) == 121
        && *slice_index_get(t, 2) == 116 && *slice_index_get(t, 3) == 101;
    proof {
        if r {
            assert(t@ =~= seq![98u8, 121u8, 116u8, 101u8]);
        }
    }
    r
}

impl Req {
    /// Parses a request line, exactly as `spec_parse_req` describes.
    /// Each word is taken with its surrounding ASCII whitespace dropped.
    pub fn from_str(s: &[u8]) -> (r: Result<Req, HeaderError>)
        ensures
            r == spec_parse_req(s@),
    {
        let len = s.len();
        let p = find_space(s);
        let tok1_full = slice_subrange(s, 0, p);
        proof {
            assert(tok1_full@ =~= first_token(s@));
        }
        let (a, b) = trim_range(tok1_full);
        let t1 = slice_subrange(tok1_full, a, b);
        match parse_i64(t1) {
            Ok(v) => Ok(Req::Byte(v)),
            Err(_) => {
                if t1.len() == 0 {
                    proof {
                        assert(t1@ =~= Seq::<u8>::empty());
                    }
                    Ok(Req::End)
                } else if is_word_end(t1) {
                    Ok(Req::End)
                } else if is_word_byte(t1) {
                    if p == len {
                        Err(HeaderError::NotEnoughTokens)
                    } else {
                        let rest = slice_subrange(s, p + 1, len);
                        proof {
                            assert(rest@ =~= s@.skip(p + 1));
                        }
                        let q = find_space(rest);
                        let tok2_full = slice_subrange(rest, 0, q);
                        proof {
                            assert(tok2_full@ =~= first_token(rest@));
                        }
                        let (c, d) = trim_range(tok2_full);
                        let t2 = slice_subrange(tok2_full, c, d);
                        match parse_i64(t2) {
                            Ok(v) => Ok(Req::Byte(v)),
                            Err(_) => Err(HeaderError::Int),
                        }
                    }
                } else {
                    Err(HeaderError::UnknownIndex)
                }
            },
        }
    }
}

/// Resolves a request to a byte offset, against the file length observed
/// at the moment of resolution.  `end` is the current length; a byte
/// count resolves as a header does, saturating at offset zero.
pub fn resolve_index(idx: Req, file_len: u64) -> (offset: u64)
    ensures
        idx == Req::End ==> offset == file_len,
        (forall|h: i64| idx == Req::Byte(h)
            ==> offset == crate::session::resolved_offset(h as int, file_len as int)),
{
    match idx {
        Req::End => file_len,
        Req::Byte(h) => crate::session::resolve_offset(h, file_len),
    }
}

/// Parses a header line: an optionally-signed decimal integer with
/// surrounding ASCII whitespace permitted, as the wire protocol defines.
pub fn parse_header(line: &[u8]) -> (r: Result<i64, HeaderError>)
    ensures
        (match spec_parse_header(line@) {
            Some(v) => r == Ok::<i64, HeaderError>(v),
            None => r == Err::<i64, HeaderError>(HeaderError::Int),
        }),
{
    let (i, j) = trim_range(line);
    let t = slice_subrange(line, i, j);
    parse_i64(t)
}

} // verus!
