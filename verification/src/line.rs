//! Reading a line of the response head from the chunks that the connection
//! delivers.
//!
//! A line grows chunk by chunk until a chunk holds a line feed: the bytes
//! before it complete the line, a carriage return just before it is
//! removed, and the bytes after it are left for what is read next. A line
//! with at least the maximum number of bytes before its line feed is
//! refused.
use crate::error::RequestError;
use crate::text::{find_byte, first_index_of, lemma_first_index_of, lemma_first_index_of_found, string_from_utf8};
use vstd::prelude::*;
use vstd::utf8::{encode_utf8, valid_utf8};

verus! {

/// What one chunk did to the line being read.
#[derive(PartialEq, Eq, Structural, Clone, Copy, Debug)]
pub enum LineStep {
    /// The line has reached the maximum length; nothing was changed.
    Overflow,
    /// The chunk holds no line feed: all of it was added; read on.
    More,
    /// The line feed is at this position of the chunk: the line is
    /// complete, and the bytes after the line feed are left unread.
    Complete(usize),
}

/// `s` without one carriage return at its end.
pub open spec fn strip_cr(s: Seq<u8>) -> Seq<u8> {
    if s.len() > 0 && s.last() == 13u8 {
        s.drop_last()
    } else {
        s
    }
}

/// The line after the chunk `chunk` is added to `acc`.
pub open spec fn line_after_chunk(acc: Seq<u8>, chunk: Seq<u8>) -> Seq<u8> {
    match first_index_of(chunk, 10u8) {
        None => acc + chunk,
        Some(k) => strip_cr(acc + chunk.take(k)),
    }
}

/// A line with `len` bytes before its line feed (or end) is too long.
pub open spec fn line_is_full(len: int, max_len: Option<usize>) -> bool {
    match max_len {
        Some(m) => len >= m,
        None => false,
    }
}

/// What adding `chunk` to a line that holds the bytes `acc` does.
pub open spec fn line_step(acc: Seq<u8>, chunk: Seq<u8>, max_len: Option<usize>) -> LineStep {
    match first_index_of(chunk, 10u8) {
        None => if line_is_full(acc.len() as int, max_len) {
            LineStep::Overflow
        } else {
            LineStep::More
        },
        Some(k) => if line_is_full(acc.len() + k, max_len) {
            LineStep::Overflow
        } else {
            LineStep::Complete(k as usize)
        },
    }
}

/// Adds one chunk to the line being read: up to its first line feed,
/// which completes the line (its position is handed back, so that what
/// follows it is read next); the whole chunk when it holds none. A line
/// with `max_len` bytes or more before its line feed, carriage return
/// included, is refused and left as it was.
pub fn push_line_chunk(line: &mut Vec<u8>, chunk: &[u8], max_len: Option<usize>) -> (r: LineStep)
    ensures
        r == line_step(old(line)@, chunk@, max_len),
        r is Overflow ==> final(line)@ == old(line)@,
        r is More ==> final(line)@ == old(line)@ + chunk@,
        r matches LineStep::Complete(k) ==> k < chunk@.len() && chunk@[k as int] == 10u8
            && final(line)@ == line_after_chunk(old(line)@, chunk@),
{
    let ghost acc = line@;
    proof {
        lemma_first_index_of_found(chunk@, 10u8);
    }
    let found = find_byte(chunk, 10u8);
    let end = match found {
        Some(k) => k,
        None => chunk.len(),
    };
    if let Some(max) = max_len {
        if line.len() >= max {
            return LineStep::Overflow;
        }
        if let Some(k) = found {
            if k >= max - line.len() {
                return LineStep::Overflow;
            }
        }
    }
    let mut i: usize = 0;
    while i < end
        invariant
            i <= end <= chunk@.len(),
            line@ == acc + chunk@.take(i as int),
        decreases end - i,
    {
        line.push(chunk[i]);
        i += 1;
        assert(acc + chunk@.take(i as int) =~= (acc + chunk@.take(i - 1)).push(chunk@[i - 1]));
    }
    match found {
        Some(k) => {
            let n = line.len();
            if n > 0 && line[n - 1] == 13u8 {
                line.pop();
            }
            LineStep::Complete(k)
        },
        None => {
            assert(chunk@.take(end as int) =~= chunk@);
            LineStep::More
        },
    }
}

/// The finished line as text, or `InvalidUtf8InResponse` when its bytes are
/// not UTF-8.
pub fn finish_line(line: Vec<u8>) -> (r: Result<String, RequestError>)
    ensures
        r is Ok <==> valid_utf8(line@),
        r matches Ok(s) ==> encode_utf8(s@) == line@,
        r matches Err(e) ==> e is InvalidUtf8InResponse,
{
    match string_from_utf8(line) {
        Some(s) => Ok(s),
        None => Err(RequestError::InvalidUtf8InResponse),
    }
}

/// A line never holds a line feed: adding a chunk to a line without one
/// gives a line without one.
pub proof fn lemma_line_has_no_line_feed(acc: Seq<u8>, chunk: Seq<u8>)
    requires
        first_index_of(acc, 10u8) is None,
    ensures
        first_index_of(line_after_chunk(acc, chunk), 10u8) is None,
{
    lemma_first_index_of_found(acc, 10u8);
    lemma_first_index_of_found(chunk, 10u8);
    let r = line_after_chunk(acc, chunk);
    let joined = match first_index_of(chunk, 10u8) {
        None => acc + chunk,
        Some(k) => acc + chunk.take(k),
    };
    assert(r == joined || r == joined.drop_last());
    assert forall|j: int| 0 <= j < joined.len() implies joined[j] != 10u8 by {
        if j >= acc.len() {
            assert(joined[j] == chunk[j - acc.len()]);
        }
    }
    assert forall|j: int| 0 <= j < r.len() implies r[j] != 10u8 by {
        assert(r[j] == joined[j]);
    }
    lemma_first_index_of(r, 10u8, r.len() as int);
}

/// A line that arrives whole in one chunk, ended by CR LF, is read as the
/// text before the CR LF, and the rest of the chunk is left unread; it is
/// refused exactly when the limit is no more than its length and the CR.
pub proof fn lemma_crlf_line(text: Seq<u8>, rest: Seq<u8>, max_len: Option<usize>)
    requires
        first_index_of(text, 10u8) is None,
    ensures
        line_step(Seq::empty(), text + seq![13u8, 10u8] + rest, max_len) == (if line_is_full(
            text.len() + 1int,
            max_len,
        ) {
            LineStep::Overflow
        } else {
            LineStep::Complete((text.len() + 1) as usize)
        }),
        line_after_chunk(Seq::empty(), text + seq![13u8, 10u8] + rest) == text,
        (text + seq![13u8, 10u8] + rest).skip(text.len() + 2int) == rest,
{
    let chunk = text + seq![13u8, 10u8] + rest;
    lemma_first_index_of_found(text, 10u8);
    assert forall|j: int| 0 <= j < text.len() + 1 implies chunk[j] != 10u8 by {
        if j < text.len() {
            assert(chunk[j] == text[j]);
        }
    }
    lemma_first_index_of(chunk, 10u8, text.len() as int + 1);
    let joined = Seq::<u8>::empty() + chunk.take(text.len() as int + 1);
    assert(joined =~= text.push(13u8));
    assert(joined.drop_last() =~= text);
    assert(chunk.skip(text.len() + 2int) =~= rest);
}

} // verus!
