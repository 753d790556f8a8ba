//! How the body of a response is delimited, decided from its header fields,
//! and the steps that read the header section and the trailer section.
use crate::error::RequestError;
use crate::headers::Headers;
use crate::line::line_is_full;
use crate::parse::{content_length_meaning, header_meaning, parse_content_length, parse_header};
use crate::text::{chars_of, string_byte_len, trim, trim_bounds, utf8_len};
use vstd::prelude::*;

verus! {

/// How the end of the body is found.
#[derive(PartialEq, Eq, Structural, Clone, Copy, Debug)]
pub enum HttpStreamState {
    /// Neither a length nor chunked coding was given: the body ends when the
    /// server closes the connection.
    EndOnClose,
    /// `content-length` gave the length; this many bytes are still to come.
    ContentLength(usize),
    /// `transfer-encoding: chunked`: whether more chunks are expected, how
    /// much of the current chunk is left, how many bytes all chunks
    /// announced so far (for the `content-length` header written at the
    /// end), and whether a line is still to be read before the next size
    /// line or the end: the CR LF that closes the data of a chunk while
    /// more chunks are expected, the trailer section after the last chunk.
    Chunked(bool, usize, usize, bool),
}

/// The characters `str::to_lowercase` from std gives for `s` (full Unicode
/// case mapping).
pub uninterp spec fn unicode_lowercase(s: Seq<char>) -> Seq<char>;

/// `str::to_lowercase` from std: the Unicode lower case of a string slice.
/// Its result is named, not stated: the mapping comes from Unicode's tables.
#[verifier::external_body]
fn to_lowercase(s: &str) -> (r: String)
    ensures
        r@ == unicode_lowercase(s@),
{
    s.to_lowercase()
}

/// `s` in lower case and trimmed, as the header scan compares names and values.
pub open spec fn folded(s: Seq<char>) -> Seq<char> {
    trim(unicode_lowercase(s))
}

/// A `transfer-encoding: chunked` field.
pub open spec fn is_chunked_coding(p: (Seq<char>, Seq<char>)) -> bool {
    folded(p.0) == "transfer-encoding"@ && folded(p.1) == "chunked"@
}

/// A `content-length` field.
pub open spec fn is_content_length(p: (Seq<char>, Seq<char>)) -> bool {
    folded(p.0) == "content-length"@
}

/// A `content-length` field whose value is no length.
pub open spec fn is_bad_content_length(p: (Seq<char>, Seq<char>)) -> bool {
    is_content_length(p) && content_length_meaning(p.1) is None
}

/// The length given by the last `content-length` field of `es`, if any.
pub open spec fn last_content_length(es: Seq<(Seq<char>, Seq<char>)>) -> Option<nat>
    decreases es.len(),
{
    if es.len() == 0 {
        None
    } else if is_content_length(es.last()) {
        content_length_meaning(es.last().1)
    } else {
        last_content_length(es.drop_last())
    }
}

/// The framing that the header fields `es` call for: none (an error) when
/// a `content-length` field holds no length; chunked when any field asks for
/// chunked coding; else the length of the last `content-length` field; else
/// the end of the connection.
pub open spec fn framing_of(es: Seq<(Seq<char>, Seq<char>)>) -> Option<HttpStreamState> {
    if exists|i: int| 0 <= i < es.len() && is_bad_content_length(#[trigger] es[i]) {
        None
    } else if exists|i: int| 0 <= i < es.len() && is_chunked_coding(#[trigger] es[i]) {
        Some(HttpStreamState::Chunked(true, 0, 0, false))
    } else {
        match last_content_length(es) {
            Some(n) => Some(HttpStreamState::ContentLength(n as usize)),
            None => Some(HttpStreamState::EndOnClose),
        }
    }
}

/// Whether the text `lowered`, trimmed, is `target`: the comparison the
/// header scan makes once a name or value has been lower-cased.
pub fn trimmed_equals(lowered: &str, target: &str) -> (r: bool)
    ensures
        r == (trim(lowered@) == target@),
{
    let v = chars_of(lowered);
    let n = v.len();
    assert(v@.subrange(0, n as int) =~= v@);
    let (a, b) = trim_bounds(&v, 0, n);
    let t = chars_of(target);
    assert(trim(lowered@) == v@.subrange(a as int, b as int));
    if b - a != t.len() {
        assert(v@.subrange(a as int, b as int).len() != t@.len());
        return false;
    }
    let mut i: usize = 0;
    while i < t.len()
        invariant
            a <= b <= v.len(),
            b - a == t.len(),
            i <= t.len(),
            forall|j: int| 0 <= j < i ==> v@[a + j] == t@[j],
            trim(lowered@) == v@.subrange(a as int, b as int),
            t@ == target@,
        decreases t.len() - i,
    {
        if v[a + i] != t[i] {
            assert(v@.subrange(a as int, b as int)[i as int] != t@[i as int]);
            return false;
        }
        i += 1;
    }
    assert(v@.subrange(a as int, b as int) =~= t@);
    true
}

/// Whether `s`, lower-cased and trimmed, is `target`.
fn folded_equals(s: &String, target: &str) -> (r: bool)
    ensures
        r == (folded(s@) == target@),
{
    let lower = to_lowercase(s.as_str());
    trimmed_equals(lower.as_str(), target)
}

/// Decides how the body is delimited from the header fields.
pub fn framing_from_headers(headers: &Headers) -> (r: Result<HttpStreamState, RequestError>)
    ensures
        match framing_of(headers.pairs()) {
            None => r matches Err(e) && e is MalformedContentLength,
            Some(st) => r == Ok::<HttpStreamState, RequestError>(st),
        },
{
    let ghost es = headers.pairs();
    let n = headers.len();
    let mut chunked = false;
    let mut content_length: Option<usize> = None;
    let mut i: usize = 0;
    while i < n
        invariant
            n == es.len(),
            es == headers.pairs(),
            i <= n,
            chunked == exists|j: int| 0 <= j < i && is_chunked_coding(#[trigger] es[j]),
            match content_length {
                Some(len) => last_content_length(es.take(i as int)) == Some(len as nat),
                None => last_content_length(es.take(i as int)) is None,
            },
            forall|j: int| 0 <= j < i ==> !is_bad_content_length(#[trigger] es[j]),
        decreases n - i,
    {
        let name = headers.name_at(i);
        let value = headers.value_at(i);
        let ghost p = es[i as int];
        assert(es.take(i + 1).drop_last() =~= es.take(i as int));
        assert(es.take(i + 1).last() == p);
        if folded_equals(name, "transfer-encoding") && folded_equals(value, "chunked") {
            chunked = true;
        }
        if folded_equals(name, "content-length") {
            match parse_content_length(value.as_str()) {
                Some(len) => {
                    content_length = Some(len);
                },
                None => {
                    assert(is_bad_content_length(es[i as int]));
                    return Err(RequestError::MalformedContentLength);
                },
            }
        }
        i += 1;
    }
    assert(es.take(n as int) =~= es);
    if chunked {
        Ok(HttpStreamState::Chunked(true, 0, 0, false))
    } else {
        match content_length {
            Some(len) => Ok(HttpStreamState::ContentLength(len)),
            None => Ok(HttpStreamState::EndOnClose),
        }
    }
}

/// What one line of the header section did.
#[derive(PartialEq, Eq, Structural, Clone, Copy, Debug)]
pub enum HeadLineStep {
    /// The empty line: the header section is over and the body begins.
    EndOfHead,
    /// The line was taken (as a field, when it holds a `:`); read the next.
    More,
    /// The line is longer than what is left of the size limit, so that the
    /// limit cannot be lowered by it; nothing was changed.
    BudgetOverflow,
}

/// What is left of a size limit after a line of `len` bytes and its CR LF,
/// or `None` when the line does not fit in it.
pub open spec fn budget_after(budget: Option<usize>, len: nat) -> Option<Option<usize>> {
    match budget {
        None => Some(None),
        Some(b) => if len + 2 <= b {
            Some(Some((b - len - 2) as usize))
        } else {
            None
        },
    }
}

fn lower_budget(budget: &mut Option<usize>, line: &String) -> (ok: bool)
    ensures
        ok == (budget_after(*old(budget), utf8_len(line@)) is Some),
        ok ==> Some(*final(budget)) == budget_after(*old(budget), utf8_len(line@)),
        !ok ==> *final(budget) == *old(budget),
{
    match *budget {
        None => true,
        Some(b) => {
            let len = string_byte_len(line);
            if len > b || b - len < 2 {
                false
            } else {
                *budget = Some(b - len - 2);
                true
            }
        },
    }
}

/// Takes one line of the header section: the empty line ends the section;
/// any other line lowers the size limit by its length and CR LF, and, when
/// it is a field, sets that field.
pub fn head_line(headers: &mut Headers, budget: &mut Option<usize>, line: String) -> (r:
    HeadLineStep)
    ensures
        line@.len() == 0 ==> r == HeadLineStep::EndOfHead && final(headers)@ == old(headers)@
            && *final(budget) == *old(budget),
        line@.len() > 0 ==> match budget_after(*old(budget), utf8_len(line@)) {
            None => r == HeadLineStep::BudgetOverflow && final(headers)@ == old(headers)@
                && *final(budget) == *old(budget),
            Some(left) => r == HeadLineStep::More && *final(budget) == left && match header_meaning(
                line@,
            ) {
                Some((name, value)) => final(headers)@ == old(headers)@.insert(name, value) && (if old(
                    headers,
                )@.contains_key(name) {
                    final(headers).pairs().len() == old(headers).pairs().len()
                } else {
                    final(headers).pairs() == old(headers).pairs().push((name, value))
                }),
                None => final(headers)@ == old(headers)@ && final(headers).pairs() == old(
                    headers,
                ).pairs(),
            },
        },
{
    if line.as_str().is_empty() {
        return HeadLineStep::EndOfHead;
    }
    if !lower_budget(budget, &line) {
        return HeadLineStep::BudgetOverflow;
    }
    if let Some((name, value)) = parse_header(line) {
        headers.insert(name, value);
    }
    HeadLineStep::More
}

/// What one line of the trailer section did.
#[derive(PartialEq, Eq, Structural, Clone, Copy, Debug)]
pub enum TrailerLineStep {
    /// The line was a field and was set; read the next.
    More,
    /// The line was no field: the trailer section is over.
    Done,
    /// The line is longer than what is left of the size limit; nothing was changed.
    BudgetOverflow,
}

/// Takes one line of the trailer section: it lowers the size limit by its
/// length and CR LF, then sets the field it holds or, when it holds none,
/// ends the section.
pub fn trailer_line(headers: &mut Headers, budget: &mut Option<usize>, line: String) -> (r:
    TrailerLineStep)
    ensures
        match budget_after(*old(budget), utf8_len(line@)) {
            None => r == TrailerLineStep::BudgetOverflow && final(headers)@ == old(headers)@
                && *final(budget) == *old(budget),
            Some(left) => *final(budget) == left && match header_meaning(line@) {
                Some((name, value)) => r == TrailerLineStep::More && final(headers)@ == old(
                    headers,
                )@.insert(name, value) && (if old(headers)@.contains_key(name) {
                    final(headers).pairs().len() == old(headers).pairs().len()
                } else {
                    final(headers).pairs() == old(headers).pairs().push((name, value))
                }),
                None => r == TrailerLineStep::Done && final(headers)@ == old(headers)@,
            },
        },
{
    if !lower_budget(budget, &line) {
        return TrailerLineStep::BudgetOverflow;
    }
    match parse_header(line) {
        Some((name, value)) => {
            headers.insert(name, value);
            TrailerLineStep::More
        },
        None => TrailerLineStep::Done,
    }
}

/// The line reader and the size limit agree: a line whose text has `len`
/// bytes, read with the limit `b` and ended by CR LF, is refused by the
/// reader (`len` bytes and the CR reach `b`) exactly when it and its CR LF do
/// not fit in what is left of the limit.
pub proof fn lemma_line_limit_matches_budget(len: nat, b: usize)
    ensures
        line_is_full(len + 1int, Some(b)) <==> budget_after(Some(b), len) is None,
{
}

/// `h` with the fields of `lines` set in order; lines that are no field
/// change nothing.
pub open spec fn fields_inserted(h: Map<Seq<char>, Seq<char>>, lines: Seq<Seq<char>>) -> Map<
    Seq<char>,
    Seq<char>,
>
    decreases lines.len(),
{
    if lines.len() == 0 {
        h
    } else {
        let h2 = match header_meaning(lines[0]) {
            Some((name, value)) => h.insert(name, value),
            None => h,
        };
        fields_inserted(h2, lines.drop_first())
    }
}

/// The bytes that `lines` take, each with its CR LF.
pub open spec fn lines_size(lines: Seq<Seq<char>>) -> nat
    decreases lines.len(),
{
    if lines.len() == 0 {
        0
    } else {
        utf8_len(lines[0]) + 2 + lines_size(lines.drop_first())
    }
}

/// The header fields after `head_line` has taken the lines `lines` in
/// turn, starting from `h` and the size limit `budget`: `None` when a line
/// does not fit in what is left of the limit or the lines end before the
/// empty line that ends the section.
pub open spec fn head_run(h: Map<Seq<char>, Seq<char>>, budget: Option<usize>, lines: Seq<Seq<char>>) -> Option<
    Map<Seq<char>, Seq<char>>,
>
    decreases lines.len(),
{
    if lines.len() == 0 {
        None
    } else if lines[0].len() == 0 {
        Some(h)
    } else {
        match budget_after(budget, utf8_len(lines[0])) {
            None => None,
            Some(left) => head_run(
                match header_meaning(lines[0]) {
                    Some((name, value)) => h.insert(name, value),
                    None => h,
                },
                left,
                lines.drop_first(),
            ),
        }
    }
}

/// Reading a header section: non-empty lines that fit in the size limit,
/// then the empty line, set the fields of those lines in order.
pub proof fn lemma_head_section(h: Map<Seq<char>, Seq<char>>, budget: Option<usize>, lines: Seq<Seq<char>>)
    requires
        forall|i: int| 0 <= i < lines.len() ==> (#[trigger] lines[i]).len() > 0,
        budget matches Some(b) ==> lines_size(lines) <= b,
    ensures
        head_run(h, budget, lines.push(Seq::empty())) == Some(fields_inserted(h, lines)),
    decreases lines.len(),
{
    let all = lines.push(Seq::<char>::empty());
    if lines.len() == 0 {
        assert(all[0].len() == 0);
    } else {
        assert(all[0] == lines[0]);
        assert(lines[0].len() > 0);
        assert(all.drop_first() =~= lines.drop_first().push(Seq::empty()));
        let h2 = match header_meaning(lines[0]) {
            Some((name, value)) => h.insert(name, value),
            None => h,
        };
        match budget {
            None => {
                lemma_head_section(h2, None, lines.drop_first());
            },
            Some(b) => {
                let left = (b - utf8_len(lines[0]) - 2) as usize;
                lemma_head_section(h2, Some(left), lines.drop_first());
            },
        }
    }
}

proof fn lemma_last_content_length_at(es: Seq<(Seq<char>, Seq<char>)>, i: int)
    requires
        0 <= i < es.len(),
        is_content_length(es[i]),
        forall|j: int| i < j < es.len() ==> !is_content_length(#[trigger] es[j]),
    ensures
        last_content_length(es) == content_length_meaning(es[i].1),
    decreases es.len(),
{
    if i < es.len() - 1 {
        let d = es.drop_last();
        assert(!is_content_length(es[es.len() - 1]));
        assert forall|j: int| i < j < d.len() implies !is_content_length(#[trigger] d[j]) by {
            assert(d[j] == es[j]);
        }
        assert(d[i] == es[i]);
        lemma_last_content_length_at(d, i);
    }
}

proof fn lemma_no_content_length(es: Seq<(Seq<char>, Seq<char>)>)
    requires
        forall|j: int| 0 <= j < es.len() ==> !is_content_length(#[trigger] es[j]),
    ensures
        last_content_length(es) is None,
    decreases es.len(),
{
    if es.len() > 0 {
        let d = es.drop_last();
        assert(!is_content_length(es[es.len() - 1]));
        assert forall|j: int| 0 <= j < d.len() implies !is_content_length(#[trigger] d[j]) by {
            assert(d[j] == es[j]);
        }
        lemma_no_content_length(d);
    }
}

/// When no field asks for chunked coding and every `content-length` field
/// holds a length, the body is exactly as long as the last such field
/// says, zero included: a body of length zero is over at once.
pub proof fn lemma_framing_by_content_length(es: Seq<(Seq<char>, Seq<char>)>, i: int, n: nat)
    requires
        forall|j: int|
            0 <= j < es.len() ==> !is_chunked_coding(#[trigger] es[j]) && !is_bad_content_length(es[j]),
        0 <= i < es.len(),
        is_content_length(es[i]),
        content_length_meaning(es[i].1) == Some(n),
        forall|j: int| i < j < es.len() ==> !is_content_length(#[trigger] es[j]),
    ensures
        n <= usize::MAX,
        framing_of(es) == Some(HttpStreamState::ContentLength(n as usize)),
        n == 0 ==> framing_of(es) == Some(HttpStreamState::ContentLength(0)),
{
    lemma_last_content_length_at(es, i);
    assert(!(exists|j: int| 0 <= j < es.len() && is_bad_content_length(#[trigger] es[j])));
    assert(!(exists|j: int| 0 <= j < es.len() && is_chunked_coding(#[trigger] es[j])));
}

/// With no field asking for chunked coding and no `content-length` field,
/// the body ends when the server closes the connection.
pub proof fn lemma_framing_until_close(es: Seq<(Seq<char>, Seq<char>)>)
    requires
        forall|j: int|
            0 <= j < es.len() ==> !is_chunked_coding(#[trigger] es[j]) && !is_content_length(es[j]),
    ensures
        framing_of(es) == Some(HttpStreamState::EndOnClose),
{
    lemma_no_content_length(es);
    assert(!(exists|j: int| 0 <= j < es.len() && is_bad_content_length(#[trigger] es[j])));
    assert(!(exists|j: int| 0 <= j < es.len() && is_chunked_coding(#[trigger] es[j])));
}

/// A field asking for chunked coding makes the body chunked, whatever the
/// `content-length` fields say, as long as each holds a length; one that
/// holds no length makes the head refused.
pub proof fn lemma_framing_chunked_or_refused(es: Seq<(Seq<char>, Seq<char>)>, i: int)
    requires
        0 <= i < es.len(),
    ensures
        is_bad_content_length(es[i]) ==> framing_of(es) is None,
        is_chunked_coding(es[i]) && (forall|j: int|
            0 <= j < es.len() ==> !is_bad_content_length(#[trigger] es[j])) ==> framing_of(es)
            == Some(HttpStreamState::Chunked(true, 0, 0, false)),
{
}

/// The size of a header section whose lines (the closing empty line
/// included) have texts of the lengths `lens`, each counted with its CR LF.
pub open spec fn section_size(lens: Seq<nat>) -> nat
    decreases lens.len(),
{
    if lens.len() == 0 {
        0
    } else {
        lens[0] + 2 + section_size(lens.drop_first())
    }
}

/// Whether reading lines of the text lengths `lens`, each ended by CR LF,
/// with the line reader's limit set to what is left of the budget `b` and
/// each line's length and CR LF taken from it, refuses one of them.
pub open spec fn section_refused(b: nat, lens: Seq<nat>) -> bool
    decreases lens.len(),
{
    if lens.len() == 0 {
        false
    } else if lens[0] + 1 >= b {
        true
    } else {
        section_refused((b - lens[0] - 2) as nat, lens.drop_first())
    }
}

/// A header section is refused exactly when it is larger than the limit:
/// reading it line by line, each line under what is left of the limit,
/// refuses a line exactly when the lines with their CR LFs (the empty line
/// that ends the section included) add up to more than the limit.
pub proof fn lemma_section_refused_iff_too_large(b: nat, lens: Seq<nat>)
    ensures
        section_refused(b, lens) <==> section_size(lens) > b,
    decreases lens.len(),
{
    if lens.len() > 0 && lens[0] + 1 < b {
        lemma_section_refused_iff_too_large((b - lens[0] - 2) as nat, lens.drop_first());
    }
}

} // verus!
