//! The lines of an HTTP response head: the status line, header fields, and
//! the size line of a chunk in a chunked body.
use crate::number::{
    all_digits, decimal, digit_value, digits_value, lemma_decimal_round_trip_i32, parse_i32,
    parse_i32_chars, parse_unsigned, parse_unsigned_chars,
};
use crate::text::{
    trim_end, trim_start,
    ascii_lower, chars_of, find_char, first_index_of, has_no_ascii_upper, lemma_first_index_of,
    lemma_first_index_of_found, lower_string_from_chars, string_from_chars, trim, trim_bounds,
};
use vstd::prelude::*;

verus! {

/// The status code part of a status line: what lies between the first
/// space and the next one (or the end).
pub open spec fn status_code_part(s: Seq<char>) -> Seq<char> {
    match first_index_of(s, ' ') {
        None => Seq::empty(),
        Some(i) => {
            let rest = s.skip(i + 1);
            match first_index_of(rest, ' ') {
                None => rest,
                Some(j) => rest.take(j),
            }
        },
    }
}

/// The reason phrase part of a status line: all that follows the second space.
pub open spec fn reason_part(s: Seq<char>) -> Seq<char> {
    match first_index_of(s, ' ') {
        None => Seq::empty(),
        Some(i) => {
            let rest = s.skip(i + 1);
            match first_index_of(rest, ' ') {
                None => Seq::empty(),
                Some(j) => rest.skip(j + 1),
            }
        },
    }
}

/// What a status line such as `HTTP/1.1 200 OK` says: the status code and
/// the reason phrase; when the code part is not an `i32`, the placeholder
/// `503` with an explanation.
pub open spec fn status_line_meaning(s: Seq<char>) -> (int, Seq<char>) {
    match parse_i32(status_code_part(s)) {
        Some(code) => (code, reason_part(s)),
        None => (503, "Server did not provide a status line"@),
    }
}

/// What a header line `Name: value` says: the name, ASCII-lower-cased, and
/// the value after the first `:`, without one space that follows the `:`.
/// A line without `:` is no header.
pub open spec fn header_meaning(s: Seq<char>) -> Option<(Seq<char>, Seq<char>)> {
    match first_index_of(s, ':') {
        None => None,
        Some(i) => Some(
            (
                ascii_lower(s.take(i)),
                if i + 1 < s.len() && s[i + 1] == ' ' {
                    s.skip(i + 2)
                } else {
                    s.skip(i + 1)
                },
            ),
        ),
    }
}

/// The size that the size line of a chunk gives: an empty line counts as
/// zero; otherwise what precedes any `;` (chunk extensions are ignored),
/// trimmed, is a hexadecimal number that fits in a `usize`.
pub open spec fn chunk_size_meaning(s: Seq<char>) -> Option<nat> {
    if s.len() == 0 {
        Some(0)
    } else {
        let part = match first_index_of(s, ';') {
            Some(i) => s.take(i),
            None => s,
        };
        parse_unsigned(trim(part), 16, usize::MAX as nat)
    }
}

/// The length a `content-length` value gives: the trimmed value is a
/// decimal number that fits in a `usize`.
pub open spec fn content_length_meaning(s: Seq<char>) -> Option<nat> {
    parse_unsigned(trim(s), 10, usize::MAX as nat)
}

/// Splits a status line into its status code and reason phrase.
pub fn parse_status_line(line: &str) -> (r: (i32, String))
    ensures
        r.0 as int == status_line_meaning(line@).0,
        r.1@ == status_line_meaning(line@).1,
{
    let v = chars_of(line);
    let n = v.len();
    let ghost s = v@;
    assert(s.subrange(0, n as int) =~= s);
    let (code_lo, code_hi, reason_lo) = match find_char(&v, 0, n, ' ') {
        None => (n, n, n),
        Some(i1) => {
            let ghost rest = s.skip(i1 + 1);
            assert(rest =~= s.subrange(i1 + 1, n as int));
            match find_char(&v, i1 + 1, n, ' ') {
                None => (i1 + 1, n, n),
                Some(i2) => {
                    assert(rest.take(i2 - i1 - 1) =~= s.subrange(i1 + 1, i2 as int));
                    assert(rest.skip(i2 - i1) =~= s.subrange(i2 + 1, n as int));
                    (i1 + 1, i2, i2 + 1)
                },
            }
        },
    };
    assert(s.subrange(n as int, n as int) =~= Seq::<char>::empty());
    assert(v@.subrange(code_lo as int, code_hi as int) == status_code_part(s));
    assert(v@.subrange(reason_lo as int, n as int) == reason_part(s));
    match parse_i32_chars(&v, code_lo, code_hi) {
        Some(code) => (code, string_from_chars(&v, reason_lo, n)),
        None => (503, "Server did not provide a status line".to_owned()),
    }
}

/// Splits a header line into its lower-cased name and its value, or gives
/// `None` for a line without `:`.
pub fn parse_header(line: String) -> (r: Option<(String, String)>)
    ensures
        match r {
            Some((name, value)) => header_meaning(line@) == Some((name@, value@)),
            None => header_meaning(line@) is None,
        },
{
    let v = chars_of(line.as_str());
    let n = v.len();
    let ghost s = v@;
    assert(s.subrange(0, n as int) =~= s);
    match find_char(&v, 0, n, ':') {
        None => None,
        Some(i) => {
            let start = if i + 1 < n && v[i + 1] == ' ' {
                i + 2
            } else {
                i + 1
            };
            let name = lower_string_from_chars(&v, 0, i);
            let value = string_from_chars(&v, start, n);
            assert(s.take(i as int) =~= s.subrange(0, i as int));
            assert(s.skip(start as int) =~= s.subrange(start as int, n as int));
            Some((name, value))
        },
    }
}

/// Reads the size line of a chunk.
pub fn parse_chunk_size(line: &str) -> (r: Option<usize>)
    ensures
        match r {
            Some(n) => chunk_size_meaning(line@) == Some(n as nat),
            None => chunk_size_meaning(line@) is None,
        },
{
    let v = chars_of(line);
    let n = v.len();
    if n == 0 {
        return Some(0);
    }
    let ghost s = v@;
    assert(s.subrange(0, n as int) =~= s);
    let end = match find_char(&v, 0, n, ';') {
        Some(i) => {
            assert(s.take(i as int) =~= s.subrange(0, i as int));
            i
        },
        None => n,
    };
    let (a, b) = trim_bounds(&v, 0, end);
    match parse_unsigned_chars(&v, a, b, 16, usize::MAX as u64) {
        Some(x) => Some(x as usize),
        None => None,
    }
}

/// Reads the value of a `content-length` header.
pub fn parse_content_length(value: &str) -> (r: Option<usize>)
    ensures
        match r {
            Some(n) => content_length_meaning(value@) == Some(n as nat),
            None => content_length_meaning(value@) is None,
        },
{
    let v = chars_of(value);
    let n = v.len();
    assert(v@.subrange(0, n as int) =~= v@);
    let (a, b) = trim_bounds(&v, 0, n);
    match parse_unsigned_chars(&v, a, b, 10, usize::MAX as u64) {
        Some(x) => Some(x as usize),
        None => None,
    }
}

proof fn lemma_first_index_after_prefix(a: Seq<char>, c: char, rest: Seq<char>)
    requires
        first_index_of(a, c) is None,
        rest.len() > 0,
        rest[0] == c,
    ensures
        first_index_of(a + rest, c) == Some(a.len() as int),
{
    lemma_first_index_of_found(a, c);
    let s = a + rest;
    assert forall|j: int| 0 <= j < a.len() implies s[j] != c by {
        assert(s[j] == a[j]);
    }
    lemma_first_index_of(s, c, a.len() as int);
}

/// Writing a header as `name: value` and reading the line back gives the
/// name in lower case and the value unchanged, for every name without `:`.
pub proof fn lemma_header_round_trip(name: Seq<char>, value: Seq<char>)
    requires
        first_index_of(name, ':') is None,
    ensures
        header_meaning(name + seq![':', ' '] + value) == Some((ascii_lower(name), value)),
{
    let s = name + seq![':', ' '] + value;
    assert(s =~= name + (seq![':', ' '] + value));
    lemma_first_index_after_prefix(name, ':', seq![':', ' '] + value);
    assert(s.take(name.len() as int) =~= name);
    assert(s[name.len() as int + 1] == ' ');
    assert(s.skip(name.len() as int + 2) =~= value);
}

/// Every header name the reader produces is free of ASCII upper-case letters.
pub proof fn lemma_header_name_lower_case(s: Seq<char>)
    ensures
        header_meaning(s) matches Some((name, _)) ==> has_no_ascii_upper(name),
{
}

proof fn lemma_decimal_no_space(n: nat)
    ensures
        first_index_of(decimal(n), ' ') is None,
    decreases n,
{
    let d = decimal(n);
    assert forall|j: int| 0 <= j < d.len() implies d[j] != ' ' by {
        if n >= 10 {
            lemma_decimal_no_space(n / 10);
            lemma_first_index_of_found(decimal(n / 10), ' ');
            if j < d.len() - 1 {
                assert(d[j] == decimal(n / 10)[j]);
            }
        }
    }
    lemma_first_index_of(d, ' ', d.len() as int);
}

/// A status line `version code reason` with a version without spaces and a
/// non-negative `i32` code written in decimal reads back as that code and
/// that reason phrase, spaces in the reason included.
pub proof fn lemma_status_line_round_trip(version: Seq<char>, code: nat, reason: Seq<char>)
    requires
        first_index_of(version, ' ') is None,
        code <= 0x7fff_ffff,
    ensures
        status_line_meaning(version + seq![' '] + decimal(code) + seq![' '] + reason) == (
            code as int,
            reason,
        ),
{
    let d = decimal(code);
    let s = version + seq![' '] + d + seq![' '] + reason;
    assert(s =~= version + (seq![' '] + d + seq![' '] + reason));
    lemma_first_index_after_prefix(version, ' ', seq![' '] + d + seq![' '] + reason);
    let rest = s.skip(version.len() as int + 1);
    assert(rest =~= d + (seq![' '] + reason));
    lemma_decimal_no_space(code);
    lemma_first_index_after_prefix(d, ' ', seq![' '] + reason);
    assert(rest.take(d.len() as int) =~= d);
    assert(rest.skip(d.len() as int + 1) =~= reason);
    lemma_decimal_round_trip_i32(code);
}


/// A line with no space holds no status code: it reads as the placeholder
/// 503 with its explanation.
pub proof fn lemma_status_line_without_code(s: Seq<char>)
    requires
        first_index_of(s, ' ') is None,
    ensures
        status_line_meaning(s) == (503int, "Server did not provide a status line"@),
{
    assert(status_code_part(s) =~= Seq::<char>::empty());
}

/// The value of a header is all that follows the first `:`, less one
/// space right after it: a value that does not start with a space is kept
/// whole, and a line without `:` is no header.
pub proof fn lemma_header_value(name: Seq<char>, value: Seq<char>)
    requires
        first_index_of(name, ':') is None,
    ensures
        (value.len() == 0 || value[0] != ' ') ==> header_meaning(name + seq![':'] + value) == Some(
            (ascii_lower(name), value),
        ),
        header_meaning(name) is None,
{
    lemma_first_index_of_found(name, ':');
    let s = name + seq![':'] + value;
    assert(s =~= name + (seq![':'] + value));
    lemma_first_index_after_prefix(name, ':', seq![':'] + value);
    assert(s.take(name.len() as int) =~= name);
    assert(s.skip(name.len() as int + 1) =~= value);
    if value.len() > 0 {
        assert(s[name.len() as int + 1] == value[0]);
    }
}

proof fn lemma_digits_trimmed(s: Seq<char>, radix: nat)
    requires
        radix <= 36,
        s.len() > 0,
        all_digits(s, radix),
    ensures
        trim(s) == s,
{
    assert(digit_value(s[0], radix) is Some);
    assert(digit_value(s.last(), radix) is Some);
    assert(trim_start(s) == s);
    assert(trim_end(s) == s);
}

/// A chunk size line gives its size in hexadecimal (`a` to `f` in either
/// case count 10 to 15), with any chunk extension after `;` ignored; the
/// empty line gives zero.
pub proof fn lemma_chunk_size_hex(digits: Seq<char>, ext: Seq<char>)
    requires
        digits.len() > 0,
        all_digits(digits, 16),
        digits_value(digits, 16) <= usize::MAX,
    ensures
        chunk_size_meaning(digits) == Some(digits_value(digits, 16)),
        chunk_size_meaning(digits + seq![';'] + ext) == Some(digits_value(digits, 16)),
        chunk_size_meaning(Seq::empty()) == Some(0nat),
{
    lemma_digits_trimmed(digits, 16);
    assert(digit_value(digits[0], 16) is Some);
    assert(digits[0] != '+');
    lemma_first_index_of_found(digits, ';');
    assert forall|j: int| 0 <= j < digits.len() implies digits[j] != ';' by {
        assert(digit_value(digits[j], 16) is Some);
    }
    lemma_first_index_of(digits, ';', digits.len() as int);
    let line = digits + seq![';'] + ext;
    assert(line =~= digits + (seq![';'] + ext));
    lemma_first_index_after_prefix(digits, ';', seq![';'] + ext);
    assert(line.take(digits.len() as int) =~= digits);
}


} // verus!
