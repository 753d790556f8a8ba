//! Host names for the wire: a non-ASCII host is written label by label in
//! punycode, each such label prefixed with `xn--`.
use crate::error::RequestError;
use crate::text::{
    chars_of, find_char, first_index_of, lemma_first_index_of_found, push_str, string_from_chars,
    string_push,
};
use vstd::prelude::*;
use vstd::utf8::{is_ascii_chars, is_ascii_chars_concat};

verus! {

/// The characters that `punycode::encode` gives for `label`, or `None`
/// where it reports failure.
pub uninterp spec fn punycode_of(label: Seq<char>) -> Option<Seq<char>>;

/// Labels shorter than this are ones that `punycode::encode` handles
/// without an arithmetic overflow.
pub open spec fn punycode_label_limit() -> nat {
    3800
}

/// `punycode::encode` from the punycode crate: RFC 3492 punycode of a
/// label. The result is named, not written out; its documentation promises
/// that a result holds only ASCII characters, and that is stated. Its
/// running delta is a `u32` whose additions are not all checked, so labels
/// are kept below a length at which they cannot overflow.
#[verifier::external_body]
fn punycode_encode(label: &str) -> (r: Option<String>)
    requires
        label@.len() < punycode_label_limit(),
    ensures
        match r {
            Some(s) => punycode_of(label@) == Some(s@) && is_ascii_chars(s@),
            None => punycode_of(label@) is None,
        },
{
    punycode::encode(label).ok()
}

/// A label as it goes on the wire: as it is when ASCII, else `xn--` and
/// its punycode.
pub open spec fn label_on_wire(label: Seq<char>) -> Option<Seq<char>> {
    if is_ascii_chars(label) {
        Some(label)
    } else {
        match punycode_of(label) {
            Some(p) => Some("xn--"@ + p),
            None => None,
        }
    }
}

/// The labels of `s` (split at each `.`) as they go on the wire, each
/// followed by a `.`; `None` when some label cannot be encoded.
pub open spec fn labels_on_wire(s: Seq<char>) -> Option<Seq<char>>
    decreases s.len(),
{
    match first_index_of(s, '.') {
        Some(i) => {
            if 0 <= i < s.len() {
                match (label_on_wire(s.take(i)), labels_on_wire(s.skip(i + 1))) {
                    (Some(l), Some(r)) => Some(l + seq!['.'] + r),
                    _ => None,
                }
            } else {
                None
            }
        },
        None => match label_on_wire(s) {
            Some(l) => Some(l + seq!['.']),
            None => None,
        },
    }
}

/// Every label of `s` is shorter than the punycode limit.
pub open spec fn labels_short(s: Seq<char>) -> bool
    decreases s.len(),
{
    match first_index_of(s, '.') {
        Some(i) => if 0 <= i < s.len() {
            i < punycode_label_limit() && labels_short(s.skip(i + 1))
        } else {
            false
        },
        None => s.len() < punycode_label_limit(),
    }
}

/// The host as it goes on the wire: unchanged when ASCII; else its labels
/// on the wire joined by `.`; `None` when a label cannot be encoded.
pub open spec fn host_on_wire(host: Seq<char>) -> Option<Seq<char>> {
    if is_ascii_chars(host) {
        Some(host)
    } else {
        match labels_on_wire(host) {
            Some(d) => Some(d.drop_last()),
            None => None,
        }
    }
}

/// Appends the label `v[lo..hi]` as it goes on the wire.
fn push_label(out: &mut String, v: &Vec<char>, lo: usize, hi: usize) -> (ok: bool)
    requires
        lo <= hi <= v.len(),
        hi - lo < punycode_label_limit(),
    ensures
        match label_on_wire(v@.subrange(lo as int, hi as int)) {
            Some(l) => ok && final(out)@ == old(out)@ + l,
            None => !ok,
        },
        ok && is_ascii_chars(old(out)@) ==> is_ascii_chars(final(out)@),
{
    let label = string_from_chars(v, lo, hi);
    if label.as_str().is_ascii() {
        push_str(out, label.as_str());
        proof {
            is_ascii_chars_concat(final(out)@, old(out)@, label@);
        }
        true
    } else {
        push_encoded_label(out, punycode_encode(label.as_str()))
    }
}

/// Appends a label that punycode encoded, as it goes on the wire: `xn--`
/// and the encoding; `false`, with nothing appended, when the encoding
/// failed.
pub fn push_encoded_label(out: &mut String, encoded: Option<String>) -> (ok: bool)
    ensures
        match encoded {
            Some(p) => ok && final(out)@ == old(out)@ + ("xn--"@ + p@),
            None => !ok && final(out)@ == old(out)@,
        },
        (encoded matches Some(p) && is_ascii_chars(p@)) && is_ascii_chars(old(out)@) ==> is_ascii_chars(
            final(out)@,
        ),
{
    match encoded {
        Some(p) => {
            push_str(out, "xn--");
            push_str(out, p.as_str());
            assert(final(out)@ =~= old(out)@ + ("xn--"@ + p@));
            proof {
                lemma_wire_prefix_ascii();
                is_ascii_chars_concat(old(out)@ + "xn--"@, old(out)@, "xn--"@);
                is_ascii_chars_concat(final(out)@, old(out)@ + "xn--"@, p@);
            }
            true
        },
        None => false,
    }
}

/// Makes sure the host is ASCII: a non-ASCII host is encoded label by label
/// with punycode. A label that cannot be encoded is refused with
/// `PunycodeConversionFailed`.
pub fn ensure_ascii_host(host: String) -> (r: Result<String, RequestError>)
    requires
        !is_ascii_chars(host@) ==> labels_short(host@),
    ensures
        match host_on_wire(host@) {
            Some(h) => r matches Ok(s) && s@ == h,
            None => r matches Err(e) && e is PunycodeConversionFailed,
        },
        r matches Ok(s) ==> is_ascii_chars(s@),
{
    if host.as_str().is_ascii() {
        return Ok(host);
    }
    let v = chars_of(host.as_str());
    let n = v.len();
    assert(v@.subrange(0, n as int) =~= v@);
    let ghost s = v@;
    let mut out = String::new();
    assert(is_ascii_chars(out@));
    let mut pos: usize = 0;
    loop
        invariant
            pos <= n == v.len(),
            s == v@,
            s == host@,
            !is_ascii_chars(s),
            is_ascii_chars(out@),
            labels_short(s.skip(pos as int)),
            labels_on_wire(s) == match labels_on_wire(s.skip(pos as int)) {
                Some(r) => Some(out@ + r),
                None => None::<Seq<char>>,
            },
        decreases n - pos,
    {
        let ghost rest = s.skip(pos as int);
        assert(rest =~= v@.subrange(pos as int, n as int));
        proof {
            lemma_first_index_of_found(rest, '.');
        }
        match find_char(&v, pos, n, '.') {
            Some(i) => {
                assert(rest.take(i - pos) =~= v@.subrange(pos as int, i as int));
                assert(rest.skip(i - pos + 1) =~= s.skip(i + 1));
                let ghost before = out@;
                if !push_label(&mut out, &v, pos, i) {
                    assert(labels_on_wire(rest) is None);
                    return Err(RequestError::PunycodeConversionFailed);
                }
                let ghost mid = out@;
                string_push(&mut out, '.');
                proof {
                    lemma_wire_prefix_ascii();
                    is_ascii_chars_concat(out@, mid, seq!['.']);
                    let l = label_on_wire(rest.take(i - pos)).unwrap();
                    assert(out@ =~= before + l + seq!['.']);
                    if let Some(r) = labels_on_wire(s.skip(i + 1)) {
                        assert(before + (l + seq!['.'] + r) =~= out@ + r);
                    }
                }
                pos = i + 1;
            },
            None => {
                let ghost before = out@;
                assert(rest =~= v@.subrange(pos as int, n as int));
                if !push_label(&mut out, &v, pos, n) {
                    assert(labels_on_wire(rest) is None);
                    return Err(RequestError::PunycodeConversionFailed);
                }
                let ghost mid = out@;
                string_push(&mut out, '.');
                proof {
                    let l = label_on_wire(rest).unwrap();
                    assert(out@ =~= before + (l + seq!['.']));
                }
                let chars = chars_of(out.as_str());
                let m = chars.len();
                assert(m > 0);
                let result = string_from_chars(&chars, 0, m - 1);
                assert(result@ =~= out@.drop_last());
                assert(result@ =~= mid);
                return Ok(result);
            },
        }
    }
}

/// An ASCII host is left exactly as it is.
pub proof fn lemma_ascii_host_unchanged(host: Seq<char>)
    requires
        is_ascii_chars(host),
    ensures
        host_on_wire(host) == Some(host),
{
}

proof fn lemma_wire_prefix_ascii()
    ensures
        is_ascii_chars("xn--"@),
        is_ascii_chars(seq!['.']),
{
    reveal_strlit("xn--");
    let x = "xn--"@;
    assert forall|j: int| 0 <= j < x.len() implies '\0' <= #[trigger] x[j] && x[j] <= '\u{7f}' by {}
    let d = seq!['.'];
    assert forall|j: int| 0 <= j < d.len() implies '\0' <= #[trigger] d[j] && d[j] <= '\u{7f}' by {}
}

} // verus!
