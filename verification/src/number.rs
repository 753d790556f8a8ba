//! Integers in text: the grammar that std's `from_str` and `from_str_radix`
//! accept for the integer types this library reads (status codes, content
//! lengths, chunk sizes, timeouts), and decimal formatting.
use vstd::prelude::*;

verus! {

/// The value of `c` as a digit in base `radix` (2 to 36), if it is one:
/// `0`-`9`, then `a`-`z` or `A`-`Z` for 10 to 35.
pub open spec fn digit_value(c: char, radix: nat) -> Option<nat> {
    let u = c as u32;
    let d: int = if 48 <= u && u <= 57 {
        u - 48
    } else if 97 <= u && u <= 122 {
        u - 97 + 10
    } else if 65 <= u && u <= 90 {
        u - 65 + 10
    } else {
        99
    };
    if d < radix {
        Some(d as nat)
    } else {
        None
    }
}

/// Every character of `s` is a digit in base `radix`.
pub open spec fn all_digits(s: Seq<char>, radix: nat) -> bool {
    forall|i: int| 0 <= i < s.len() ==> (#[trigger] digit_value(s[i], radix)) is Some
}

/// The number that the digits `s` write in base `radix`, most significant first.
pub open spec fn digits_value(s: Seq<char>, radix: nat) -> nat
    decreases s.len(),
{
    if s.len() == 0 {
        0
    } else {
        let d = match digit_value(s.last(), radix) {
            Some(d) => d,
            None => 0,
        };
        digits_value(s.drop_last(), radix) * radix + d
    }
}

/// What `from_str_radix(s, radix)` of an unsigned integer type whose largest
/// value is `max` gives: an optional `+`, then at least one digit, and a value
/// that fits.
pub open spec fn parse_unsigned(s: Seq<char>, radix: nat, max: nat) -> Option<nat> {
    let body = if s.len() > 0 && s[0] == '+' {
        s.drop_first()
    } else {
        s
    };
    if body.len() > 0 && all_digits(body, radix) && digits_value(body, radix) <= max {
        Some(digits_value(body, radix))
    } else {
        None
    }
}

/// What `str::parse::<i32>` gives: an optional `+` or `-`, then at least one
/// decimal digit, and a value that fits in an `i32`.
pub open spec fn parse_i32(s: Seq<char>) -> Option<int> {
    if s.len() > 0 && s[0] == '-' {
        let body = s.drop_first();
        if body.len() > 0 && all_digits(body, 10) && digits_value(body, 10) <= 0x8000_0000 {
            Some(-digits_value(body, 10))
        } else {
            None
        }
    } else {
        match parse_unsigned(s, 10, 0x7fff_ffff) {
            Some(n) => Some(n as int),
            None => None,
        }
    }
}

/// The decimal digit character for `d` (below 10).
pub open spec fn digit_char(d: nat) -> char {
    (48 + d) as char
}

/// The decimal representation of `n`, without sign or leading zeros.
pub open spec fn decimal(n: nat) -> Seq<char>
    decreases n,
{
    if n < 10 {
        seq![digit_char(n)]
    } else {
        decimal(n / 10).push(digit_char(n % 10))
    }
}

/// A prefix of a digit string is worth no more than the whole string.
pub proof fn lemma_digits_value_prefix(s: Seq<char>, radix: nat, i: int)
    requires
        radix >= 1,
        0 <= i <= s.len(),
    ensures
        digits_value(s.take(i), radix) <= digits_value(s, radix),
    decreases s.len(),
{
    if i < s.len() {
        lemma_digits_value_prefix(s.drop_last(), radix, i);
        assert(s.drop_last().take(i) =~= s.take(i));
        let v = digits_value(s.drop_last(), radix);
        assert(v * radix >= v) by (nonlinear_arith)
            requires
                radix >= 1,
        ;
    } else {
        assert(s.take(i) =~= s);
    }
}

proof fn lemma_digits_value_step(s: Seq<char>, radix: nat, k: int)
    requires
        0 <= k < s.len(),
    ensures
        digits_value(s.take(k + 1), radix) == digits_value(s.take(k), radix) * radix + match digit_value(
            s[k],
            radix,
        ) {
            Some(d) => d,
            None => 0,
        },
{
    assert(s.take(k + 1).drop_last() =~= s.take(k));
    assert(s.take(k + 1).last() == s[k]);
}

/// The value of the digits in `v[lo..hi]` in base `radix`, if they are all
/// digits, there is at least one, and the value is at most `max`.
fn parse_digits(v: &Vec<char>, lo: usize, hi: usize, radix: u32, max: u64) -> (r: Option<u64>)
    requires
        lo <= hi <= v.len(),
        2 <= radix <= 36,
    ensures
        ({
            let s = v@.subrange(lo as int, hi as int);
            match r {
                Some(n) => s.len() > 0 && all_digits(s, radix as nat) && digits_value(
                    s,
                    radix as nat,
                ) == n && n <= max,
                None => !(s.len() > 0 && all_digits(s, radix as nat) && digits_value(
                    s,
                    radix as nat,
                ) <= max),
            }
        }),
{
    let ghost s = v@.subrange(lo as int, hi as int);
    if lo == hi {
        return None;
    }
    let mut acc: u64 = 0;
    let mut i = lo;
    while i < hi
        invariant
            lo <= i <= hi <= v.len(),
            2 <= radix <= 36,
            s == v@.subrange(lo as int, hi as int),
            acc <= max,
            acc == digits_value(s.take(i - lo), radix as nat),
            all_digits(s.take(i - lo), radix as nat),
        decreases hi - i,
    {
        let ghost k: int = i - lo;
        let c = v[i];
        assert(s[k] == c);
        let u = c as u32;
        let d: u32 = if 48 <= u && u <= 57 {
            u - 48
        } else if 97 <= u && u <= 122 {
            u - 97 + 10
        } else if 65 <= u && u <= 90 {
            u - 65 + 10
        } else {
            99
        };
        if d >= radix {
            assert(digit_value(s[k], radix as nat) is None);
            assert(!all_digits(s, radix as nat));
            return None;
        }
        proof {
            lemma_digits_value_step(s, radix as nat, k);
        }
        assert((acc as u128) * (radix as u128) <= 36 * 0xffff_ffff_ffff_ffffu128) by (nonlinear_arith)
            requires
                acc <= 0xffff_ffff_ffff_ffffu64,
                radix <= 36,
        ;
        let wide: u128 = (acc as u128) * (radix as u128) + (d as u128);
        assert(wide == digits_value(s.take(k + 1), radix as nat));
        if wide > max as u128 {
            proof {
                if all_digits(s, radix as nat) {
                    lemma_digits_value_prefix(s, radix as nat, k + 1);
                }
            }
            return None;
        }
        acc = wide as u64;
        i += 1;
        assert forall|j: int| 0 <= j < i - lo implies (#[trigger] digit_value(
            s.take(i - lo)[j],
            radix as nat,
        )) is Some by {
            if j < k {
                assert(s.take(i - lo)[j] == s.take(k)[j]);
            }
        }
    }
    assert(s.take(hi - lo) =~= s);
    Some(acc)
}

/// What `from_str_radix` of an unsigned type with largest value `max` gives
/// for the characters `v[lo..hi]`.
pub fn parse_unsigned_chars(v: &Vec<char>, lo: usize, hi: usize, radix: u32, max: u64) -> (r:
    Option<u64>)
    requires
        lo <= hi <= v.len(),
        2 <= radix <= 36,
    ensures
        match r {
            Some(n) => parse_unsigned(v@.subrange(lo as int, hi as int), radix as nat, max as nat)
                == Some(n as nat),
            None => parse_unsigned(v@.subrange(lo as int, hi as int), radix as nat, max as nat)
                is None,
        },
{
    let ghost s = v@.subrange(lo as int, hi as int);
    if lo < hi && v[lo] == '+' {
        assert(s.drop_first() =~= v@.subrange(lo + 1, hi as int));
        parse_digits(v, lo + 1, hi, radix, max)
    } else {
        parse_digits(v, lo, hi, radix, max)
    }
}

/// What `str::parse::<i32>` gives for the characters `v[lo..hi]`.
pub fn parse_i32_chars(v: &Vec<char>, lo: usize, hi: usize) -> (r: Option<i32>)
    requires
        lo <= hi <= v.len(),
    ensures
        match r {
            Some(n) => parse_i32(v@.subrange(lo as int, hi as int)) == Some(n as int),
            None => parse_i32(v@.subrange(lo as int, hi as int)) is None,
        },
{
    let ghost s = v@.subrange(lo as int, hi as int);
    if lo < hi && v[lo] == '-' {
        assert(s.drop_first() =~= v@.subrange(lo + 1, hi as int));
        match parse_digits(v, lo + 1, hi, 10, 0x8000_0000) {
            Some(n) => Some((0 - (n as i64)) as i32),
            None => None,
        }
    } else {
        match parse_unsigned_chars(v, lo, hi, 10, 0x7fff_ffff) {
            Some(n) => Some(n as i32),
            None => None,
        }
    }
}

/// Appends the decimal representation of `n` to `s`, as `to_string` writes it.
pub fn push_decimal(s: &mut String, n: u64)
    ensures
        final(s)@ == old(s)@ + decimal(n as nat),
    decreases n,
{
    if n >= 10 {
        push_decimal(s, n / 10);
    }
    let d = n % 10;
    let c = ((48 + d) as u8) as char;
    crate::text::string_push(s, c);
    proof {
        if n >= 10 {
            assert(old(s)@ + decimal(n as nat) =~= old(s)@ + decimal((n / 10) as nat) + seq![
                digit_char((n % 10) as nat),
            ]);
        } else {
            assert(old(s)@ + decimal(n as nat) =~= old(s)@ + seq![digit_char(n as nat)]);
        }
    }
}

/// The decimal representation of `n`, as `n.to_string()` gives it.
pub fn decimal_string(n: u64) -> (s: String)
    ensures
        s@ == decimal(n as nat),
{
    let mut s = String::new();
    push_decimal(&mut s, n);
    assert(s@ =~= decimal(n as nat));
    s
}

proof fn lemma_decimal_digits(n: nat)
    ensures
        decimal(n).len() > 0,
        all_digits(decimal(n), 10),
        digits_value(decimal(n), 10) == n,
        decimal(n)[0] != '+' && decimal(n)[0] != '-',
    decreases n,
{
    let c = digit_char(n % 10);
    assert(c as u32 == 48 + n % 10);
    assert(digit_value(c, 10) == Some(n % 10));
    if n < 10 {
        assert(decimal(n).drop_last() =~= Seq::<char>::empty());
        assert(decimal(n).last() == c);
        assert(digits_value(Seq::<char>::empty(), 10) == 0);
        assert(digits_value(decimal(n), 10) == n);
    } else {
        lemma_decimal_digits(n / 10);
        let d = decimal(n);
        assert(d.drop_last() =~= decimal(n / 10));
        assert(d.last() == c);
        assert(digits_value(d, 10) == n / 10 * 10 + n % 10);
        assert forall|i: int| 0 <= i < d.len() implies (#[trigger] digit_value(d[i], 10)) is Some by {
            if i < d.len() - 1 {
                assert(d[i] == decimal(n / 10)[i]);
            }
        }
    }
}

/// Reading back what decimal formatting wrote gives the same number: for
/// every `n` up to the type's largest value `max`, `parse_unsigned` of
/// `decimal(n)` in base 10 is `n`.
pub proof fn lemma_decimal_round_trip(n: nat, max: nat)
    requires
        n <= max,
    ensures
        parse_unsigned(decimal(n), 10, max) == Some(n),
{
    lemma_decimal_digits(n);
}

/// A non-negative `i32` written in decimal parses back to itself.
pub proof fn lemma_decimal_round_trip_i32(n: nat)
    requires
        n <= 0x7fff_ffff,
    ensures
        parse_i32(decimal(n)) == Some(n as int),
{
    lemma_decimal_digits(n);
}

/// Decimal digits hold no white space, so trimming leaves them as they are.
pub proof fn lemma_decimal_trimmed(n: nat)
    ensures
        crate::text::trim(decimal(n)) == decimal(n),
{
    let d = decimal(n);
    lemma_decimal_digits(n);
    assert(digit_value(d[0], 10) is Some);
    assert(digit_value(d.last(), 10) is Some);
    assert(crate::text::trim_start(d) == d);
    assert(crate::text::trim_end(d) == d);
}


/// A number larger than the maximum, written in decimal, is refused.
pub proof fn lemma_decimal_too_large(n: nat, max: nat)
    requires
        n > max,
    ensures
        parse_unsigned(decimal(n), 10, max) is None,
{
    lemma_decimal_digits(n);
}

} // verus!
