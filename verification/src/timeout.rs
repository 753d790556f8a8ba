//! Request timeouts: the configured number of seconds, and what is left
//! of the time until the deadline.
use crate::number::{
    decimal, lemma_decimal_round_trip, lemma_decimal_too_large, parse_unsigned,
};
use crate::number::parse_unsigned_chars;
use crate::text::{chars_of, first_index_of, lemma_first_index_of_found};
use vstd::prelude::*;

verus! {

/// `std::io::Error::new` from std: the error for a request whose timeout was
/// reached (kind `TimedOut`). Nothing is stated of the error value.
#[verifier::external_body]
pub(crate) fn timeout_err() -> std::io::Error {
    std::io::Error::new(std::io::ErrorKind::TimedOut, "the timeout of the request was reached")
}

/// The time left until the deadline `timeout_at`, both counted from the
/// same origin in the same unit: none when there is no deadline, and an
/// error once the deadline has passed.
pub fn timeout_at_to_duration(timeout_at: Option<u64>, now: u64) -> (r: Result<Option<u64>, std::io::Error>)
    ensures
        match timeout_at {
            None => r matches Ok(None),
            Some(at) => if now <= at {
                r matches Ok(Some(left)) && left == at - now
            } else {
                r is Err
            },
        },
{
    match timeout_at {
        Some(at) => {
            if now <= at {
                Ok(Some(at - now))
            } else {
                Err(timeout_err())
            }
        },
        None => Ok(None),
    }
}

/// The timeout in seconds: the one configured for the request, else the
/// value of the `MINREQ_TIMEOUT` environment variable when it is a `u64`.
pub open spec fn timeout_from(configured: Option<u64>, env_value: Option<Seq<char>>) -> Option<u64> {
    match configured {
        Some(t) => Some(t),
        None => match env_value {
            Some(v) => match parse_unsigned(v, 10, u64::MAX as nat) {
                Some(t) => Some(t as u64),
                None => None,
            },
            None => None,
        },
    }
}

/// Chooses the timeout of a request.
pub fn effective_timeout(configured: Option<u64>, env_value: Option<&str>) -> (r: Option<u64>)
    ensures
        r == timeout_from(configured, match env_value {
            Some(v) => Some(v@),
            None => None,
        }),
{
    match configured {
        Some(t) => Some(t),
        None => match env_value {
            Some(v) => {
                let cs = chars_of(v);
                let n = cs.len();
                assert(cs@.subrange(0, n as int) =~= cs@);
                parse_unsigned_chars(&cs, 0, n, 10, u64::MAX)
            },
            None => None,
        },
    }
}

/// Whether a connection attempt ends the search for a working address: it
/// does when it succeeded, or when it was the last address to try.
pub fn connect_attempt_ends(succeeded: bool, index: usize, count: usize) -> (r: bool)
    requires
        index < count,
    ensures
        r == (succeeded || index == count - 1),
{
    succeeded || index == count - 1
}

/// Where the search over the resolved addresses stops, given whether each
/// attempt in turn succeeded: at the first success; failing that, at the
/// last address; nowhere when there is no address (`AddressNotFound`).
pub open spec fn search_stop(succeeded: Seq<bool>) -> Option<int> {
    match first_index_of(succeeded, true) {
        Some(i) => Some(i),
        None => if succeeded.len() > 0 {
            Some(succeeded.len() - 1)
        } else {
            None
        },
    }
}

/// Trying the addresses in turn and stopping at the first attempt that
/// `connect_attempt_ends` accepts stops where `search_stop` says: no earlier
/// attempt ends the search, and the one there does.
pub proof fn lemma_address_search(succeeded: Seq<bool>)
    ensures
        search_stop(succeeded) matches Some(i) ==> 0 <= i < succeeded.len() && (succeeded[i]
            || i == succeeded.len() - 1) && forall|j: int|
            0 <= j < i ==> !(#[trigger] succeeded[j] || j == succeeded.len() - 1),
        search_stop(succeeded) is None <==> succeeded.len() == 0,
{
    lemma_first_index_of_found(succeeded, true);
}


/// The timeout of a request: the configured one, whatever the environment
/// says; else the value of `MINREQ_TIMEOUT` read as a decimal number of
/// seconds, any `u64` included; else (no variable, or one whose value is
/// too large) none.
pub proof fn lemma_timeout_choice(t: u64, n: u64, big: nat, env_value: Option<Seq<char>>)
    requires
        big > u64::MAX,
    ensures
        timeout_from(Some(t), env_value) == Some(t),
        timeout_from(None, Some(decimal(n as nat))) == Some(n),
        timeout_from(None, Some(decimal(big))) is None,
        timeout_from(None, None) is None,
{
    lemma_decimal_round_trip(n as nat, u64::MAX as nat);
    lemma_decimal_too_large(big, u64::MAX as nat);
}

} // verus!
