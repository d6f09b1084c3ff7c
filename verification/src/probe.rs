//! Classification of remote probe responses.
//!
//! The remote API answers with JSON bodies.  Single values are read out of a
//! body through trusted lookups into `serde_json`; the classification of
//! what they mean is verified against those lookups.

use crate::text::{append_str, chars_to_string, dec_chars, push_dec_chars};
use crate::GroupId;
use vstd::prelude::*;

verus! {

/// Whether `body` parses as JSON.
pub uninterp spec fn is_json(body: Seq<char>) -> bool;

/// The string at JSON pointer `pointer` in `body`, when `body` is JSON and
/// that location holds a string.
pub uninterp spec fn json_string_at(body: Seq<char>, pointer: Seq<char>) -> Option<Seq<char>>;

/// The unsigned integer at JSON pointer `pointer` in `body`, likewise.
pub uninterp spec fn json_u64_at(body: Seq<char>, pointer: Seq<char>) -> Option<u64>;

/// The boolean at JSON pointer `pointer` in `body`, likewise.
pub uninterp spec fn json_bool_at(body: Seq<char>, pointer: Seq<char>) -> Option<bool>;

/// Whether the value at JSON pointer `pointer` in `body` is JSON null;
/// `None` when the body is not JSON or holds nothing at that location.
pub uninterp spec fn json_null_at(body: Seq<char>, pointer: Seq<char>) -> Option<bool>;

/// Relies on `serde_json::from_str::<Value>`: whether the body is JSON.
#[verifier::external_body]
fn check_json_parses(body: &str) -> (r: bool)
    ensures
        r == is_json(body@),
{
    serde_json::from_str::<serde_json::Value>(body).is_ok()
}

/// Relies on `serde_json::from_str`, `Value::pointer` and `Value::as_str`:
/// the string at a JSON pointer, when the body is JSON and a string is
/// there.
#[verifier::external_body]
fn read_json_string(body: &str, pointer: &str) -> (r: Option<String>)
    ensures
        r.deep_view() == json_string_at(body@, pointer@),
{
    serde_json::from_str::<serde_json::Value>(body).ok().and_then(
        |v| v.pointer(pointer).and_then(|f| f.as_str().map(|s| s.to_string())),
    )
}

/// Relies on `serde_json::from_str`, `Value::pointer` and `Value::as_u64`:
/// the unsigned integer at a JSON pointer, when one is there.
#[verifier::external_body]
fn read_json_u64(body: &str, pointer: &str) -> (r: Option<u64>)
    ensures
        r == json_u64_at(body@, pointer@),
{
    serde_json::from_str::<serde_json::Value>(body).ok().and_then(
        |v| v.pointer(pointer).and_then(|f| f.as_u64()),
    )
}

/// Relies on `serde_json::from_str`, `Value::pointer` and `Value::as_bool`:
/// the boolean at a JSON pointer, when one is there.
#[verifier::external_body]
fn read_json_bool(body: &str, pointer: &str) -> (r: Option<bool>)
    ensures
        r == json_bool_at(body@, pointer@),
{
    serde_json::from_str::<serde_json::Value>(body).ok().and_then(
        |v| v.pointer(pointer).and_then(|f| f.as_bool()),
    )
}

/// Relies on `serde_json::from_str`, `Value::pointer` and `Value::is_null`:
/// whether the value at a JSON pointer is null, when one is there.
#[verifier::external_body]
fn read_json_null(body: &str, pointer: &str) -> (r: Option<bool>)
    ensures
        r == json_null_at(body@, pointer@),
{
    serde_json::from_str::<serde_json::Value>(body).ok().and_then(
        |v| v.pointer(pointer).map(|f| f.is_null()),
    )
}

// ---------------------------------------------------------------------------
// Balance classification.
// ---------------------------------------------------------------------------

/// A balance probe's classified outcome.
#[derive(Clone, Copy, Debug, PartialEq, Eq, Structural)]
pub enum BalanceOutcome {
    /// A positive balance was reported.
    Found(u32),
    /// The rate-limit envelope came back.
    RateLimited,
    /// A balance of zero was reported.
    Empty,
    /// The body is not JSON or lacks a usable balance; the candidate is
    /// skipped.
    Malformed,
}

/// The rate-limit envelope: a first error whose message says so.
pub open spec fn spec_is_rate_limited(body: Seq<char>) -> bool {
    json_string_at(body, "/errors/0/message"@) == Some("TooManyRequests"@)
}

/// Whether the body carries the rate-limit envelope.
pub fn is_rate_limited(body: &str) -> (r: bool)
    ensures
        r == spec_is_rate_limited(body@),
{
    match read_json_string(body, "/errors/0/message") {
        Some(s) => {
            let expected = "TooManyRequests".to_owned();
            s.eq(&expected)
        },
        None => false,
    }
}

/// Balance classification: the rate-limit envelope wins; then a `robux`
/// field within `u32` range is a balance, with zero reported as `Empty`;
/// everything else is malformed.
pub open spec fn spec_classify_balance(body: Seq<char>) -> BalanceOutcome {
    if spec_is_rate_limited(body) {
        BalanceOutcome::RateLimited
    } else {
        match json_u64_at(body, "/robux"@) {
            Some(n) => if n > u32::MAX {
                BalanceOutcome::Malformed
            } else if n == 0 {
                BalanceOutcome::Empty
            } else {
                BalanceOutcome::Found(n as u32)
            },
            None => BalanceOutcome::Malformed,
        }
    }
}

pub fn classify_balance(body: &str) -> (r: BalanceOutcome)
    ensures
        r == spec_classify_balance(body@),
{
    if is_rate_limited(body) {
        return BalanceOutcome::RateLimited;
    }
    match read_json_u64(body, "/robux") {
        Some(n) => {
            if n > u32::MAX as u64 {
                BalanceOutcome::Malformed
            } else if n == 0 {
                BalanceOutcome::Empty
            } else {
                BalanceOutcome::Found(n as u32)
            }
        },
        None => BalanceOutcome::Malformed,
    }
}

// ---------------------------------------------------------------------------
// Ownership classification.
// ---------------------------------------------------------------------------

/// An ownership probe's classified outcome.
#[derive(Clone, Debug, PartialEq, Eq)]
pub enum OwnershipOutcome {
    /// The group is claimable; its name is carried along when one was given.
    Eligible { name: Option<String> },
    Ineligible,
    RateLimited,
    /// The body is not JSON; the candidate is skipped.
    Malformed,
}

/// The eligibility predicate: no lock marker, publicly enterable, no current
/// owner, and not restricted to premium members unless those are accepted.
pub open spec fn spec_ownership_eligible(body: Seq<char>, accept_restricted: bool) -> bool {
    &&& !spec_is_rate_limited(body)
    &&& is_json(body)
    &&& json_null_at(body, "/isLocked"@) is None
    &&& json_bool_at(body, "/publicEntryAllowed"@) == Some(true)
    &&& json_null_at(body, "/owner"@) != Some(false)
    &&& (json_bool_at(body, "/isBuildersClubOnly"@) != Some(true) || accept_restricted)
}

pub fn classify_ownership(body: &str, accept_restricted: bool) -> (r: OwnershipOutcome)
    ensures
        r is RateLimited <==> spec_is_rate_limited(body@),
        r is Malformed <==> !spec_is_rate_limited(body@) && !is_json(body@),
        r is Eligible <==> spec_ownership_eligible(body@, accept_restricted),
        r matches OwnershipOutcome::Eligible { name } ==> name.deep_view() == json_string_at(
            body@,
            "/name"@,
        ),
        r is Ineligible <==> !spec_is_rate_limited(body@) && is_json(body@)
            && !spec_ownership_eligible(body@, accept_restricted),
{
    if is_rate_limited(body) {
        return OwnershipOutcome::RateLimited;
    }
    if !check_json_parses(body) {
        return OwnershipOutcome::Malformed;
    }
    let not_locked = read_json_null(body, "/isLocked").is_none();
    let public = match read_json_bool(body, "/publicEntryAllowed") {
        Some(b) => b,
        None => false,
    };
    let no_owner = match read_json_null(body, "/owner") {
        Some(b) => b,
        None => true,
    };
    let restricted = match read_json_bool(body, "/isBuildersClubOnly") {
        Some(b) => b,
        None => false,
    };
    if not_locked && public && no_owner && (!restricted || accept_restricted) {
        OwnershipOutcome::Eligible { name: read_json_string(body, "/name") }
    } else {
        OwnershipOutcome::Ineligible
    }
}

// ---------------------------------------------------------------------------
// Probe addresses.
// ---------------------------------------------------------------------------

/// The balance-check address for a candidate, with the api key appended.
pub fn funds_check_address(id: GroupId, key: &str) -> (r: String)
    ensures
        r@ == "https://economy.roblox.com/v1/groups/"@ + dec_chars(id as nat) + "/currency?_="@
            + key@,
{
    let mut v: Vec<char> = Vec::new();
    append_str(&mut v, "https://economy.roblox.com/v1/groups/");
    push_dec_chars(&mut v, id);
    append_str(&mut v, "/currency?_=");
    append_str(&mut v, key);
    proof {
        assert(v@ =~= "https://economy.roblox.com/v1/groups/"@ + dec_chars(id as nat)
            + "/currency?_="@ + key@);
    }
    chars_to_string(&v)
}

/// The ownership-check address for a candidate, with the api key appended.
pub fn owner_check_address(id: GroupId, key: &str) -> (r: String)
    ensures
        r@ == "https://groups.roblox.com/v1/groups/"@ + dec_chars(id as nat) + "?_="@ + key@,
{
    let mut v: Vec<char> = Vec::new();
    append_str(&mut v, "https://groups.roblox.com/v1/groups/");
    push_dec_chars(&mut v, id);
    append_str(&mut v, "?_=");
    append_str(&mut v, key);
    proof {
        assert(v@ =~= "https://groups.roblox.com/v1/groups/"@ + dec_chars(id as nat) + "?_="@
            + key@);
    }
    chars_to_string(&v)
}

} // verus!
