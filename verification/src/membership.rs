//! The membership oracle's answers and the rules that read them.
//!
//! The oracle itself — a lookup of the token in the persistent
//! membership store — lives outside the engine and may fail
//! transiently. Every rule here fails closed: only a positive answer
//! ever authenticates anyone.

use vstd::prelude::*;

verus! {

/// What the membership oracle said about a token.
#[derive(Clone, Copy, Debug, PartialEq, Eq, Structural)]
pub enum OracleReply {
    /// The token exists in the membership store.
    IsMember,
    /// The token is unknown.
    NotMember,
    /// The lookup failed transiently; treated as not authenticated,
    /// never the other way around.
    Unavailable,
}

/// Whether a connection that presented `token` and got `oracle` back
/// counts as authenticated: there must be a token and a positive
/// answer.
pub open spec fn spec_authenticates(token: Option<u128>, oracle: OracleReply) -> bool {
    token is Some && oracle is IsMember
}

/// Decide authentication from the presented token and the oracle's
/// answer, failing closed.
pub fn authenticates(token: Option<u128>, oracle: OracleReply) -> (r: bool)
    ensures
        r == spec_authenticates(token, oracle),
{
    match (token, oracle) {
        (Some(_), OracleReply::IsMember) => true,
        _ => false,
    }
}

/// Whether the landing page treats a viewer as read-only: everyone but
/// a visitor whose cookie token authenticates.
pub fn read_only_view(token: Option<u128>, oracle: OracleReply) -> (r: bool)
    ensures
        r == !spec_authenticates(token, oracle),
{
    !authenticates(token, oracle)
}

/// Decide what the payment webhook grants: the token to record, exactly
/// when the signature verified and the first paid line item is the
/// membership price.
pub fn register(
    signature_ok: bool,
    first_price: Option<&String>,
    membership_price: &String,
    token: u128,
) -> (r: Option<u128>)
    ensures
        r == (if signature_ok && (match first_price {
            Some(p) => p@ == membership_price@,
            None => false,
        }) {
            Some(token)
        } else {
            None::<u128>
        }),
{
    if !signature_ok {
        return None;
    }
    match first_price {
        Some(p) => {
            if *p == *membership_price {
                Some(token)
            } else {
                None
            }
        },
        None => None,
    }
}

} // verus!
