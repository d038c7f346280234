//! What the checkout redirect is built from.
//!
//! The payment provider is an external collaborator: the HTTP call and
//! its credentials stay outside the engine. Here stand the values that
//! the call is made of — the success URL carrying the freshly drawn
//! member token, the order description, and the form fields — so that
//! what is sent is pinned down exactly.

use vstd::prelude::*;
use vstd::string::StringExecFns;

verus! {

/// The checkout session the payment provider answers with; the caller
/// is redirected to its URL.
pub struct SessionResponse {
    pub url: String,
}

/// The URL the buyer returns to after paying, which sets the token
/// cookie.
pub fn success_url(host: &str, token_text: &str) -> (r: String)
    ensures
        r@ == host@ + "/set?token="@ + token_text@,
{
    let mut r = String::from_str(host);
    r.append("/set?token=");
    r.append(token_text);
    r
}

/// The order description shown to the buyer, naming the token.
pub fn order_description(token_text: &str) -> (r: String)
    ensures
        r@ == "Your Human Token: "@ + token_text@,
{
    let mut r = String::from_str("Your Human Token: ");
    r.append(token_text);
    r
}

/// The form fields of a checkout session for one membership: a one-off
/// payment of one unit of the membership price, carrying the token in
/// the metadata and in the success URL.
pub fn checkout_fields(host: &str, membership_price: &str, token_text: &str) -> (r: Vec<
    (String, String),
>)
    ensures
        r@.len() == 6,
        r@[0].0@ == "mode"@ && r@[0].1@ == "payment"@,
        r@[1].0@ == "success_url"@ && r@[1].1@ == host@ + "/set?token="@ + token_text@,
        r@[2].0@ == "payment_intent_data[description]"@ && r@[2].1@ == "Your Human Token: "@
            + token_text@,
        r@[3].0@ == "line_items[0][price]"@ && r@[3].1@ == membership_price@,
        r@[4].0@ == "line_items[0][quantity]"@ && r@[4].1@ == "1"@,
        r@[5].0@ == "metadata[human_token]"@ && r@[5].1@ == token_text@,
{
    let mut r: Vec<(String, String)> = Vec::new();
    r.push((String::from_str("mode"), String::from_str("payment")));
    r.push((String::from_str("success_url"), success_url(host, token_text)));
    r.push((
        String::from_str("payment_intent_data[description]"),
        order_description(token_text),
    ));
    r.push((String::from_str("line_items[0][price]"), String::from_str(membership_price)));
    r.push((String::from_str("line_items[0][quantity]"), String::from_str("1")));
    r.push((String::from_str("metadata[human_token]"), String::from_str(token_text)));
    r
}

} // verus!
