//! Errors of the quote book, and the messages it attaches to unsupported SCIs.

use vstd::prelude::*;
use crate::quote::Quote;
use crate::sci::{RevealError, SciError};

verus! {

/// Type for common quote book errors.
#[derive(Debug, PartialEq)]
pub enum Error {
    /// SCI: {0}
    Sci(SciError),
    /// Unsupported SCI: {0}
    UnsupportedSci(String),
    /// Quote already exists in book
    QuoteAlreadyExists { existing_quote: Box<Quote> },
    /// Quote not found
    QuoteNotFound,
    /// Quote has a spent key image or is past its tombstone block
    QuoteIsStale,
    /// Quote cannot fulfill the desired amount ({0}) of base tokens
    InsufficientBaseTokens(u64),
    /// Implementation specific error: {0}
    ImplementationSpecific(String),
    /// RevealedTxOut: {0}
    RevealedTxOut(RevealError),
    /// Lock poisoned
    LockPoisoned,
    /// Time conversion error
    Time,
}

/// The decimal digits of a natural number, most significant first.
pub open spec fn dec_str(n: nat) -> Seq<char>
    decreases n,
{
    if n < 10 {
        seq![(48 + n) as char]
    } else {
        dec_str(n / 10).push((48 + n % 10) as char)
    }
}

/// Message for an SCI without input rules.
pub fn missing_rules_message() -> (r: String)
    ensures
        r@ == "Missing input rules"@,
{
    "Missing input rules".to_owned()
}

/// Message for an SCI whose rules hold neither a required nor a partial-fill output.
pub fn no_outputs_message() -> (r: String)
    ensures
        r@ == "No required/partial outputs"@,
{
    "No required/partial outputs".to_owned()
}

/// Renders the message for a required output whose token differs from the offered token;
/// `{}` in `format!` writes an unsigned integer in decimal.
#[verifier::external_body]
pub fn change_token_mismatch_message(change_token_id: u64, partial_token_id: u64) -> (r: String)
    ensures
        r@ == "Suspected required-change-output token id "@ + dec_str(change_token_id as nat)
            + " does not match partial output token id "@ + dec_str(partial_token_id as nat),
{
    format!(
        "Suspected required-change-output token id {} does not match partial output token id {}",
        change_token_id, partial_token_id
    )
}

/// Renders the message for a change output larger than the offered amount; `{}` in
/// `format!` writes an unsigned integer in decimal.
#[verifier::external_body]
pub fn change_too_large_message(max_base_amount: u64, change: u64) -> (r: String)
    ensures
        r@ == "max base amount "@ + dec_str(max_base_amount as nat) + " is lower than required change "@
            + dec_str(change as nat),
{
    format!("max base amount {} is lower than required change {}", max_base_amount, change)
}

/// Renders the message for an unsupported number of outputs; `{}` in `format!` writes an
/// unsigned integer in decimal.
#[verifier::external_body]
pub fn unsupported_outputs_message(num_required: usize, num_partial: usize) -> (r: String)
    ensures
        r@ == "Unsupported number of required/partial outputs "@ + dec_str(num_required as nat) + "/"@
            + dec_str(num_partial as nat),
{
    format!("Unsupported number of required/partial outputs {}/{}", num_required, num_partial)
}

} // verus!
