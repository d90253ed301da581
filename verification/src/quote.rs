//! A single quote in the book: a signed contingent input together with the trading pair,
//! the range of base tokens it offers, the counter tokens it asks for, and its arrival time.

use vstd::prelude::*;
use vstd::arithmetic::div_mod::{lemma_div_is_ordered, lemma_div_by_multiple};
use vstd::arithmetic::mul::{lemma_mul_inequality, lemma_mul_is_commutative};
use crate::error::{
    Error, dec_str, missing_rules_message, no_outputs_message, change_token_mismatch_message,
    change_too_large_message, unsupported_outputs_message,
};
use crate::range::InclusiveRange;
use crate::sci::{RevealError, Sci, SciError, SciView};
use crate::types::{KeyImage, Pair, QuoteId, bytes32_order, lex_order, lemma_lex_order_zero, lemma_lex_order_transitive, lemma_lex_order_range};
use std::cmp::Ordering;

verus! {

/// A single "quote" in the book: an SCI and some auxiliary data.
#[derive(Debug, PartialEq)]
pub struct Quote {
    /// SCI
    sci: Sci,
    /// Unique identifier
    id: QuoteId,
    /// The pair being traded.
    pair: Pair,
    /// The range of base tokens offered by this quote.
    base_range: InclusiveRange,
    /// The number of counter tokens needed to trade the max amount of base tokens.
    max_counter_tokens: u64,
    /// Timestamp at which the quote arrived, in nanoseconds since the Epoch.
    timestamp: u64,
}

/// The value of a quote.
pub struct QuoteView {
    pub sci: SciView,
    pub id: QuoteId,
    pub pair: Pair,
    pub base_range: InclusiveRange,
    pub max_counter_tokens: u64,
    pub timestamp: u64,
}

impl View for Quote {
    type V = QuoteView;

    closed spec fn view(&self) -> QuoteView {
        QuoteView {
            sci: self.sci@,
            id: self.id,
            pair: self.pair,
            base_range: self.base_range,
            max_counter_tokens: self.max_counter_tokens,
            timestamp: self.timestamp,
        }
    }
}

/// The terms that an SCI offers: the pair, the range of base tokens, and the counter tokens
/// that the whole range costs.
#[derive(Clone, Copy, Debug, PartialEq, Eq, Structural)]
pub struct QuoteTerms {
    pub pair: Pair,
    pub base_min: u64,
    pub base_max: u64,
    pub max_counter_tokens: u64,
}

/// Why an SCI cannot become a quote.
#[derive(Clone, Copy, Debug, PartialEq, Eq, Structural)]
pub enum Rejection {
    /// The SCI failed validation.
    Invalid(SciError),
    /// The SCI has no input rules.
    MissingRules,
    /// The rules hold neither a required nor a partial-fill output.
    NoOutputs,
    /// The partial-fill output's amount could not be revealed.
    Reveal(RevealError),
    /// The required (change) output is in another token than the offered one
    /// (its token, the partial-fill output's token).
    ChangeTokenMismatch(u64, u64),
    /// The required (change) output exceeds the offered amount (offered, change).
    ChangeTooLarge(u64, u64),
    /// Another combination of required/partial-fill output counts.
    UnsupportedCounts(usize, usize),
    /// The base amount asked for lies outside the quote's range.
    InsufficientBaseTokens(u64),
}

impl SciView {
    /// The disclosed amounts agree in number with the required outputs whenever the SCI
    /// validated, as validation checks.
    pub open spec fn consistent(self) -> bool {
        self.validity is Ok ==> match self.input_rules {
            Some(rules) => self.required_output_amounts.len() == rules.required_outputs.len(),
            None => true,
        }
    }
}

/// What an SCI offers, or why it cannot be quoted.
pub open spec fn spec_terms(s: SciView) -> Result<QuoteTerms, Rejection> {
    if s.validity is Err {
        Err(Rejection::Invalid(s.validity->Err_0))
    } else {
        match s.input_rules {
            None => Err(Rejection::MissingRules),
            Some(rules) => {
                let nr = rules.required_outputs.len();
                let np = rules.partial_fill_outputs.len();
                let base_token_id = s.pseudo_output_amount.token_id;
                let offered = s.pseudo_output_amount.value;
                if nr == 0 && np == 0 {
                    Err(Rejection::NoOutputs)
                } else if nr == 1 && np == 0 {
                    let required = s.required_output_amounts[0];
                    Ok(QuoteTerms {
                        pair: Pair { base_token_id, counter_token_id: required.token_id },
                        base_min: offered,
                        base_max: offered,
                        max_counter_tokens: required.value,
                    })
                } else if nr <= 1 && np == 1 {
                    match rules.partial_fill_outputs[0].revealed_amount {
                        Err(e) => Err(Rejection::Reveal(e)),
                        Ok(amount) => {
                            if nr == 1 {
                                let change = s.required_output_amounts[0];
                                if change.token_id != base_token_id {
                                    Err(Rejection::ChangeTokenMismatch(change.token_id, amount.token_id))
                                } else if offered < change.value {
                                    Err(Rejection::ChangeTooLarge(offered, change.value))
                                } else {
                                    Ok(QuoteTerms {
                                        pair: Pair { base_token_id, counter_token_id: amount.token_id },
                                        base_min: rules.min_partial_fill_value,
                                        base_max: (offered - change.value) as u64,
                                        max_counter_tokens: amount.value,
                                    })
                                }
                            } else {
                                Ok(QuoteTerms {
                                    pair: Pair { base_token_id, counter_token_id: amount.token_id },
                                    base_min: rules.min_partial_fill_value,
                                    base_max: offered,
                                    max_counter_tokens: amount.value,
                                })
                            }
                        },
                    }
                } else {
                    Err(Rejection::UnsupportedCounts(nr as usize, np as usize))
                }
            },
        }
    }
}

/// The error that reports a rejection.
pub open spec fn reports<T>(r: Result<T, Error>, rej: Rejection) -> bool {
    match rej {
        Rejection::Invalid(e) => r matches Err(Error::Sci(x)) && x == e,
        Rejection::MissingRules => r matches Err(Error::UnsupportedSci(m)) && m@ == "Missing input rules"@,
        Rejection::NoOutputs => r matches Err(Error::UnsupportedSci(m)) && m@
            == "No required/partial outputs"@,
        Rejection::Reveal(e) => r matches Err(Error::RevealedTxOut(x)) && x == e,
        Rejection::ChangeTokenMismatch(a, b) => r matches Err(Error::UnsupportedSci(m)) && m@
            == "Suspected required-change-output token id "@ + dec_str(a as nat)
            + " does not match partial output token id "@ + dec_str(b as nat),
        Rejection::ChangeTooLarge(a, b) => r matches Err(Error::UnsupportedSci(m)) && m@
            == "max base amount "@ + dec_str(a as nat) + " is lower than required change "@
            + dec_str(b as nat),
        Rejection::UnsupportedCounts(a, b) => r matches Err(Error::UnsupportedSci(m)) && m@
            == "Unsupported number of required/partial outputs "@ + dec_str(a as nat) + "/"@
            + dec_str(b as nat),
        Rejection::InsufficientBaseTokens(b) => r matches Err(Error::InsufficientBaseTokens(x)) && x
            == b,
    }
}

/// The quote that an SCI with the given terms becomes at a timestamp.
pub open spec fn quote_of(s: SciView, t: QuoteTerms, timestamp: u64) -> QuoteView {
    QuoteView {
        sci: s,
        id: QuoteId(s.digest),
        pair: t.pair,
        base_range: InclusiveRange { start: t.base_min, end: t.base_max },
        max_counter_tokens: t.max_counter_tokens,
        timestamp,
    }
}

/// What `Quote::new` yields for an SCI at a given timestamp.
pub open spec fn new_outcome(s: SciView, timestamp: u64, r: Result<Quote, Error>) -> bool {
    match spec_terms(s) {
        Ok(t) => r is Ok && r->Ok_0@ == quote_of(s, t, timestamp),
        Err(rej) => reports(r, rej),
    }
}

/// The shapes of input rules that become quotes. A quote comes only from a valid SCI with
/// input rules holding either one required output and no partial-fill output (a fixed quote:
/// exactly the offered amount, for the required output's amount of its token), or exactly one
/// partial-fill output and at most one required (change) output (a partial-fill quote from the
/// minimum fill value, priced by the partial-fill output's revealed amount). A valid SCI whose
/// rules hold more than one required or more than one partial-fill output is rejected as
/// unsupported, naming both counts.
pub proof fn lemma_quote_output_shapes(s: SciView, timestamp: u64, r: Result<Quote, Error>)
    requires
        new_outcome(s, timestamp, r),
    ensures
        r is Ok ==> s.validity is Ok && s.input_rules is Some,
        s.input_rules matches Some(rules) ==> (r is Ok ==> (rules.required_outputs.len() == 1
            && rules.partial_fill_outputs.len() == 0) || (rules.required_outputs.len() <= 1
            && rules.partial_fill_outputs.len() == 1)),
        s.input_rules matches Some(rules) ==> (r is Ok && rules.partial_fill_outputs.len() == 0
            ==> r->Ok_0@.base_range.start == s.pseudo_output_amount.value
            && r->Ok_0@.base_range.end == s.pseudo_output_amount.value
            && r->Ok_0@.pair.counter_token_id == s.required_output_amounts[0].token_id
            && r->Ok_0@.max_counter_tokens == s.required_output_amounts[0].value),
        s.input_rules matches Some(rules) ==> (r is Ok && rules.partial_fill_outputs.len() == 1
            ==> rules.partial_fill_outputs[0].revealed_amount is Ok
            && r->Ok_0@.pair.counter_token_id
            == rules.partial_fill_outputs[0].revealed_amount->Ok_0.token_id
            && r->Ok_0@.max_counter_tokens
            == rules.partial_fill_outputs[0].revealed_amount->Ok_0.value
            && r->Ok_0@.base_range.start == rules.min_partial_fill_value),
        s.input_rules matches Some(rules) ==> (r is Ok && rules.partial_fill_outputs.len() == 1
            && rules.required_outputs.len() == 0 ==> r->Ok_0@.base_range.end
            == s.pseudo_output_amount.value),
        s.input_rules matches Some(rules) ==> (r is Ok && rules.partial_fill_outputs.len() == 1
            && rules.required_outputs.len() == 1 ==> s.required_output_amounts[0].token_id
            == s.pseudo_output_amount.token_id && r->Ok_0@.base_range.end
            + s.required_output_amounts[0].value == s.pseudo_output_amount.value),
        s.input_rules matches Some(rules) ==> (s.validity is Ok && (rules.required_outputs.len() > 1
            || rules.partial_fill_outputs.len() > 1) ==> reports(
            r,
            Rejection::UnsupportedCounts(
                rules.required_outputs.len() as usize,
                rules.partial_fill_outputs.len() as usize,
            ),
        )),
        r is Ok ==> r->Ok_0@.sci == s && r->Ok_0@.timestamp == timestamp
            && r->Ok_0@.pair.base_token_id == s.pseudo_output_amount.token_id,
{
}

/// The system clock's reading, `std::time::SystemTime`: opaque here, carried from the
/// clock to the epoch subtraction.
#[verifier::external_type_specification]
#[verifier::external_body]
pub struct ExSystemTime(std::time::SystemTime);

/// Reads the system clock (`SystemTime::now`). Nothing is stated of the reading: it
/// depends on the time.
#[verifier::external_body]
fn system_time_now() -> (r: std::time::SystemTime) {
    std::time::SystemTime::now()
}

/// How long after the Unix epoch `t` lies (`SystemTime::duration_since(UNIX_EPOCH)`), or
/// `None` when `t` is earlier than the epoch. Nothing more is stated: the reading is opaque.
#[verifier::external_body]
fn since_unix_epoch(t: &std::time::SystemTime) -> (r: Option<core::time::Duration>) {
    match t.duration_since(std::time::UNIX_EPOCH) {
        Ok(d) => Some(d),
        Err(_) => None,
    }
}

/// The whole number of nanoseconds in `d` (`Duration::as_nanos`). Nothing is stated of
/// it: a `Duration` is opaque here.
#[verifier::external_body]
fn duration_nanos(d: &core::time::Duration) -> (r: u128) {
    d.as_nanos()
}

/// Lemma: a quote's cost never exceeds the counter amount of the whole input.
proof fn lemma_scaled_le(a: u64, base: u64, offered: u64)
    requires
        base <= offered,
        offered > 0,
    ensures
        (a as int * base as int) / (offered as int) <= a,
        (a as int * base as int) / (offered as int) >= 0,
{
    lemma_mul_inequality(base as int, offered as int, a as int);
    lemma_mul_is_commutative(base as int, a as int);
    lemma_mul_is_commutative(offered as int, a as int);
    lemma_div_is_ordered(a as int * base as int, a as int * offered as int, offered as int);
    lemma_div_by_multiple(a as int, offered as int);
    assert(0 <= a as int * base as int) by (nonlinear_arith);
    vstd::arithmetic::div_mod::lemma_div_pos_is_pos(a as int * base as int, offered as int);
}

/// The counter tokens that taking `base` base tokens costs: `value * base / offered`,
/// rounded down.
fn scaled_cost(value: u64, base: u64, offered: u64) -> (r: u64)
    requires
        base <= offered,
        offered > 0,
    ensures
        r as int == (value as int * base as int) / (offered as int),
{
    proof {
        lemma_scaled_le(value, base, offered);
    }
    assert(value as int * base as int <= u64::MAX as int * u64::MAX as int) by (nonlinear_arith)
        requires
            value <= u64::MAX,
            base <= u64::MAX,
    ;
    let num: u128 = value as u128 * base as u128;
    let q: u128 = num / (offered as u128);
    q as u64
}

/// Whether the cost of `base` base tokens is defined: a quote's cost asserts the bounds that
/// quotes built by `Quote::new` satisfy, and divides by the offered amount.
pub open spec fn cost_defined(q: QuoteView, base: u64) -> bool {
    !q.base_range.spec_contains(base as int) || match q.sci.input_rules {
        None => true,
        Some(rules) => {
            let nr = rules.required_outputs.len();
            let np = rules.partial_fill_outputs.len();
            let offered = q.sci.pseudo_output_amount.value;
            if nr == 1 && np == 0 {
                q.sci.required_output_amounts.len() >= 1 && base == offered
            } else if nr <= 1 && np == 1 {
                &&& base >= rules.min_partial_fill_value
                &&& nr == 1 ==> (q.sci.required_output_amounts.len() >= 1
                    && offered > q.sci.required_output_amounts[0].value)
                &&& base <= (if nr == 1 {
                    offered - q.sci.required_output_amounts[0].value
                } else {
                    offered as int
                })
                &&& rules.partial_fill_outputs[0].revealed_amount is Ok ==> offered > 0
            } else {
                true
            }
        },
    }
}

/// The counter tokens that taking `base` base tokens from a quote costs, or why it cannot.
pub open spec fn spec_cost(q: QuoteView, base: u64) -> Result<u64, Rejection> {
    if !q.base_range.spec_contains(base as int) {
        Err(Rejection::InsufficientBaseTokens(base))
    } else {
        match q.sci.input_rules {
            None => Err(Rejection::MissingRules),
            Some(rules) => {
                let nr = rules.required_outputs.len();
                let np = rules.partial_fill_outputs.len();
                if nr == 0 && np == 0 {
                    Err(Rejection::NoOutputs)
                } else if nr == 1 && np == 0 {
                    Ok(q.sci.required_output_amounts[0].value)
                } else if nr <= 1 && np == 1 {
                    match rules.partial_fill_outputs[0].revealed_amount {
                        Err(e) => Err(Rejection::Reveal(e)),
                        Ok(amount) => Ok(
                            ((amount.value as int * base as int) / (
                            q.sci.pseudo_output_amount.value as int)) as u64,
                        ),
                    }
                } else {
                    Err(Rejection::UnsupportedCounts(nr as usize, np as usize))
                }
            },
        }
    }
}

/// The sign of `x - y`.
pub open spec fn sign(x: int, y: int) -> int {
    if x < y {
        -1
    } else if x > y {
        1
    } else {
        0
    }
}

/// The order of quotes: by pair, then by exchange rate (more base tokens per counter token
/// first), then by timestamp (older first), then by id.
pub open spec fn quote_order(a: QuoteView, b: QuoteView) -> int {
    let c1 = sign(a.pair.base_token_id as int, b.pair.base_token_id as int);
    let c2 = sign(a.pair.counter_token_id as int, b.pair.counter_token_id as int);
    let c3 = sign(
        b.base_range.end as int * a.max_counter_tokens as int,
        a.base_range.end as int * b.max_counter_tokens as int,
    );
    let c4 = sign(a.timestamp as int, b.timestamp as int);
    if c1 != 0 {
        c1
    } else if c2 != 0 {
        c2
    } else if c3 != 0 {
        c3
    } else if c4 != 0 {
        c4
    } else {
        crate::types::lex_order(a.id.bytes(), b.id.bytes())
    }
}

/// The order of two quotes is -1, 0 or 1.
pub proof fn lemma_quote_order_range(a: QuoteView, b: QuoteView)
    ensures
        -1 <= quote_order(a, b) <= 1,
{
    lemma_lex_order_range(a.id.bytes(), b.id.bytes());
}

/// Every quote is equal to itself in the order.
pub proof fn lemma_quote_order_reflexive(a: QuoteView)
    ensures
        quote_order(a, a) == 0,
{
    lemma_lex_order_zero(a.id.bytes(), a.id.bytes());
}

/// Swapping two quotes negates their order.
pub proof fn lemma_quote_order_antisymmetric(a: QuoteView, b: QuoteView)
    ensures
        quote_order(a, b) == -quote_order(b, a),
        quote_order(a, b) == 0 ==> a.pair == b.pair && a.timestamp == b.timestamp && a.id == b.id,
{
    lemma_lex_order_zero(a.id.bytes(), b.id.bytes());
    if a.id.bytes() == b.id.bytes() {
        assert(a.id.0 == b.id.0);
    }
}

/// Rate comparisons chain when the middle quote offers a positive number of base tokens.
proof fn lemma_rates_chain(ae: int, am: int, be: int, bm: int, ce: int, cm: int)
    requires
        ae > 0,
        be > 0,
        ce > 0,
        am >= 0,
        bm >= 0,
        cm >= 0,
        be * am <= ae * bm,
        ce * bm <= be * cm,
    ensures
        ce * am <= ae * cm,
        (be * am < ae * bm || ce * bm < be * cm) ==> ce * am < ae * cm,
{
    assert(be * (ce * am) == ce * (be * am)) by (nonlinear_arith);
    assert(ce * (be * am) <= ce * (ae * bm)) by (nonlinear_arith)
        requires
            be * am <= ae * bm,
            ce > 0,
    ;
    assert(ce * (ae * bm) == ae * (ce * bm)) by (nonlinear_arith);
    assert(ae * (ce * bm) <= ae * (be * cm)) by (nonlinear_arith)
        requires
            ce * bm <= be * cm,
            ae > 0,
    ;
    assert(ae * (be * cm) == be * (ae * cm)) by (nonlinear_arith);
    assert(be * (ce * am) <= be * (ae * cm));
    assert(ce * am <= ae * cm) by (nonlinear_arith)
        requires
            be * (ce * am) <= be * (ae * cm),
            be > 0,
    ;
    if be * am < ae * bm {
        assert(ce * (be * am) < ce * (ae * bm)) by (nonlinear_arith)
            requires
                be * am < ae * bm,
                ce > 0,
        ;
        assert(be * (ce * am) < be * (ae * cm));
        assert(ce * am < ae * cm) by (nonlinear_arith)
            requires
                be * (ce * am) < be * (ae * cm),
                be > 0,
        ;
    }
    if ce * bm < be * cm {
        assert(ae * (ce * bm) < ae * (be * cm)) by (nonlinear_arith)
            requires
                ce * bm < be * cm,
                ae > 0,
        ;
        assert(be * (ce * am) < be * (ae * cm));
        assert(ce * am < ae * cm) by (nonlinear_arith)
            requires
                be * (ce * am) < be * (ae * cm),
                be > 0,
        ;
    }
}

/// The order of quotes that offer a positive number of base tokens is transitive.
pub proof fn lemma_quote_order_transitive(a: QuoteView, b: QuoteView, c: QuoteView)
    requires
        a.base_range.end > 0,
        b.base_range.end > 0,
        c.base_range.end > 0,
        quote_order(a, b) <= 0,
        quote_order(b, c) <= 0,
    ensures
        quote_order(a, c) <= 0,
        quote_order(a, b) < 0 || quote_order(b, c) < 0 ==> quote_order(a, c) < 0,
{
    lemma_lex_order_zero(a.id.bytes(), b.id.bytes());
    lemma_lex_order_zero(b.id.bytes(), c.id.bytes());
    lemma_lex_order_zero(a.id.bytes(), c.id.bytes());
    let ae = a.base_range.end as int;
    let be = b.base_range.end as int;
    let ce = c.base_range.end as int;
    let am = a.max_counter_tokens as int;
    let bm = b.max_counter_tokens as int;
    let cm = c.max_counter_tokens as int;
    if a.pair == b.pair && b.pair == c.pair {
        if be * am <= ae * bm && ce * bm <= be * cm {
            lemma_rates_chain(ae, am, be, bm, ce, cm);
            if be * am == ae * bm && ce * bm == be * cm {
                assert(ce * am == ae * cm) by {
                    lemma_rates_chain(ae, am, be, bm, ce, cm);
                    lemma_rates_chain(ce, cm, be, bm, ae, am);
                }
                if a.timestamp == b.timestamp && b.timestamp == c.timestamp {
                    lemma_lex_order_transitive(a.id.bytes(), b.id.bytes(), c.id.bytes());
                }
            }
        }
    }
}

/// A quote built from an SCI whose maximum base amount is positive can be costed at any
/// base amount without tripping the cost computation's assertions.
pub proof fn lemma_new_quote_cost_defined(s: SciView, timestamp: u64, base: u64)
    requires
        s.consistent(),
        spec_terms(s) is Ok,
        spec_terms(s)->Ok_0.base_max > 0,
    ensures
        cost_defined(quote_of(s, spec_terms(s)->Ok_0, timestamp), base),
{
}

/// For a quote built from an SCI, taking any amount of base tokens never costs more than
/// the quote's maximum counter tokens.
pub proof fn lemma_cost_at_most_max_counter(s: SciView, timestamp: u64, base: u64)
    requires
        s.consistent(),
        spec_terms(s) is Ok,
        cost_defined(quote_of(s, spec_terms(s)->Ok_0, timestamp), base),
        spec_cost(quote_of(s, spec_terms(s)->Ok_0, timestamp), base) is Ok,
    ensures
        spec_cost(quote_of(s, spec_terms(s)->Ok_0, timestamp), base)->Ok_0 <= spec_terms(
            s,
        )->Ok_0.max_counter_tokens,
{
    let q = quote_of(s, spec_terms(s)->Ok_0, timestamp);
    let rules = s.input_rules->Some_0;
    if rules.partial_fill_outputs.len() == 1 {
        let amount = rules.partial_fill_outputs[0].revealed_amount->Ok_0;
        let offered = s.pseudo_output_amount.value;
        assert(base <= offered);
        lemma_scaled_le(amount.value, base, offered);
    }
}

/// Taking more base tokens from a quote never costs fewer counter tokens.
pub proof fn lemma_cost_monotone(q: QuoteView, b1: u64, b2: u64)
    requires
        b1 <= b2,
        cost_defined(q, b1),
        cost_defined(q, b2),
        spec_cost(q, b1) is Ok,
        spec_cost(q, b2) is Ok,
    ensures
        spec_cost(q, b1)->Ok_0 <= spec_cost(q, b2)->Ok_0,
{
    let rules = q.sci.input_rules->Some_0;
    if rules.partial_fill_outputs.len() == 1 && rules.required_outputs.len() <= 1 {
        let amount = rules.partial_fill_outputs[0].revealed_amount->Ok_0;
        let offered = q.sci.pseudo_output_amount.value;
        lemma_scaled_le(amount.value, b1, offered);
        lemma_scaled_le(amount.value, b2, offered);
        lemma_mul_inequality(b1 as int, b2 as int, amount.value as int);
        lemma_mul_is_commutative(b1 as int, amount.value as int);
        lemma_mul_is_commutative(b2 as int, amount.value as int);
        lemma_div_is_ordered(
            amount.value as int * b1 as int,
            amount.value as int * b2 as int,
            offered as int,
        );
    }
}

impl Clone for Quote {
    fn clone(&self) -> (r: Self)
        ensures
            r@ == self@,
    {
        Quote {
            sci: self.sci.clone(),
            id: self.id,
            pair: self.pair,
            base_range: self.base_range,
            max_counter_tokens: self.max_counter_tokens,
            timestamp: self.timestamp,
        }
    }
}

impl Quote {
    /// Create a new quote from an SCI and a timestamp (nanoseconds since the epoch; the
    /// system time when not given). The SCI must validate, carry input rules, and hold a
    /// single required output, a single partial-fill output, or a partial-fill output with a
    /// change output in the offered token.
    pub fn new(sci: Sci, timestamp: Option<u64>) -> (r: Result<Quote, Error>)
        requires
            sci@.consistent(),
        ensures
            timestamp is Some ==> new_outcome(sci@, timestamp->0, r),
            timestamp is None ==> (r matches Err(Error::Time) || exists|ts: u64|
                new_outcome(sci@, ts, r)),
            r is Ok ==> (sci@.input_rules matches Some(rules) && ((rules.required_outputs.len()
                == 1 && rules.partial_fill_outputs.len() == 0) || (rules.required_outputs.len()
                <= 1 && rules.partial_fill_outputs.len() == 1))),
            sci@.input_rules matches Some(rules) ==> (sci@.validity is Ok
                && (rules.required_outputs.len() > 1 || rules.partial_fill_outputs.len() > 1)
                ==> r is Err),
    {
        let timestamp = match timestamp {
            Some(ts) => ts,
            None => {
                let now = system_time_now();
                match since_unix_epoch(&now) {
                    Some(elapsed) => {
                        let nanos = duration_nanos(&elapsed);
                        if nanos > 0xFFFF_FFFF_FFFF_FFFFu128 {
                            return Err(Error::Time);
                        }
                        nanos as u64
                    },
                    None => {
                        return Err(Error::Time);
                    },
                }
            },
        };
        let ghost s = sci@;
        let r = Self::new_at(sci, timestamp);
        assert(new_outcome(s, timestamp, r));
        proof {
            lemma_quote_output_shapes(s, timestamp, r);
        }
        r
    }

    /// A quote from an SCI at a given timestamp.
    fn new_at(sci: Sci, timestamp: u64) -> (r: Result<Quote, Error>)
        requires
            sci@.consistent(),
        ensures
            new_outcome(sci@, timestamp, r),
    {
        let ghost s = sci@;
        match sci.validate() {
            Err(e) => {
                return Err(Error::Sci(e));
            },
            Ok(()) => {},
        }
        let base_token_id = sci.pseudo_output_amount.token_id;
        let offered = sci.pseudo_output_amount.value;
        let (counter_token_id, base_min, base_max, max_counter_tokens) = match &sci.input_rules {
            None => {
                return Err(Error::UnsupportedSci(missing_rules_message()));
            },
            Some(rules) => {
                let nr = rules.required_outputs.len();
                let np = rules.partial_fill_outputs.len();
                if nr == 0 && np == 0 {
                    return Err(Error::UnsupportedSci(no_outputs_message()));
                } else if nr == 1 && np == 0 {
                    let required = sci.required_output_amounts[0];
                    (required.token_id, offered, offered, required.value)
                } else if nr <= 1 && np == 1 {
                    let amount = match rules.partial_fill_outputs[0].reveal_amount() {
                        Ok(amount) => amount,
                        Err(e) => {
                            return Err(Error::RevealedTxOut(e));
                        },
                    };
                    let min_base_amount = rules.min_partial_fill_value;
                    let mut max_base_amount = offered;
                    if nr == 1 {
                        let change = sci.required_output_amounts[0];
                        if change.token_id != base_token_id {
                            return Err(
                                Error::UnsupportedSci(
                                    change_token_mismatch_message(change.token_id, amount.token_id),
                                ),
                            );
                        }
                        match max_base_amount.checked_sub(change.value) {
                            Some(v) => {
                                max_base_amount = v;
                            },
                            None => {
                                return Err(
                                    Error::UnsupportedSci(
                                        change_too_large_message(max_base_amount, change.value),
                                    ),
                                );
                            },
                        }
                    }
                    (amount.token_id, min_base_amount, max_base_amount, amount.value)
                } else {
                    return Err(Error::UnsupportedSci(unsupported_outputs_message(nr, np)));
                }
            },
        };
        let id = QuoteId(sci.digest);
        let pair = Pair { base_token_id, counter_token_id };
        let q = Quote {
            sci,
            id,
            pair,
            base_range: InclusiveRange { start: base_min, end: base_max },
            max_counter_tokens,
            timestamp,
        };
        assert(q@ == quote_of(s, spec_terms(s)->Ok_0, timestamp));
        Ok(q)
    }

    /// Create a new quote by specifying the exact value for each field.
    pub fn new_from_fields(
        sci: Sci,
        id: QuoteId,
        pair: Pair,
        base_range: InclusiveRange,
        max_counter_tokens: u64,
        timestamp: u64,
    ) -> (r: Self)
        ensures
            r@ == (QuoteView {
                sci: sci@,
                id,
                pair,
                base_range,
                max_counter_tokens,
                timestamp,
            }),
    {
        Quote { sci, id, pair, base_range, max_counter_tokens, timestamp }
    }

    /// Get underlying SCI.
    pub fn sci(&self) -> (r: &Sci)
        ensures
            r@ == self@.sci,
    {
        &self.sci
    }

    /// Get unique identifier.
    pub fn id(&self) -> (r: &QuoteId)
        ensures
            *r == self@.id,
    {
        &self.id
    }

    /// Get the pair being traded by this quote.
    pub fn pair(&self) -> (r: &Pair)
        ensures
            *r == self@.pair,
    {
        &self.pair
    }

    /// Get the range of base tokens offered by this quote.
    pub fn base_range(&self) -> (r: &InclusiveRange)
        ensures
            *r == self@.base_range,
    {
        &self.base_range
    }

    /// Get the maximum amount of base tokens that can be provided by this quote.
    pub fn max_base_tokens(&self) -> (r: u64)
        ensures
            r == self@.base_range.end,
    {
        self.base_range.end
    }

    /// Get the maximum amount of counter tokens required to use all the available base
    /// tokens.
    pub fn max_counter_tokens(&self) -> (r: u64)
        ensures
            r == self@.max_counter_tokens,
    {
        self.max_counter_tokens
    }

    /// Get timestamp.
    pub fn timestamp(&self) -> (r: u64)
        ensures
            r == self@.timestamp,
    {
        self.timestamp
    }

    /// The key image of the quote's SCI.
    pub fn key_image(&self) -> (r: KeyImage)
        ensures
            r == self@.sci.key_image,
    {
        self.sci.key_image
    }

    /// The SCI's maximum tombstone block, when it has input rules.
    pub fn max_tombstone_block(&self) -> (r: Option<u64>)
        ensures
            r == (match self@.sci.input_rules {
                Some(rules) => Some(rules.max_tombstone_block),
                None => None::<u64>,
            }),
    {
        self.sci.max_tombstone_block()
    }

    /// The two cross products that compare exchange rates: the other quote's base tokens
    /// times this quote's counter tokens, and this quote's base tokens times the other's
    /// counter tokens.
    fn rate_products(&self, other: &Quote) -> (r: (u128, u128))
        ensures
            r.0 == other@.base_range.end as int * self@.max_counter_tokens as int,
            r.1 == self@.base_range.end as int * other@.max_counter_tokens as int,
    {
        let a: u64 = other.base_range.end;
        let b: u64 = self.max_counter_tokens;
        let c: u64 = self.base_range.end;
        let d: u64 = other.max_counter_tokens;
        assert(a as int * b as int <= u64::MAX as int * u64::MAX as int) by (nonlinear_arith)
            requires
                a <= u64::MAX,
                b <= u64::MAX,
        ;
        assert(c as int * d as int <= u64::MAX as int * u64::MAX as int) by (nonlinear_arith)
            requires
                c <= u64::MAX,
                d <= u64::MAX,
        ;
        (a as u128 * b as u128, c as u128 * d as u128)
    }

    /// Compares two quotes: by pair, then by exchange rate (quotes giving more base tokens
    /// per counter token first), then by timestamp (older first), then by id.
    pub fn compare(&self, other: &Quote) -> (r: Ordering)
        ensures
            (r == Ordering::Less) == (quote_order(self@, other@) == -1),
            (r == Ordering::Equal) == (quote_order(self@, other@) == 0),
            (r == Ordering::Greater) == (quote_order(self@, other@) == 1),
    {
        if self.pair.base_token_id < other.pair.base_token_id {
            return Ordering::Less;
        }
        if self.pair.base_token_id > other.pair.base_token_id {
            return Ordering::Greater;
        }
        if self.pair.counter_token_id < other.pair.counter_token_id {
            return Ordering::Less;
        }
        if self.pair.counter_token_id > other.pair.counter_token_id {
            return Ordering::Greater;
        }
        let (self_rate, other_rate) = self.rate_products(other);
        if self_rate < other_rate {
            return Ordering::Less;
        }
        if self_rate > other_rate {
            return Ordering::Greater;
        }
        if self.timestamp < other.timestamp {
            return Ordering::Less;
        }
        if self.timestamp > other.timestamp {
            return Ordering::Greater;
        }
        let c = bytes32_order(&self.id.0, &other.id.0);
        proof {
            lemma_lex_order_range(self@.id.bytes(), other@.id.bytes());
        }
        if c < 0 {
            Ordering::Less
        } else if c > 0 {
            Ordering::Greater
        } else {
            Ordering::Equal
        }
    }

    /// Whether this quote ranks strictly before `other` in the quote order.
    pub fn precedes(&self, other: &Quote) -> (r: bool)
        ensures
            r == (quote_order(self@, other@) == -1),
    {
        match self.compare(other) {
            Ordering::Less => true,
            _ => false,
        }
    }

    /// Get the number of counter tokens needed to receive `base_tokens` from this quote.
    pub fn counter_tokens_cost(&self, base_tokens: u64) -> (r: Result<u64, Error>)
        requires
            cost_defined(self@, base_tokens),
        ensures
            match spec_cost(self@, base_tokens) {
                Ok(c) => r == Ok::<u64, Error>(c),
                Err(rej) => reports(r, rej),
            },
    {
        if !self.base_range.contains(base_tokens) {
            return Err(Error::InsufficientBaseTokens(base_tokens));
        }
        let rules = match &self.sci.input_rules {
            Some(rules) => rules,
            None => {
                return Err(Error::UnsupportedSci(missing_rules_message()));
            },
        };
        let nr = rules.required_outputs.len();
        let np = rules.partial_fill_outputs.len();
        if nr == 0 && np == 0 {
            Err(Error::UnsupportedSci(no_outputs_message()))
        } else if nr == 1 && np == 0 {
            Ok(self.sci.required_output_amounts[0].value)
        } else if nr <= 1 && np == 1 {
            let offered = self.sci.pseudo_output_amount.value;
            match rules.partial_fill_outputs[0].reveal_amount() {
                Err(e) => Err(Error::RevealedTxOut(e)),
                Ok(amount) => Ok(scaled_cost(amount.value, base_tokens, offered)),
            }
        } else {
            Err(Error::UnsupportedSci(unsupported_outputs_message(nr, np)))
        }
    }
}

} // verus!
