//! The liquidity bot's decisions. The bot offers the outputs that its wallet receives at a
//! configured swap rate: for each output of a configured base token it wants an SCI asking for
//! the output's value times the rate in counter tokens, submits the SCIs it has not listed
//! yet, keeps the quotes the service accepted, and resubmits each listed quote once it was last
//! submitted more than ten seconds ago. Building and signing the SCIs and talking to the
//! service are done by the caller, which hands the results back here.

use vstd::prelude::*;
use std::collections::HashMap;
use crate::api::{
    ApiQuoteView, ConversionError, QuoteStatusCode, SubmitQuotesResponse, describes,
    quote_from_api,
};
use crate::error::dec_str;
use crate::quote::{Quote, QuoteView};
use crate::sci::{Sci, SciView, sci_equal};
use crate::seq_filter::{keep_if, lemma_keep_if_members, lemma_keep_if_step, lemma_take_all};
use crate::types::{Amount, TokenId};
use crate::wallet::MatchedTxOut;

verus! {

broadcast use vstd::std_specs::hash::group_hash_axioms;

/// The number of outputs in the ring of an SCI the bot builds.
pub const RING_SIZE: usize = 11;

/// How long a listed quote stays untouched before it is resubmitted, in milliseconds.
pub const RESUBMIT_AFTER_MILLIS: u64 = 10000;

/// The largest magnitude of a decimal's mantissa: 96 bits.
pub open spec fn max_mantissa() -> int {
    0xFFFF_FFFF_FFFF_FFFF_FFFF_FFFF
}

/// Ten to the power `n`.
pub open spec fn pow10(n: nat) -> nat
    decreases n,
{
    if n == 0 {
        1
    } else {
        10 * pow10((n - 1) as nat)
    }
}

/// The magnitude of an integer.
pub open spec fn magnitude(x: int) -> int {
    if x < 0 {
        -x
    } else {
        x
    }
}

/// A swap rate: `mantissa / 10^scale` counter tokens for one base token.
#[derive(Clone, Copy, Debug, PartialEq, Eq, Structural)]
pub struct SwapRate {
    pub mantissa: i128,
    pub scale: u32,
}

impl SwapRate {
    /// Whether the rate is a decimal that `rust_decimal` can hold: a 96-bit mantissa and at
    /// most 28 digits after the point.
    pub open spec fn valid(self) -> bool {
        &&& self.scale <= 28
        &&& -max_mantissa() <= self.mantissa <= max_mantissa()
    }
}

/// What `rust_decimal` gives for `Decimal::from(value)` times the decimal
/// `mantissa / 10^scale`, turned into a `u64`: `None` when the multiplication overflows,
/// `Some(None)` when the product is negative or too large for a `u64`.
pub uninterp spec fn decimal_product_u64(value: u64, mantissa: i128, scale: u32) -> Option<Option<u64>>;

/// The decimal digits of a natural number, most significant first; none for zero.
pub open spec fn digits_of(n: nat) -> Seq<char> {
    if n == 0 {
        Seq::empty()
    } else {
        dec_str(n)
    }
}

/// `s` with zeros in front, up to at least `width` characters.
pub open spec fn zero_padded(s: Seq<char>, width: nat) -> Seq<char> {
    if s.len() >= width {
        s
    } else {
        Seq::new((width - s.len()) as nat, |i: int| '0') + s
    }
}

/// The text that `rust_decimal`'s `Display` writes, with no precision given, for the decimal
/// `mantissa / 10^scale`: a minus sign when the mantissa is negative, then the digits of its
/// magnitude, padded with zeros to at least `scale` digits, with a point before the last
/// `scale` of them (and a zero before the point when nothing else is); all `scale` digits
/// after the point are kept, and zero with no scale is `0`.
pub open spec fn decimal_text(mantissa: i128, scale: u32) -> Seq<char> {
    let digits = zero_padded(digits_of(magnitude(mantissa as int) as nat), scale as nat);
    let whole = digits.take(digits.len() - scale);
    let body = if scale == 0 {
        if digits.len() == 0 {
            seq!['0']
        } else {
            digits
        }
    } else {
        (if whole.len() == 0 {
            seq!['0']
        } else {
            whole
        }) + seq!['.'] + digits.skip(digits.len() - scale)
    };
    if mantissa < 0 {
        seq!['-'] + body
    } else {
        body
    }
}

/// The `u64` that an exact product `value * mantissa / 10^scale` truncates to, if it is not
/// negative and fits.
pub open spec fn exact_product_u64(value: u64, mantissa: i128, scale: u32) -> Option<u64> {
    let p = value * mantissa;
    if p < 0 {
        None
    } else if p / (pow10(scale as nat) as int) > u64::MAX {
        None
    } else {
        Some((p / (pow10(scale as nat) as int)) as u64)
    }
}

/// Multiplies with `rust_decimal`: `Decimal::from(value)` times
/// `Decimal::from_i128_with_scale(mantissa, scale)` through `checked_mul`, which runs the
/// multiplication of `*` and gives `None` exactly where `*` panics; the product is converted
/// with `to_u64`, which gives `None` for a negative product and truncates the fraction of a
/// positive one. When the exact product fits in 96 bits the multiplication is exact and the
/// result is the truncated quotient; otherwise the product is rounded to 96 bits first, which
/// is not stated here.
#[verifier::external_body]
fn decimal_product_to_u64(value: u64, rate: SwapRate) -> (r: Option<Option<u64>>)
    requires
        rate.valid(),
    ensures
        r == decimal_product_u64(value, rate.mantissa, rate.scale),
        value * magnitude(rate.mantissa as int) <= max_mantissa() ==> r == Some(
            exact_product_u64(value, rate.mantissa, rate.scale),
        ),
{
    let rate = rust_decimal::Decimal::from_i128_with_scale(rate.mantissa, rate.scale);
    match rust_decimal::Decimal::from(value).checked_mul(rate) {
        Some(product) => Some(rust_decimal::prelude::ToPrimitive::to_u64(&product)),
        None => None,
    }
}

/// Renders the message for a product that does not convert to a `u64`; `{}` writes the
/// integer in decimal and the rate with `rust_decimal`'s `Display`, which
/// `Decimal::from_i128_with_scale` keeps at the given mantissa and scale.
#[verifier::external_body]
fn decimal_conversion_message(value: u64, rate: SwapRate) -> (r: String)
    requires
        rate.valid(),
    ensures
        r@ == "Could not convert "@ + dec_str(value as nat) + " times "@ + decimal_text(
            rate.mantissa,
            rate.scale,
        ) + " to u64"@,
{
    format!(
        "Could not convert {} times {} to u64",
        value,
        rust_decimal::Decimal::from_i128_with_scale(rate.mantissa, rate.scale)
    )
}

/// The message for a reply part whose length differs from the number of submitted quotes.
pub open spec fn length_mismatch_message(what: Seq<char>, expected: nat, got: nat) -> Seq<char> {
    "Number of "@ + what + " does not match number of quotes in request. Expected "@ + dec_str(
        expected,
    ) + ", got "@ + dec_str(got) + "."@
}

/// Renders the message for a reply with the wrong number of status codes; `{}` writes an
/// unsigned integer in decimal.
#[verifier::external_body]
fn status_codes_mismatch_message(expected: usize, got: usize) -> (r: String)
    ensures
        r@ == length_mismatch_message(
            "status codes in response"@,
            expected as nat,
            got as nat,
        ),
{
    format!("Number of status codes in response does not match number of quotes in request. Expected {}, got {}.", expected, got)
}

/// Renders the message for a reply with the wrong number of error messages; `{}` writes an
/// unsigned integer in decimal.
#[verifier::external_body]
fn error_messages_mismatch_message(expected: usize, got: usize) -> (r: String)
    ensures
        r@ == length_mismatch_message(
            "error messages in response"@,
            expected as nat,
            got as nat,
        ),
{
    format!("Number of error messages in response does not match number of quotes in request. Expected {}, got {}.", expected, got)
}

/// Renders the message for a reply with the wrong number of quotes; `{}` writes an unsigned
/// integer in decimal.
#[verifier::external_body]
fn quotes_mismatch_message(expected: usize, got: usize) -> (r: String)
    ensures
        r@ == length_mismatch_message("quotes in response"@, expected as nat, got as nat),
{
    format!("Number of quotes in response does not match number of quotes in request. Expected {}, got {}.", expected, got)
}

/// Errors of the liquidity bot's decisions.
#[derive(Debug, PartialEq, Eq)]
pub enum BotError {
    /// Invalid GRPC response: {0}
    InvalidGrpcResponse(String),
    /// Api Conversion: {0}
    ApiConversion(ConversionError),
    /// Unknown token id: {0}
    UnknownTokenId(TokenId),
    /// Decimal conversion: {0}
    DecimalConversion(String),
}

/// Whether an outcome is the error for an invalid reply with the given message.
pub open spec fn invalid_response<T>(r: Result<T, BotError>, msg: Seq<char>) -> bool {
    r matches Err(BotError::InvalidGrpcResponse(m)) && m@ == msg
}

/// Whether each part of a reply has one entry per submitted quote.
pub open spec fn response_lengths_match(resp: &SubmitQuotesResponse, expected_len: nat) -> bool {
    &&& resp.status_codes@.len() == expected_len
    &&& resp.error_messages@.len() == expected_len
    &&& resp.quotes@.len() == expected_len
}

/// The message for a reply whose parts do not all have one entry per submitted quote: the
/// first part, in the order status codes, error messages, quotes, whose length is wrong.
pub open spec fn response_check_message(resp: &SubmitQuotesResponse, expected_len: nat) -> Seq<char> {
    if resp.status_codes@.len() != expected_len {
        length_mismatch_message("status codes in response"@, expected_len, resp.status_codes@.len())
    } else if resp.error_messages@.len() != expected_len {
        length_mismatch_message(
            "error messages in response"@,
            expected_len,
            resp.error_messages@.len(),
        )
    } else {
        length_mismatch_message("quotes in response"@, expected_len, resp.quotes@.len())
    }
}

/// Checks that a reply has one status code, one error message and one quote per submitted
/// quote, in that order.
pub fn sanity_check_submit_quotes_response(resp: &SubmitQuotesResponse, expected_len: usize) -> (r:
    Result<(), BotError>)
    ensures
        r is Ok <==> response_lengths_match(resp, expected_len as nat),
        r is Err ==> invalid_response(r, response_check_message(resp, expected_len as nat)),
{
    if resp.status_codes.len() != expected_len {
        return Err(
            BotError::InvalidGrpcResponse(
                status_codes_mismatch_message(expected_len, resp.status_codes.len()),
            ),
        );
    }
    if resp.error_messages.len() != expected_len {
        return Err(
            BotError::InvalidGrpcResponse(
                error_messages_mismatch_message(expected_len, resp.error_messages.len()),
            ),
        );
    }
    if resp.quotes.len() != expected_len {
        return Err(
            BotError::InvalidGrpcResponse(
                quotes_mismatch_message(expected_len, resp.quotes.len()),
            ),
        );
    }
    Ok(())
}

/// An output the bot wants to list, with the SCI built from it.
#[derive(Debug)]
pub struct PendingTxOut {
    /// The output being offered.
    pub matched_tx_out: MatchedTxOut,
    /// The SCI built from the output.
    pub sci: Sci,
}

/// An output whose quote the service holds.
#[derive(Debug)]
pub struct ListedTxOut {
    /// The output being offered.
    pub matched_tx_out: MatchedTxOut,
    /// The SCI the service holds for the output.
    pub sci: Sci,
    /// The quote the service returned.
    pub quote: Quote,
    /// When the quote was last submitted, in milliseconds.
    pub last_submitted_at: u64,
}

/// The value of a pending output.
pub struct PendingView {
    pub matched_tx_out: MatchedTxOut,
    pub sci: SciView,
}

/// The value of a listed output.
pub struct ListedView {
    pub matched_tx_out: MatchedTxOut,
    pub sci: SciView,
    pub quote: QuoteView,
    pub last_submitted_at: u64,
}

impl View for PendingTxOut {
    type V = PendingView;

    open spec fn view(&self) -> PendingView {
        PendingView { matched_tx_out: self.matched_tx_out, sci: self.sci@ }
    }
}

impl View for ListedTxOut {
    type V = ListedView;

    open spec fn view(&self) -> ListedView {
        ListedView {
            matched_tx_out: self.matched_tx_out,
            sci: self.sci@,
            quote: self.quote@,
            last_submitted_at: self.last_submitted_at,
        }
    }
}

impl Clone for PendingTxOut {
    fn clone(&self) -> (r: Self)
        ensures
            r@ == self@,
    {
        PendingTxOut { matched_tx_out: self.matched_tx_out, sci: self.sci.clone() }
    }
}

impl Clone for ListedTxOut {
    fn clone(&self) -> (r: Self)
        ensures
            r@ == self@,
    {
        ListedTxOut {
            matched_tx_out: self.matched_tx_out,
            sci: self.sci.clone(),
            quote: self.quote.clone(),
            last_submitted_at: self.last_submitted_at,
        }
    }
}

/// The values of a sequence of pending outputs.
pub open spec fn pending_views(s: Seq<PendingTxOut>) -> Seq<PendingView> {
    Seq::new(s.len(), |i: int| s[i]@)
}

/// The values of a sequence of listed outputs.
pub open spec fn listed_views(s: Seq<ListedTxOut>) -> Seq<ListedView> {
    Seq::new(s.len(), |i: int| s[i]@)
}

/// Whether the service holds a quote for a submission with this status.
pub open spec fn is_listed_status(c: QuoteStatusCode) -> bool {
    c == QuoteStatusCode::CREATED || c == QuoteStatusCode::QUOTE_ALREADY_EXISTS
}

/// Whether a quote message carries a quote id of the right length.
pub open spec fn has_valid_id(msg: ApiQuoteView) -> bool {
    msg.id.len() == 32
}

/// The values of the quotes of a reply.
pub open spec fn reply_quotes(resp: &SubmitQuotesResponse) -> Seq<ApiQuoteView> {
    Seq::new(resp.quotes@.len(), |i: int| resp.quotes@[i]@)
}

/// Among the first `k` submissions, the first listed one whose quote id is malformed, or `k`:
/// where handling a reply to new submissions stops.
pub open spec fn submit_stop(codes: Seq<QuoteStatusCode>, quotes: Seq<ApiQuoteView>, k: int) -> int
    decreases k,
{
    if k <= 0 {
        0
    } else {
        let s = submit_stop(codes, quotes, k - 1);
        if s < k - 1 {
            s
        } else if is_listed_status(codes[k - 1]) && !has_valid_id(quotes[k - 1]) {
            k - 1
        } else {
            k
        }
    }
}

/// Among the first `k` resubmissions, the first whose quote id is malformed, or `k`: where
/// handling a reply to resubmissions stops.
pub open spec fn resubmit_stop(quotes: Seq<ApiQuoteView>, k: int) -> int
    decreases k,
{
    if k <= 0 {
        0
    } else {
        let s = resubmit_stop(quotes, k - 1);
        if s < k - 1 {
            s
        } else if !has_valid_id(quotes[k - 1]) {
            k - 1
        } else {
            k
        }
    }
}

/// The positions among the first `k` submissions whose status says the service holds a quote.
pub open spec fn listed_positions(codes: Seq<QuoteStatusCode>, k: int) -> Seq<int>
    decreases k,
{
    if k <= 0 {
        Seq::empty()
    } else if is_listed_status(codes[k - 1]) {
        listed_positions(codes, k - 1).push(k - 1)
    } else {
        listed_positions(codes, k - 1)
    }
}

/// Once handling stops before the `k`-th submission, it stops at the same place for every
/// longer prefix.
pub proof fn lemma_submit_stop_stable(
    codes: Seq<QuoteStatusCode>,
    quotes: Seq<ApiQuoteView>,
    k: int,
    k2: int,
)
    requires
        0 <= k <= k2,
        submit_stop(codes, quotes, k) < k,
    ensures
        submit_stop(codes, quotes, k2) == submit_stop(codes, quotes, k),
    decreases k2 - k,
{
    if k2 > k {
        lemma_submit_stop_stable(codes, quotes, k, k2 - 1);
    }
}

/// Once handling stops before the `k`-th resubmission, it stops at the same place for every
/// longer prefix.
pub proof fn lemma_resubmit_stop_stable(quotes: Seq<ApiQuoteView>, k: int, k2: int)
    requires
        0 <= k <= k2,
        resubmit_stop(quotes, k) < k,
    ensures
        resubmit_stop(quotes, k2) == resubmit_stop(quotes, k),
    decreases k2 - k,
{
    if k2 > k {
        lemma_resubmit_stop_stable(quotes, k, k2 - 1);
    }
}

/// Handling a reply to new submissions never stops earlier on a longer prefix.
pub proof fn lemma_submit_stop_monotone(
    codes: Seq<QuoteStatusCode>,
    quotes: Seq<ApiQuoteView>,
    k: int,
    k2: int,
)
    requires
        0 <= k <= k2,
    ensures
        submit_stop(codes, quotes, k) <= submit_stop(codes, quotes, k2),
    decreases k2 - k,
{
    if k2 > k {
        lemma_submit_stop_monotone(codes, quotes, k, k2 - 1);
    }
}

/// Handling a reply to resubmissions never stops earlier on a longer prefix.
pub proof fn lemma_resubmit_stop_monotone(quotes: Seq<ApiQuoteView>, k: int, k2: int)
    requires
        0 <= k <= k2,
    ensures
        resubmit_stop(quotes, k) <= resubmit_stop(quotes, k2),
    decreases k2 - k,
{
    if k2 > k {
        lemma_resubmit_stop_monotone(quotes, k, k2 - 1);
    }
}

/// The entry listed for a new submission that the service holds: the output, with the SCI and
/// the quote the service returned, submitted at `now`.
pub open spec fn listed_from_submit(p: PendingView, msg: ApiQuoteView, now: u64, l: ListedView) -> bool {
    &&& l.matched_tx_out == p.matched_tx_out
    &&& l.sci == msg.sci
    &&& describes(msg, l.quote)
    &&& l.last_submitted_at == now
}

/// The entry kept for a resubmission that the service holds: a created quote replaces the
/// quote, an existing one replaces the SCI; either way it was submitted at `now`.
pub open spec fn listed_from_resubmit(
    old_entry: ListedView,
    code: QuoteStatusCode,
    msg: ApiQuoteView,
    now: u64,
    l: ListedView,
) -> bool {
    &&& l.matched_tx_out == old_entry.matched_tx_out
    &&& l.last_submitted_at == now
    &&& code == QuoteStatusCode::CREATED ==> l.sci == old_entry.sci && describes(msg, l.quote)
    &&& code == QuoteStatusCode::QUOTE_ALREADY_EXISTS ==> l.sci == msg.sci && l.quote
        == old_entry.quote
}

/// What handling a resubmission reply makes of a listed output that the service holds: the
/// output stays, it counts as submitted at `now`, and
/// - when the service created the quote anew, the output keeps its SCI and is listed with the
///   quote that the reply describes (the reply's id, SCI, pair, base range, counter tokens and
///   timestamp), in place of the quote it carried before;
/// - when the quote already existed, the output keeps its quote and takes the SCI that the
///   service holds.
pub proof fn lemma_resubmit_entry(
    old_entry: ListedView,
    code: QuoteStatusCode,
    msg: ApiQuoteView,
    now: u64,
    l: ListedView,
)
    requires
        listed_from_resubmit(old_entry, code, msg, now, l),
    ensures
        l.matched_tx_out == old_entry.matched_tx_out,
        l.last_submitted_at == now,
        code == QuoteStatusCode::CREATED ==> {
            &&& l.sci == old_entry.sci
            &&& l.quote.id.bytes() == msg.id
            &&& l.quote.sci == msg.sci
            &&& l.quote.pair.base_token_id == msg.pair.base_token_id
            &&& l.quote.pair.counter_token_id == msg.pair.counter_token_id
            &&& l.quote.base_range.start == msg.base_range_min
            &&& l.quote.base_range.end == msg.base_range_max
            &&& l.quote.max_counter_tokens == msg.max_counter_tokens
            &&& l.quote.timestamp == msg.timestamp
        },
        code == QuoteStatusCode::QUOTE_ALREADY_EXISTS ==> l.sci == msg.sci && l.quote
            == old_entry.quote,
{
}

/// An entry listed after its quote was created anew by a resubmission: the output, with its
/// own SCI, carrying the quote that the reply describes field by field, submitted at `now`.
pub open spec fn created_entry_from_reply(
    old_entry: ListedView,
    msg: ApiQuoteView,
    now: u64,
    l: ListedView,
) -> bool {
    &&& l.matched_tx_out == old_entry.matched_tx_out
    &&& l.sci == old_entry.sci
    &&& l.last_submitted_at == now
    &&& l.quote.id.bytes() == msg.id
    &&& l.quote.sci == msg.sci
    &&& l.quote.pair.base_token_id == msg.pair.base_token_id
    &&& l.quote.pair.counter_token_id == msg.pair.counter_token_id
    &&& l.quote.base_range.start == msg.base_range_min
    &&& l.quote.base_range.end == msg.base_range_max
    &&& l.quote.max_counter_tokens == msg.max_counter_tokens
    &&& l.quote.timestamp == msg.timestamp
}

/// Whether a listed entry is due for resubmission at `now`: more than the resubmission delay
/// has passed since it was last submitted.
pub open spec fn due_for_resubmit(l: ListedView, now: u64) -> bool {
    now > l.last_submitted_at && now - l.last_submitted_at > RESUBMIT_AFTER_MILLIS
}

/// The predicate "due for resubmission at `now`".
pub open spec fn due_at(now: u64) -> spec_fn(ListedView) -> bool {
    |l: ListedView| due_for_resubmit(l, now)
}

/// The predicate "not due for resubmission at `now`".
pub open spec fn not_due_at(now: u64) -> spec_fn(ListedView) -> bool {
    |l: ListedView| !due_for_resubmit(l, now)
}

/// How many of the pending outputs are of the given token, and their total value.
pub open spec fn pending_token_totals(s: Seq<PendingView>, token_id: TokenId) -> (nat, nat)
    decreases s.len(),
{
    if s.len() == 0 {
        (0, 0)
    } else {
        let (n, v) = pending_token_totals(s.drop_last(), token_id);
        if s.last().matched_tx_out.amount.token_id == token_id {
            (n + 1, v + s.last().matched_tx_out.amount.value as nat)
        } else {
            (n, v)
        }
    }
}

/// How many of the listed outputs are of the given token, and their total value.
pub open spec fn listed_token_totals(s: Seq<ListedView>, token_id: TokenId) -> (nat, nat)
    decreases s.len(),
{
    if s.len() == 0 {
        (0, 0)
    } else {
        let (n, v) = listed_token_totals(s.drop_last(), token_id);
        if s.last().matched_tx_out.amount.token_id == token_id {
            (n + 1, v + s.last().matched_tx_out.amount.value as nat)
        } else {
            (n, v)
        }
    }
}

/// The bot's figures for one token: outputs pending and listed, by number and total value.
#[derive(Clone, Copy, Debug, PartialEq, Eq, Structural)]
pub struct TokenStats {
    pub num_pending_tx_outs: u64,
    pub pending_tx_outs_value: u128,
    pub num_listed_tx_outs: u64,
    pub listed_tx_outs_value: u128,
}

/// Whether a reply to new submissions meets what handling it assumes: each quote the service
/// reports as newly created, up to where handling stops, carries the SCI that was submitted.
pub open spec fn submit_reply_consistent(pending: Seq<PendingView>, resp: &SubmitQuotesResponse) -> bool {
    response_lengths_match(resp, pending.len()) ==> forall|i: int|
        0 <= i < submit_stop(resp.status_codes@, reply_quotes(resp), resp.status_codes@.len() as int)
            && resp.status_codes@[i] == QuoteStatusCode::CREATED ==> (#[trigger] reply_quotes(
            resp,
        )[i]).sci == pending[i].sci
}

/// Whether a reply to resubmissions meets what handling it assumes: each quote the service
/// reports as newly created, up to where handling stops, carries the SCI that was resubmitted.
pub open spec fn resubmit_reply_consistent(
    to_resubmit: Seq<ListedView>,
    resp: &SubmitQuotesResponse,
) -> bool {
    response_lengths_match(resp, to_resubmit.len()) ==> forall|i: int|
        0 <= i < resubmit_stop(reply_quotes(resp), resp.status_codes@.len() as int)
            && resp.status_codes@[i] == QuoteStatusCode::CREATED ==> (#[trigger] reply_quotes(
            resp,
        )[i]).sci == to_resubmit[i].sci
}

/// The bot's state: the configured pairs, keyed by base token, with the counter token and the
/// rate; the outputs waiting to be submitted; and the outputs whose quotes are listed.
pub struct LiquidityBotTask {
    pairs: HashMap<TokenId, (TokenId, SwapRate)>,
    pending_tx_outs: Vec<PendingTxOut>,
    listed_tx_outs: Vec<ListedTxOut>,
}

impl LiquidityBotTask {
    /// The configured pairs: base token to counter token and rate.
    pub closed spec fn pairs(self) -> Map<TokenId, (TokenId, SwapRate)> {
        self.pairs@
    }

    /// The outputs waiting to be submitted, in order.
    pub closed spec fn pending(self) -> Seq<PendingView> {
        pending_views(self.pending_tx_outs@)
    }

    /// The outputs whose quotes are listed, in order.
    pub closed spec fn listed(self) -> Seq<ListedView> {
        listed_views(self.listed_tx_outs@)
    }

    /// Every configured rate is a valid decimal.
    pub open spec fn wf(self) -> bool {
        forall|t: TokenId| #[trigger] self.pairs().contains_key(t) ==> self.pairs()[t].1.valid()
    }

    /// Whether the product of an output's value and its rate stays within what
    /// `rust_decimal` can multiply, when its token is configured.
    pub open spec fn product_defined(self, m: MatchedTxOut) -> bool {
        self.pairs().contains_key(m.amount.token_id) ==> decimal_product_u64(
            m.amount.value,
            self.pairs()[m.amount.token_id].1.mantissa,
            self.pairs()[m.amount.token_id].1.scale,
        ) is Some
    }

    /// The counter amount wanted for an output whose token is configured and whose product
    /// is defined: `Some` of the amount, or `None` when the product is negative or does not
    /// fit in a `u64`.
    pub open spec fn wanted_counter(self, m: MatchedTxOut) -> Option<u64> {
        decimal_product_u64(
            m.amount.value,
            self.pairs()[m.amount.token_id].1.mantissa,
            self.pairs()[m.amount.token_id].1.scale,
        )->Some_0
    }

    /// A bot with the given pairs and nothing pending or listed.
    pub fn new(pairs: HashMap<TokenId, (TokenId, SwapRate)>) -> (r: Self)
        requires
            forall|t: TokenId| #[trigger] pairs@.contains_key(t) ==> pairs@[t].1.valid(),
        ensures
            r.wf(),
            r.pairs() == pairs@,
            r.pending().len() == 0,
            r.listed().len() == 0,
    {
        LiquidityBotTask { pairs, pending_tx_outs: Vec::new(), listed_tx_outs: Vec::new() }
    }

    /// Whether outputs of the given token are offered.
    pub fn wants_tx_out(&self, matched_tx_out: &MatchedTxOut) -> (r: bool)
        ensures
            r == self.pairs().contains_key(matched_tx_out.amount.token_id),
    {
        self.pairs.contains_key(&matched_tx_out.amount.token_id)
    }

    /// The amount of counter tokens to ask for an output: its value times the rate of its
    /// token, in the counter token of its pair.
    pub fn counter_terms(&self, matched_tx_out: &MatchedTxOut) -> (r: Result<Amount, BotError>)
        requires
            self.wf(),
            self.product_defined(*matched_tx_out),
        ensures
            !self.pairs().contains_key(matched_tx_out.amount.token_id) ==> r == Err::<
                Amount,
                BotError,
            >(BotError::UnknownTokenId(matched_tx_out.amount.token_id)),
            self.pairs().contains_key(matched_tx_out.amount.token_id) ==> match self.wanted_counter(
                *matched_tx_out,
            ) {
                Some(v) => r == Ok::<Amount, BotError>(
                    Amount {
                        value: v,
                        token_id: self.pairs()[matched_tx_out.amount.token_id].0,
                    },
                ),
                None => r matches Err(BotError::DecimalConversion(m)) && m@ == "Could not convert "@
                    + dec_str(matched_tx_out.amount.value as nat) + " times "@ + decimal_text(
                    self.pairs()[matched_tx_out.amount.token_id].1.mantissa,
                    self.pairs()[matched_tx_out.amount.token_id].1.scale,
                ) + " to u64"@,
            },
    {
        let token_id = matched_tx_out.amount.token_id;
        let (counter_token_id, rate) = match self.pairs.get(&token_id) {
            Some(pair) => *pair,
            None => {
                return Err(BotError::UnknownTokenId(token_id));
            },
        };
        let value = matched_tx_out.amount.value;
        match decimal_product_to_u64(value, rate) {
            Some(Some(counter_amount)) => Ok(Amount { value: counter_amount, token_id: counter_token_id }),
            _ => Err(BotError::DecimalConversion(decimal_conversion_message(value, rate))),
        }
    }

    /// The counter terms of an output, or `None` when multiplying its value by its rate
    /// overflows what `rust_decimal` can hold (where the multiplication would panic).
    pub fn checked_counter_terms(&self, matched_tx_out: &MatchedTxOut) -> (r: Option<
        Result<Amount, BotError>,
    >)
        requires
            self.wf(),
        ensures
            r is None <==> !self.product_defined(*matched_tx_out),
            r is Some ==> !self.pairs().contains_key(matched_tx_out.amount.token_id) ==> r
                == Some(Err::<Amount, BotError>(BotError::UnknownTokenId(matched_tx_out.amount.token_id))),
            r is Some ==> self.pairs().contains_key(matched_tx_out.amount.token_id)
                ==> self.wanted_counter(*matched_tx_out) is Some ==> r == Some(
                Ok::<Amount, BotError>(
                    Amount {
                        value: self.wanted_counter(*matched_tx_out)->Some_0,
                        token_id: self.pairs()[matched_tx_out.amount.token_id].0,
                    },
                ),
            ),
            r is Some ==> self.pairs().contains_key(matched_tx_out.amount.token_id)
                ==> self.wanted_counter(*matched_tx_out) is None ==> r->Some_0 matches Err(
                BotError::DecimalConversion(_),
            ),
    {
        let token_id = matched_tx_out.amount.token_id;
        match self.pairs.get(&token_id) {
            Some(pair) => {
                let (_, rate) = *pair;
                if decimal_product_to_u64(matched_tx_out.amount.value, rate).is_none() {
                    return None;
                }
            },
            None => {},
        }
        Some(self.counter_terms(matched_tx_out))
    }

    /// Queues an output and its SCI for submission.
    pub fn add_pending_tx_out(&mut self, pending: PendingTxOut)
        ensures
            final(self).pairs() == old(self).pairs(),
            final(self).pending() == old(self).pending().push(pending@),
            final(self).listed() == old(self).listed(),
    {
        let ghost before = self.pending_tx_outs@;
        self.pending_tx_outs.push(pending);
        proof {
            assert(pending_views(self.pending_tx_outs@) =~= pending_views(before).push(pending@));
        }
    }

    /// Whether any output waits to be submitted.
    pub fn has_pending_tx_outs(&self) -> (r: bool)
        ensures
            r == (self.pending().len() > 0),
    {
        self.pending_tx_outs.len() > 0
    }

    /// The outputs waiting to be submitted.
    pub fn pending_tx_outs(&self) -> (r: &Vec<PendingTxOut>)
        ensures
            pending_views(r@) == self.pending(),
    {
        &self.pending_tx_outs
    }

    /// The outputs whose quotes are listed.
    pub fn listed_tx_outs(&self) -> (r: &Vec<ListedTxOut>)
        ensures
            listed_views(r@) == self.listed(),
    {
        &self.listed_tx_outs
    }

    /// Whether a reply to the submission of the pending outputs meets what handling it
    /// assumes (a created quote carries the submitted SCI).
    pub fn check_submit_reply(&self, resp: &SubmitQuotesResponse) -> (r: bool)
        ensures
            r == submit_reply_consistent(self.pending(), resp),
    {
        let ghost codes = resp.status_codes@;
        let ghost quotes = reply_quotes(resp);
        if sanity_check_submit_quotes_response(resp, self.pending_tx_outs.len()).is_err() {
            return true;
        }
        let n = resp.status_codes.len();
        let mut i: usize = 0;
        while i < n
            invariant
                n == codes.len(),
                codes == resp.status_codes@,
                quotes == reply_quotes(resp),
                resp.quotes@.len() == n,
                self.pending_tx_outs@.len() == n,
                response_lengths_match(resp, n as nat),
                0 <= i <= n,
                submit_stop(codes, quotes, i as int) == i,
                forall|k: int|
                    0 <= k < i && codes[k] == QuoteStatusCode::CREATED ==> (#[trigger] quotes[k]).sci
                        == self.pending()[k].sci,
            decreases n - i,
        {
            let code = resp.status_codes[i];
            let listed = code == QuoteStatusCode::CREATED || code == QuoteStatusCode::QUOTE_ALREADY_EXISTS;
            if listed && resp.quotes[i].id.data.len() != 32 {
                proof {
                    assert(submit_stop(codes, quotes, i + 1) == i);
                    lemma_submit_stop_stable(codes, quotes, i + 1, n as int);
                }
                return true;
            }
            proof {
                assert(submit_stop(codes, quotes, i + 1) == i + 1);
            }
            if code == QuoteStatusCode::CREATED && !sci_equal(
                &resp.quotes[i].sci,
                &self.pending_tx_outs[i].sci,
            ) {
                proof {
                    lemma_submit_stop_monotone(codes, quotes, i + 1, n as int);
                    assert(response_lengths_match(resp, self.pending().len()));
                    assert(reply_quotes(resp)[i as int].sci != self.pending()[i as int].sci);
                    assert(i < submit_stop(codes, quotes, n as int));
                }
                return false;
            }
            i = i + 1;
        }
        true
    }

    /// Whether a reply to the resubmission of `to_resubmit` meets what handling it assumes
    /// (a created quote carries the resubmitted SCI).
    pub fn check_resubmit_reply(to_resubmit: &Vec<ListedTxOut>, resp: &SubmitQuotesResponse) -> (r:
        bool)
        ensures
            r == resubmit_reply_consistent(listed_views(to_resubmit@), resp),
    {
        let ghost quotes = reply_quotes(resp);
        let ghost entries = listed_views(to_resubmit@);
        if sanity_check_submit_quotes_response(resp, to_resubmit.len()).is_err() {
            return true;
        }
        let n = resp.status_codes.len();
        let mut i: usize = 0;
        while i < n
            invariant
                n == resp.status_codes@.len(),
                quotes == reply_quotes(resp),
                entries == listed_views(to_resubmit@),
                resp.quotes@.len() == n,
                to_resubmit@.len() == n,
                response_lengths_match(resp, n as nat),
                0 <= i <= n,
                resubmit_stop(quotes, i as int) == i,
                forall|k: int|
                    0 <= k < i && resp.status_codes@[k] == QuoteStatusCode::CREATED ==> (
                    #[trigger] quotes[k]).sci == entries[k].sci,
            decreases n - i,
        {
            if resp.quotes[i].id.data.len() != 32 {
                proof {
                    assert(resubmit_stop(quotes, i + 1) == i);
                    lemma_resubmit_stop_stable(quotes, i + 1, n as int);
                }
                return true;
            }
            proof {
                assert(resubmit_stop(quotes, i + 1) == i + 1);
            }
            if resp.status_codes[i] == QuoteStatusCode::CREATED && !sci_equal(
                &resp.quotes[i].sci,
                &to_resubmit[i].sci,
            ) {
                proof {
                    lemma_resubmit_stop_monotone(quotes, i + 1, n as int);
                    assert(response_lengths_match(resp, entries.len()));
                    assert(reply_quotes(resp)[i as int].sci != entries[i as int].sci);
                    assert(i < resubmit_stop(quotes, n as int));
                }
                return false;
            }
            i = i + 1;
        }
        true
    }

    /// Handles the reply to the submission of every pending output, in order. A reply whose
    /// parts do not have one entry per pending output is an error and changes nothing.
    /// Otherwise the pending list is emptied, and each output whose quote the service holds
    /// (created, or already there) is listed with the SCI and quote the service returned. A
    /// held quote with a malformed id stops the handling with an error; the outputs after it are
    /// dropped.
    pub fn apply_submit_response(&mut self, resp: &SubmitQuotesResponse, now: u64) -> (r: Result<
        (),
        BotError,
    >)
        requires
            submit_reply_consistent(old(self).pending(), resp),
        ensures
            final(self).pairs() == old(self).pairs(),
            !response_lengths_match(resp, old(self).pending().len()) ==> {
                &&& invalid_response(r, response_check_message(resp, old(self).pending().len()))
                &&& final(self).pending() == old(self).pending()
                &&& final(self).listed() == old(self).listed()
            },
            response_lengths_match(resp, old(self).pending().len()) ==> {
                let n = resp.status_codes@.len() as int;
                let stop = submit_stop(resp.status_codes@, reply_quotes(resp), n);
                let pos = listed_positions(resp.status_codes@, stop);
                let old_len = old(self).listed().len() as int;
                &&& final(self).pending().len() == 0
                &&& final(self).listed().len() == old_len + pos.len()
                &&& final(self).listed().subrange(0, old_len) == old(self).listed()
                &&& forall|j: int|
                    0 <= j < pos.len() ==> listed_from_submit(
                        old(self).pending()[pos[j]],
                        reply_quotes(resp)[pos[j]],
                        now,
                        #[trigger] final(self).listed()[old_len + j],
                    )
                &&& stop < n ==> r == Err::<(), BotError>(
                    BotError::ApiConversion(ConversionError::ArrayCastError),
                )
                &&& stop == n ==> r is Ok
            },
    {
        let ghost old_pending = self.pending();
        let ghost old_listed = self.listed();
        let ghost old_len = old_listed.len() as int;
        let ghost codes = resp.status_codes@;
        let ghost quotes = reply_quotes(resp);
        let expected_len = self.pending_tx_outs.len();
        match sanity_check_submit_quotes_response(resp, expected_len) {
            Ok(()) => {},
            Err(e) => {
                return Err(e);
            },
        }
        let mut pending: Vec<PendingTxOut> = Vec::new();
        std::mem::swap(&mut pending, &mut self.pending_tx_outs);
        let n = resp.status_codes.len();
        let mut i: usize = 0;
        while i < n
            invariant
                n == codes.len(),
                codes == resp.status_codes@,
                quotes == reply_quotes(resp),
                resp.quotes@.len() == n,
                pending@.len() == n,
                pending_views(pending@) == old_pending,
                old_pending == old(self).pending(),
                old_listed == old(self).listed(),
                response_lengths_match(resp, old_pending.len()),
                self.pending_tx_outs@.len() == 0,
                self.pairs() == old(self).pairs(),
                0 <= i <= n,
                old_len == old_listed.len(),
                submit_stop(codes, quotes, i as int) == i,
                self.listed().len() == old_len + listed_positions(codes, i as int).len(),
                self.listed().subrange(0, old_len) == old_listed,
                forall|k: int|
                    0 <= k < listed_positions(codes, i as int).len() ==> 0 <= (
                    #[trigger] listed_positions(codes, i as int)[k]) < i,
                forall|j: int|
                    0 <= j < listed_positions(codes, i as int).len() ==> listed_from_submit(
                        old_pending[listed_positions(codes, i as int)[j]],
                        quotes[listed_positions(codes, i as int)[j]],
                        now,
                        #[trigger] self.listed()[old_len + j],
                    ),
            decreases n - i,
        {
            let code = resp.status_codes[i];
            if code == QuoteStatusCode::CREATED || code == QuoteStatusCode::QUOTE_ALREADY_EXISTS {
                let quote = match quote_from_api(&resp.quotes[i]) {
                    Ok(q) => q,
                    Err(e) => {
                        proof {
                            assert(submit_stop(codes, quotes, i + 1) == i);
                            lemma_submit_stop_stable(codes, quotes, i + 1, n as int);
                        }
                        return Err(BotError::ApiConversion(e));
                    },
                };
                let entry = ListedTxOut {
                    matched_tx_out: pending[i].matched_tx_out,
                    sci: resp.quotes[i].sci.clone(),
                    quote,
                    last_submitted_at: now,
                };
                let ghost before = self.listed_tx_outs@;
                self.listed_tx_outs.push(entry);
                proof {
                    assert(listed_views(self.listed_tx_outs@) =~= listed_views(before).push(entry@));
                    assert(self.listed().subrange(0, old_len) =~= listed_views(before).subrange(
                        0,
                        old_len,
                    ));
                    assert(pending_views(pending@)[i as int] == pending@[i as int]@);
                }
            }
            i = i + 1;
        }
        Ok(())
    }

    /// Splits the listed outputs: those due for resubmission at `now` are taken out and
    /// returned, the others stay listed; both keep their order.
    pub fn take_due_for_resubmit(&mut self, now: u64) -> (r: Vec<ListedTxOut>)
        ensures
            final(self).pairs() == old(self).pairs(),
            final(self).pending() == old(self).pending(),
            listed_views(r@) == keep_if(old(self).listed(), due_at(now)),
            final(self).listed() == keep_if(
                old(self).listed(),
                not_due_at(now),
            ),
    {
        let ghost all = self.listed();
        let ghost due = due_at(now);
        let ghost stay = not_due_at(now);
        let mut to_resubmit: Vec<ListedTxOut> = Vec::new();
        let mut to_keep: Vec<ListedTxOut> = Vec::new();
        let mut i: usize = 0;
        while i < self.listed_tx_outs.len()
            invariant
                0 <= i <= self.listed_tx_outs@.len(),
                all == self.listed(),
                all == listed_views(self.listed_tx_outs@),
                due == (due_at(now)),
                stay == (not_due_at(now)),
                listed_views(to_resubmit@) == keep_if(all.take(i as int), due),
                listed_views(to_keep@) == keep_if(all.take(i as int), stay),
            decreases self.listed_tx_outs@.len() - i,
        {
            let entry = self.listed_tx_outs[i].clone();
            proof {
                lemma_keep_if_step(all, due, i as int);
                lemma_keep_if_step(all, stay, i as int);
                assert(all[i as int] == entry@);
            }
            let is_due = now > entry.last_submitted_at && now - entry.last_submitted_at
                > RESUBMIT_AFTER_MILLIS;
            if is_due {
                let ghost before = to_resubmit@;
                to_resubmit.push(entry);
                proof {
                    assert(listed_views(to_resubmit@) =~= listed_views(before).push(entry@));
                }
            } else {
                let ghost before = to_keep@;
                to_keep.push(entry);
                proof {
                    assert(listed_views(to_keep@) =~= listed_views(before).push(entry@));
                }
            }
            i = i + 1;
        }
        proof {
            lemma_take_all(all);
        }
        self.listed_tx_outs = to_keep;
        to_resubmit
    }

    /// Puts outputs taken for resubmission back at the end of the listed outputs, as when
    /// their resubmission could not be sent.
    pub fn restore_listed(&mut self, mut to_resubmit: Vec<ListedTxOut>)
        ensures
            final(self).pairs() == old(self).pairs(),
            final(self).pending() == old(self).pending(),
            final(self).listed() == old(self).listed() + listed_views(to_resubmit@),
    {
        let ghost before = self.listed_tx_outs@;
        let ghost back = to_resubmit@;
        self.listed_tx_outs.append(&mut to_resubmit);
        proof {
            assert(listed_views(self.listed_tx_outs@) =~= listed_views(before) + listed_views(back));
        }
    }

    /// Handles the reply to the resubmission of `to_resubmit`, in order. A reply whose parts do
    /// not have one entry per resubmitted output is an error, and the resubmitted outputs are
    /// dropped. Otherwise each output whose quote the service holds is listed again, submitted
    /// at `now`: a created quote replaces its quote, an existing quote replaces its SCI. Outputs
    /// whose quote is stale or rejected are dropped. A malformed quote id stops the handling
    /// with an error; the outputs from it on are dropped.
    pub fn apply_resubmit_response(
        &mut self,
        to_resubmit: Vec<ListedTxOut>,
        resp: &SubmitQuotesResponse,
        now: u64,
    ) -> (r: Result<(), BotError>)
        requires
            resubmit_reply_consistent(listed_views(to_resubmit@), resp),
        ensures
            final(self).pairs() == old(self).pairs(),
            final(self).pending() == old(self).pending(),
            !response_lengths_match(resp, to_resubmit@.len()) ==> {
                &&& invalid_response(r, response_check_message(resp, to_resubmit@.len()))
                &&& final(self).listed() == old(self).listed()
            },
            response_lengths_match(resp, to_resubmit@.len()) ==> {
                let n = resp.status_codes@.len() as int;
                let stop = resubmit_stop(reply_quotes(resp), n);
                let pos = listed_positions(resp.status_codes@, stop);
                let old_len = old(self).listed().len() as int;
                &&& final(self).listed().len() == old_len + pos.len()
                &&& final(self).listed().subrange(0, old_len) == old(self).listed()
                &&& forall|j: int|
                    0 <= j < pos.len() ==> listed_from_resubmit(
                        to_resubmit@[pos[j]]@,
                        resp.status_codes@[pos[j]],
                        reply_quotes(resp)[pos[j]],
                        now,
                        #[trigger] final(self).listed()[old_len + j],
                    )
                &&& stop < n ==> r == Err::<(), BotError>(
                    BotError::ApiConversion(ConversionError::ArrayCastError),
                )
                &&& stop == n ==> r is Ok
                &&& forall|j: int|
                    0 <= j < pos.len() && resp.status_codes@[pos[j]] == QuoteStatusCode::CREATED
                        ==> created_entry_from_reply(
                        to_resubmit@[pos[j]]@,
                        reply_quotes(resp)[pos[j]],
                        now,
                        #[trigger] final(self).listed()[old_len + j],
                    )
            },
    {
        let ghost old_listed = self.listed();
        let ghost old_len = old_listed.len() as int;
        let ghost codes = resp.status_codes@;
        let ghost quotes = reply_quotes(resp);
        match sanity_check_submit_quotes_response(resp, to_resubmit.len()) {
            Ok(()) => {},
            Err(e) => {
                return Err(e);
            },
        }
        let n = resp.status_codes.len();
        let mut i: usize = 0;
        while i < n
            invariant
                n == codes.len(),
                codes == resp.status_codes@,
                quotes == reply_quotes(resp),
                resp.quotes@.len() == n,
                to_resubmit@.len() == n,
                response_lengths_match(resp, to_resubmit@.len()),
                old_listed == old(self).listed(),
                self.pairs() == old(self).pairs(),
                self.pending() == old(self).pending(),
                0 <= i <= n,
                old_len == old_listed.len(),
                resubmit_stop(quotes, i as int) == i,
                self.listed().len() == old_len + listed_positions(codes, i as int).len(),
                self.listed().subrange(0, old_len) == old_listed,
                forall|k: int|
                    0 <= k < listed_positions(codes, i as int).len() ==> 0 <= (
                    #[trigger] listed_positions(codes, i as int)[k]) < i,
                forall|j: int|
                    0 <= j < listed_positions(codes, i as int).len() ==> listed_from_resubmit(
                        to_resubmit@[listed_positions(codes, i as int)[j]]@,
                        codes[listed_positions(codes, i as int)[j]],
                        quotes[listed_positions(codes, i as int)[j]],
                        now,
                        #[trigger] self.listed()[old_len + j],
                    ),
            decreases n - i,
        {
            let quote = match quote_from_api(&resp.quotes[i]) {
                Ok(q) => q,
                Err(e) => {
                    proof {
                        assert(resubmit_stop(quotes, i + 1) == i);
                        lemma_resubmit_stop_stable(quotes, i + 1, n as int);
                    }
                    proof {
                        let pos = listed_positions(codes, i as int);
                        assert forall|j: int|
                            0 <= j < pos.len() && codes[pos[j]] == QuoteStatusCode::CREATED implies
                            created_entry_from_reply(
                            to_resubmit@[pos[j]]@,
                            quotes[pos[j]],
                            now,
                            self.listed()[old_len + j],
                        ) by {
                            lemma_resubmit_entry(
                                to_resubmit@[pos[j]]@,
                                codes[pos[j]],
                                quotes[pos[j]],
                                now,
                                self.listed()[old_len + j],
                            );
                        }
                    }
                    return Err(BotError::ApiConversion(e));
                },
            };
            proof {
                assert(resubmit_stop(quotes, i + 1) == i + 1);
            }
            let code = resp.status_codes[i];
            if code == QuoteStatusCode::CREATED || code == QuoteStatusCode::QUOTE_ALREADY_EXISTS {
                let entry = if code == QuoteStatusCode::CREATED {
                    ListedTxOut {
                        matched_tx_out: to_resubmit[i].matched_tx_out,
                        sci: to_resubmit[i].sci.clone(),
                        quote,
                        last_submitted_at: now,
                    }
                } else {
                    ListedTxOut {
                        matched_tx_out: to_resubmit[i].matched_tx_out,
                        sci: resp.quotes[i].sci.clone(),
                        quote: to_resubmit[i].quote.clone(),
                        last_submitted_at: now,
                    }
                };
                let ghost before = self.listed_tx_outs@;
                self.listed_tx_outs.push(entry);
                proof {
                    assert(listed_views(self.listed_tx_outs@) =~= listed_views(before).push(entry@));
                    assert(self.listed().subrange(0, old_len) =~= listed_views(before).subrange(
                        0,
                        old_len,
                    ));
                }
            }
            i = i + 1;
        }
            proof {
                let pos = listed_positions(codes, i as int);
                assert forall|j: int|
                    0 <= j < pos.len() && codes[pos[j]] == QuoteStatusCode::CREATED implies
                    created_entry_from_reply(
                    to_resubmit@[pos[j]]@,
                    quotes[pos[j]],
                    now,
                    self.listed()[old_len + j],
                ) by {
                    lemma_resubmit_entry(
                        to_resubmit@[pos[j]]@,
                        codes[pos[j]],
                        quotes[pos[j]],
                        now,
                        self.listed()[old_len + j],
                    );
                }
            }
        Ok(())
    }

    /// The number and total value of the pending and of the listed outputs of a token.
    pub fn token_stats(&self, token_id: TokenId) -> (r: TokenStats)
        ensures
            r.num_pending_tx_outs == pending_token_totals(self.pending(), token_id).0,
            r.pending_tx_outs_value == pending_token_totals(self.pending(), token_id).1,
            r.num_listed_tx_outs == listed_token_totals(self.listed(), token_id).0,
            r.listed_tx_outs_value == listed_token_totals(self.listed(), token_id).1,
    {
        let ghost pending = self.pending();
        let mut num_pending: u64 = 0;
        let mut pending_value: u128 = 0;
        let mut i: usize = 0;
        while i < self.pending_tx_outs.len()
            invariant
                0 <= i <= self.pending_tx_outs@.len(),
                pending == pending_views(self.pending_tx_outs@),
                num_pending as nat == pending_token_totals(pending.take(i as int), token_id).0,
                pending_value as nat == pending_token_totals(pending.take(i as int), token_id).1,
                num_pending <= i,
                pending_value <= i * 0xFFFF_FFFF_FFFF_FFFFu64,
            decreases self.pending_tx_outs@.len() - i,
        {
            let amount = self.pending_tx_outs[i].matched_tx_out.amount;
            proof {
                assert(pending.take(i + 1).drop_last() =~= pending.take(i as int));
                assert(pending.take(i + 1).last() == pending[i as int]);
                assert(i < usize::MAX);
                assert((i + 1) * 0xFFFF_FFFF_FFFF_FFFFu64 == i * 0xFFFF_FFFF_FFFF_FFFFu64
                    + 0xFFFF_FFFF_FFFF_FFFFu64) by (nonlinear_arith);
                assert(i * 0xFFFF_FFFF_FFFF_FFFFu64 <= 0xFFFF_FFFF_FFFF_FFFEu64 as int
                    * 0xFFFF_FFFF_FFFF_FFFFu64) by (nonlinear_arith)
                    requires
                        i < 0xFFFF_FFFF_FFFF_FFFFu64,
                ;
            }
            if amount.token_id == token_id {
                num_pending = num_pending + 1;
                pending_value = pending_value + amount.value as u128;
            }
            i = i + 1;
        }
        proof {
            assert(pending.take(pending.len() as int) =~= pending);
        }
        let ghost listed = self.listed();
        let mut num_listed: u64 = 0;
        let mut listed_value: u128 = 0;
        let mut j: usize = 0;
        while j < self.listed_tx_outs.len()
            invariant
                0 <= j <= self.listed_tx_outs@.len(),
                listed == listed_views(self.listed_tx_outs@),
                num_listed as nat == listed_token_totals(listed.take(j as int), token_id).0,
                listed_value as nat == listed_token_totals(listed.take(j as int), token_id).1,
                num_listed <= j,
                listed_value <= j * 0xFFFF_FFFF_FFFF_FFFFu64,
            decreases self.listed_tx_outs@.len() - j,
        {
            let amount = self.listed_tx_outs[j].matched_tx_out.amount;
            proof {
                assert(listed.take(j + 1).drop_last() =~= listed.take(j as int));
                assert(listed.take(j + 1).last() == listed[j as int]);
                assert((j + 1) * 0xFFFF_FFFF_FFFF_FFFFu64 == j * 0xFFFF_FFFF_FFFF_FFFFu64
                    + 0xFFFF_FFFF_FFFF_FFFFu64) by (nonlinear_arith);
                assert(j * 0xFFFF_FFFF_FFFF_FFFFu64 <= 0xFFFF_FFFF_FFFF_FFFEu64 as int
                    * 0xFFFF_FFFF_FFFF_FFFFu64) by (nonlinear_arith)
                    requires
                        j < 0xFFFF_FFFF_FFFF_FFFFu64,
                ;
            }
            if amount.token_id == token_id {
                num_listed = num_listed + 1;
                listed_value = listed_value + amount.value as u128;
            }
            j = j + 1;
        }
        proof {
            assert(listed.take(listed.len() as int) =~= listed);
        }
        TokenStats {
            num_pending_tx_outs: num_pending,
            pending_tx_outs_value: pending_value,
            num_listed_tx_outs: num_listed,
            listed_tx_outs_value: listed_value,
        }
    }

    /// The SCIs to submit, one per pending output, in order.
    pub fn pending_scis(&self) -> (r: Vec<Sci>)
        ensures
            r@.len() == self.pending().len(),
            forall|i: int| 0 <= i < r@.len() ==> (#[trigger] r@[i])@ == self.pending()[i].sci,
    {
        let mut r: Vec<Sci> = Vec::new();
        let mut i: usize = 0;
        while i < self.pending_tx_outs.len()
            invariant
                0 <= i <= self.pending_tx_outs@.len(),
                r@.len() == i,
                forall|j: int| 0 <= j < i ==> (#[trigger] r@[j])@ == self.pending_tx_outs@[j].sci@,
            decreases self.pending_tx_outs@.len() - i,
        {
            r.push(self.pending_tx_outs[i].sci.clone());
            i = i + 1;
        }
        r
    }
}

/// Draws an index below `bound` with `rand`'s `gen_range` on the thread's generator; the
/// range must not be empty. Which index comes out is chance.
#[verifier::external_body]
fn random_index_below(bound: u64) -> (r: u64)
    requires
        bound > 0,
    ensures
        r < bound,
{
    rand::Rng::gen_range(&mut rand::thread_rng(), 0..bound)
}

/// The indices drawn so far after drawing `index`: unchanged when it was drawn already,
/// otherwise with `index` added at the end.
pub open spec fn with_drawn_index(indices: Seq<u64>, index: u64) -> Seq<u64> {
    if indices.contains(index) {
        indices
    } else {
        indices.push(index)
    }
}

/// The distinct ledger output indices drawn so far for the ring of an SCI.
pub struct RingIndices {
    indices: Vec<u64>,
}

impl RingIndices {
    /// The indices drawn so far, in the order they were first drawn.
    pub closed spec fn indices(self) -> Seq<u64> {
        self.indices@
    }

    /// No index occurs twice.
    pub open spec fn wf(self) -> bool {
        self.indices().no_duplicates()
    }

    /// No index drawn yet.
    pub fn new() -> (r: Self)
        ensures
            r.wf(),
            r.indices() == Seq::<u64>::empty(),
    {
        RingIndices { indices: Vec::new() }
    }

    /// Adds an index unless it was drawn already; tells whether it was added.
    pub fn offer(&mut self, index: u64) -> (r: bool)
        requires
            old(self).wf(),
        ensures
            final(self).wf(),
            r == !old(self).indices().contains(index),
            r ==> final(self).indices() == old(self).indices().push(index),
            !r ==> final(self).indices() == old(self).indices(),
    {
        let mut i: usize = 0;
        while i < self.indices.len()
            invariant
                0 <= i <= self.indices@.len(),
                self.indices@ == old(self).indices@,
                self.indices@.no_duplicates(),
                forall|j: int| 0 <= j < i ==> self.indices@[j] != index,
            decreases self.indices@.len() - i,
        {
            if self.indices[i] == index {
                return false;
            }
            i = i + 1;
        }
        let ghost before = self.indices@;
        self.indices.push(index);
        proof {
            assert forall|a: int, b: int|
                0 <= a < b < self.indices@.len() implies self.indices@[a] != self.indices@[b] by {
                if b == before.len() {
                    assert(self.indices@[a] == before[a]);
                }
            }
        }
        true
    }

    /// Draws an index below `num_txos` at random and adds it unless it was drawn already.
    pub fn draw(&mut self, num_txos: u64)
        requires
            old(self).wf(),
            num_txos > 0,
        ensures
            final(self).wf(),
            exists|index: u64|
                index < num_txos && final(self).indices() == #[trigger] with_drawn_index(
                    old(self).indices(),
                    index,
                ),
    {
        let index = random_index_below(num_txos);
        let _ = self.offer(index);
        assert(self.indices() == with_drawn_index(old(self).indices(), index));
    }

    /// Whether a whole ring has been drawn.
    pub fn is_complete(&self) -> (r: bool)
        ensures
            r == (self.indices().len() >= RING_SIZE),
    {
        self.indices.len() >= RING_SIZE
    }

    /// The ring: the drawn indices with the first replaced by the index of the output being
    /// offered.
    pub fn into_ring(self, own_index: u64) -> (r: Vec<u64>)
        requires
            self.indices().len() > 0,
        ensures
            r@ == self.indices().update(0, own_index),
    {
        let mut ring = self.indices;
        ring.set(0, own_index);
        ring
    }
}

/// A resubmission that cannot be sent loses no listed output: splitting off the due outputs
/// and putting them back afterwards leaves the same outputs listed.
pub proof fn lemma_split_then_restore_keeps_all(listed: Seq<ListedView>, now: u64)
    ensures
        (keep_if(listed, not_due_at(now)) + keep_if(
            listed,
            due_at(now),
        )).to_multiset() == listed.to_multiset(),
    decreases listed.len(),
{
    let stay = not_due_at(now);
    let due = due_at(now);
    broadcast use vstd::multiset::group_multiset_axioms;
    broadcast use vstd::seq_lib::group_to_multiset_ensures;
    if listed.len() > 0 {
        let rest = listed.drop_last();
        let x = listed.last();
        lemma_split_then_restore_keeps_all(rest, now);
        assert(listed =~= rest.push(x));
        let a = keep_if(rest, stay);
        let b = keep_if(rest, due);
        if due(x) {
            assert(keep_if(listed, due) == b.push(x));
            assert(keep_if(listed, stay) == a);
            assert(a + b.push(x) =~= (a + b).push(x));
        } else {
            assert(keep_if(listed, stay) == a.push(x));
            assert(keep_if(listed, due) == b);
            assert((a.push(x) + b).to_multiset() =~= (a + b).to_multiset().insert(x)) by {
                lemma_push_then_concat_multiset(a, b, x);
            }
        }
    } else {
        assert(keep_if(listed, stay) + keep_if(listed, due) =~= listed);
    }
}

/// Appending after pushing holds the same elements as pushing after appending.
proof fn lemma_push_then_concat_multiset(a: Seq<ListedView>, b: Seq<ListedView>, x: ListedView)
    ensures
        (a.push(x) + b).to_multiset() == (a + b).to_multiset().insert(x),
{
    broadcast use vstd::multiset::group_multiset_axioms;
    broadcast use vstd::seq_lib::group_to_multiset_ensures;
    vstd::seq_lib::lemma_multiset_commutative(a.push(x), b);
    vstd::seq_lib::lemma_multiset_commutative(a, b);
    assert(a.push(x) =~= a + seq![x]);
    vstd::seq_lib::lemma_multiset_commutative(a, seq![x]);
}

/// After the due outputs are taken out, none that stays listed is due, and every taken one is.
pub proof fn lemma_split_respects_due(listed: Seq<ListedView>, now: u64)
    ensures
        forall|k: int|
            0 <= k < keep_if(listed, not_due_at(now)).len()
                ==> !due_for_resubmit(
                #[trigger] keep_if(listed, not_due_at(now))[k],
                now,
            ),
        forall|k: int|
            0 <= k < keep_if(listed, due_at(now)).len()
                ==> due_for_resubmit(
                #[trigger] keep_if(listed, due_at(now))[k],
                now,
            ),
{
    lemma_keep_if_members(listed, not_due_at(now));
    lemma_keep_if_members(listed, due_at(now));
}

/// An output listed or relisted at `now` is not due for resubmission at `now`.
pub proof fn lemma_fresh_listing_not_due(l: ListedView, now: u64)
    requires
        l.last_submitted_at == now,
    ensures
        !due_for_resubmit(l, now),
{
}

} // verus!
