//! The API's messages for quote ids, order ids, pairs and quotes, their conversions from
//! and to the library's values, and the status code reported for a quote book error.

use vstd::prelude::*;
use vstd::std_specs::convert::{FromSpecImpl, TryFromSpecImpl};
use crate::error::Error;
use crate::quote::{Quote, QuoteView};
use crate::range::InclusiveRange;
use crate::sci::{Sci, SciView};
use crate::types::{OrderId, Pair, QuoteId, bytes32_from_slice};

verus! {

/// Why an API message does not convert to a library value.
#[derive(Clone, Copy, Debug, PartialEq, Eq, Structural)]
pub enum ConversionError {
    /// A byte array has the wrong length.
    ArrayCastError,
}

/// The API message carrying a quote id.
#[derive(Clone, Debug, Default, PartialEq, Eq)]
pub struct ApiQuoteId {
    pub data: Vec<u8>,
}

/// The API message carrying an order id.
#[derive(Clone, Debug, Default, PartialEq, Eq)]
pub struct ApiOrderId {
    pub data: Vec<u8>,
}

/// The API message carrying a pair.
#[derive(Clone, Copy, Debug, Default, PartialEq, Eq)]
pub struct ApiPair {
    pub base_token_id: u64,
    pub counter_token_id: u64,
}

/// The API message carrying a quote.
#[derive(Debug, PartialEq)]
pub struct ApiQuote {
    pub sci: Sci,
    pub id: ApiQuoteId,
    pub pair: ApiPair,
    pub base_range_min: u64,
    pub base_range_max: u64,
    pub max_counter_tokens: u64,
    pub timestamp: u64,
}

/// The value of a quote message.
pub struct ApiQuoteView {
    pub sci: SciView,
    pub id: Seq<u8>,
    pub pair: ApiPair,
    pub base_range_min: u64,
    pub base_range_max: u64,
    pub max_counter_tokens: u64,
    pub timestamp: u64,
}

impl View for ApiQuote {
    type V = ApiQuoteView;

    open spec fn view(&self) -> ApiQuoteView {
        ApiQuoteView {
            sci: self.sci@,
            id: self.id.data@,
            pair: self.pair,
            base_range_min: self.base_range_min,
            base_range_max: self.base_range_max,
            max_counter_tokens: self.max_counter_tokens,
            timestamp: self.timestamp,
        }
    }
}

/// Whether a quote carries exactly what a quote message describes.
pub open spec fn describes(msg: ApiQuoteView, q: QuoteView) -> bool {
    &&& q.sci == msg.sci
    &&& q.id.bytes() == msg.id
    &&& q.pair == Pair {
        base_token_id: msg.pair.base_token_id,
        counter_token_id: msg.pair.counter_token_id,
    }
    &&& q.base_range == InclusiveRange { start: msg.base_range_min, end: msg.base_range_max }
    &&& q.max_counter_tokens == msg.max_counter_tokens
    &&& q.timestamp == msg.timestamp
}

/// The reply to a request that submits quotes: for each submitted SCI, in order, a status, an
/// error message and the quote the service holds for it.
pub struct SubmitQuotesResponse {
    pub status_codes: Vec<QuoteStatusCode>,
    pub error_messages: Vec<String>,
    pub quotes: Vec<ApiQuote>,
}

/// The status reported for each submitted quote.
#[derive(Clone, Copy, Debug, PartialEq, Eq, Structural)]
#[allow(non_camel_case_types)]
pub enum QuoteStatusCode {
    CREATED,
    INVALID_SCI,
    UNSUPPORTED_SCI,
    QUOTE_ALREADY_EXISTS,
    QUOTE_IS_STALE,
    OTHER,
}

impl<'a> From<&'a QuoteId> for ApiQuoteId {
    fn from(src: &'a QuoteId) -> (r: Self)
        ensures
            r.data@ == src.bytes(),
    {
        ApiQuoteId { data: src.to_vec() }
    }
}

impl<'a> FromSpecImpl<&'a QuoteId> for ApiQuoteId {
    open spec fn obeys_from_spec() -> bool {
        false
    }

    open spec fn from_spec(v: &'a QuoteId) -> Self {
        arbitrary()
    }
}

impl<'a> From<&'a OrderId> for ApiOrderId {
    fn from(src: &'a OrderId) -> (r: Self)
        ensures
            r.data@ == src.bytes(),
    {
        ApiOrderId { data: src.to_vec() }
    }
}

impl<'a> FromSpecImpl<&'a OrderId> for ApiOrderId {
    open spec fn obeys_from_spec() -> bool {
        false
    }

    open spec fn from_spec(v: &'a OrderId) -> Self {
        arbitrary()
    }
}

/// A quote id from its bytes, which must be exactly 32.
pub fn quote_id_from_bytes(bytes: &[u8]) -> (r: Result<QuoteId, ConversionError>)
    ensures
        bytes@.len() == 32 ==> r is Ok && r->Ok_0.bytes() == bytes@,
        bytes@.len() != 32 ==> r == Err::<QuoteId, ConversionError>(ConversionError::ArrayCastError),
{
    if bytes.len() != 32 {
        return Err(ConversionError::ArrayCastError);
    }
    Ok(QuoteId(bytes32_from_slice(bytes)))
}

/// An order id from its bytes, which must be exactly 32.
pub fn order_id_from_bytes(bytes: &[u8]) -> (r: Result<OrderId, ConversionError>)
    ensures
        bytes@.len() == 32 ==> r is Ok && r->Ok_0.bytes() == bytes@,
        bytes@.len() != 32 ==> r == Err::<OrderId, ConversionError>(ConversionError::ArrayCastError),
{
    if bytes.len() != 32 {
        return Err(ConversionError::ArrayCastError);
    }
    Ok(OrderId(bytes32_from_slice(bytes)))
}

impl<'a> TryFrom<&'a ApiQuoteId> for QuoteId {
    type Error = ConversionError;

    fn try_from(source: &'a ApiQuoteId) -> (r: Result<QuoteId, ConversionError>)
        ensures
            source.data@.len() == 32 ==> r is Ok && r->Ok_0.bytes() == source.data@,
            source.data@.len() != 32 ==> r == Err::<QuoteId, ConversionError>(
                ConversionError::ArrayCastError,
            ),
    {
        quote_id_from_bytes(source.data.as_slice())
    }
}

impl<'a> TryFromSpecImpl<&'a ApiQuoteId> for QuoteId {
    open spec fn obeys_try_from_spec() -> bool {
        false
    }

    open spec fn try_from_spec(v: &'a ApiQuoteId) -> Result<Self, Self::Error> {
        arbitrary()
    }
}

impl<'a> TryFrom<&'a ApiOrderId> for OrderId {
    type Error = ConversionError;

    fn try_from(source: &'a ApiOrderId) -> (r: Result<OrderId, ConversionError>)
        ensures
            source.data@.len() == 32 ==> r is Ok && r->Ok_0.bytes() == source.data@,
            source.data@.len() != 32 ==> r == Err::<OrderId, ConversionError>(
                ConversionError::ArrayCastError,
            ),
    {
        order_id_from_bytes(source.data.as_slice())
    }
}

impl<'a> TryFromSpecImpl<&'a ApiOrderId> for OrderId {
    open spec fn obeys_try_from_spec() -> bool {
        false
    }

    open spec fn try_from_spec(v: &'a ApiOrderId) -> Result<Self, Self::Error> {
        arbitrary()
    }
}

impl<'a> From<&'a Pair> for ApiPair {
    fn from(src: &'a Pair) -> (r: Self)
        ensures
            r.base_token_id == src.base_token_id,
            r.counter_token_id == src.counter_token_id,
    {
        ApiPair { base_token_id: src.base_token_id, counter_token_id: src.counter_token_id }
    }
}

impl<'a> FromSpecImpl<&'a Pair> for ApiPair {
    open spec fn obeys_from_spec() -> bool {
        true
    }

    open spec fn from_spec(v: &'a Pair) -> Self {
        ApiPair { base_token_id: v.base_token_id, counter_token_id: v.counter_token_id }
    }
}

impl<'a> From<&'a ApiPair> for Pair {
    fn from(source: &'a ApiPair) -> (r: Self)
        ensures
            r.base_token_id == source.base_token_id,
            r.counter_token_id == source.counter_token_id,
    {
        Pair { base_token_id: source.base_token_id, counter_token_id: source.counter_token_id }
    }
}

impl<'a> FromSpecImpl<&'a ApiPair> for Pair {
    open spec fn obeys_from_spec() -> bool {
        true
    }

    open spec fn from_spec(v: &'a ApiPair) -> Self {
        Pair { base_token_id: v.base_token_id, counter_token_id: v.counter_token_id }
    }
}

/// The API message for a quote.
pub fn quote_to_api(src: &Quote) -> (r: ApiQuote)
    ensures
        r.sci@ == src@.sci,
        r.id.data@ == src@.id.bytes(),
        r.pair.base_token_id == src@.pair.base_token_id,
        r.pair.counter_token_id == src@.pair.counter_token_id,
        r.base_range_min == src@.base_range.start,
        r.base_range_max == src@.base_range.end,
        r.max_counter_tokens == src@.max_counter_tokens,
        r.timestamp == src@.timestamp,
{
    let range = src.base_range();
    ApiQuote {
        sci: src.sci().clone(),
        id: ApiQuoteId::from(src.id()),
        pair: ApiPair::from(src.pair()),
        base_range_min: range.start,
        base_range_max: range.end,
        max_counter_tokens: src.max_counter_tokens(),
        timestamp: src.timestamp(),
    }
}

/// The quote that an API message carries; its id must be 32 bytes long.
pub fn quote_from_api(source: &ApiQuote) -> (r: Result<Quote, ConversionError>)
    ensures
        source.id.data@.len() != 32 ==> r == Err::<Quote, ConversionError>(
            ConversionError::ArrayCastError,
        ),
        source.id.data@.len() == 32 ==> r is Ok && r->Ok_0@ == (QuoteView {
            sci: source.sci@,
            id: r->Ok_0@.id,
            pair: Pair {
                base_token_id: source.pair.base_token_id,
                counter_token_id: source.pair.counter_token_id,
            },
            base_range: InclusiveRange { start: source.base_range_min, end: source.base_range_max },
            max_counter_tokens: source.max_counter_tokens,
            timestamp: source.timestamp,
        }) && r->Ok_0@.id.bytes() == source.id.data@,
        r is Ok ==> describes(source@, r->Ok_0@),
{
    let id = match QuoteId::try_from(&source.id) {
        Ok(id) => id,
        Err(e) => {
            return Err(e);
        },
    };
    let sci = source.sci.clone();
    let pair = Pair::from(&source.pair);
    let base_range = InclusiveRange { start: source.base_range_min, end: source.base_range_max };
    Ok(
        Quote::new_from_fields(
            sci,
            id,
            pair,
            base_range,
            source.max_counter_tokens,
            source.timestamp,
        ),
    )
}

/// A quote survives the trip through its API message unchanged.
pub proof fn lemma_quote_api_roundtrip(q: QuoteView, msg_id: Seq<u8>, back: QuoteView)
    requires
        msg_id == q.id.bytes(),
        back.id.bytes() == msg_id,
        back.sci == q.sci,
        back.pair == q.pair,
        back.base_range == q.base_range,
        back.max_counter_tokens == q.max_counter_tokens,
        back.timestamp == q.timestamp,
    ensures
        back == q,
{
    assert(back.id.0 =~= q.id.0);
}

/// The status code reported for a quote book error.
pub fn status_code_of(src: &Error) -> (r: QuoteStatusCode)
    ensures
        r == (match src {
            Error::Sci(_) => QuoteStatusCode::INVALID_SCI,
            Error::UnsupportedSci(_) => QuoteStatusCode::UNSUPPORTED_SCI,
            Error::QuoteAlreadyExists { .. } => QuoteStatusCode::QUOTE_ALREADY_EXISTS,
            _ => QuoteStatusCode::OTHER,
        }),
{
    match src {
        Error::Sci(_) => QuoteStatusCode::INVALID_SCI,
        Error::UnsupportedSci(_) => QuoteStatusCode::UNSUPPORTED_SCI,
        Error::QuoteAlreadyExists { .. } => QuoteStatusCode::QUOTE_ALREADY_EXISTS,
        _ => QuoteStatusCode::OTHER,
    }
}

/// The URI scheme of a DEQS client connection.
#[derive(Clone, Copy, Debug, Hash, PartialEq, Eq, PartialOrd, Ord)]
pub struct DeqsClientScheme {}

impl DeqsClientScheme {
    /// Default port of a secure connection.
    pub const DEFAULT_SECURE_PORT: u16 = 443;

    /// Default port of an insecure connection.
    pub const DEFAULT_INSECURE_PORT: u16 = 7000;

    /// The part before `://` of a secure URI.
    pub fn scheme_secure() -> (r: &'static str)
        ensures
            r@ == "deqs"@,
    {
        "deqs"
    }

    /// The part before `://` of an insecure URI.
    pub fn scheme_insecure() -> (r: &'static str)
        ensures
            r@ == "insecure-deqs"@,
    {
        "insecure-deqs"
    }
}

} // verus!
