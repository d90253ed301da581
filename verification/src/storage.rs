//! The row in which a quote is stored in SQLite, its conversions from and to a quote, and
//! the decisions the SQLite quote book takes on the database's answers.

use vstd::prelude::*;
use crate::error::{Error, dec_str};
use crate::quote::{Quote, QuoteView};
use crate::range::InclusiveRange;
use crate::sci::Sci;
use crate::types::{Pair, QuoteId, bytes32_from_slice, bytes32_to_vec};
use crate::vec_u64::VecU64;

verus! {

/// A quote as stored in the `quotes` table.
#[derive(Debug)]
pub struct QuoteRow {
    pub id: Vec<u8>,
    pub sci_protobuf: Vec<u8>,
    pub base_token_id: i64,
    pub counter_token_id: i64,
    pub base_range_min: VecU64,
    pub base_range_max: VecU64,
    pub max_counter_tokens: VecU64,
    pub timestamp: i64,
    pub key_image: Vec<u8>,
    pub tombstone_block: i64,
}

/// Renders the message for a stored id of the wrong length; `{}` in `format!` writes an
/// unsigned integer in decimal.
#[verifier::external_body]
fn bad_id_length_message(len: usize) -> (r: String)
    ensures
        r@ == "Expected 32 bytes quote id, found "@ + dec_str(len as nat) + " bytes instead"@,
{
    format!("Expected 32 bytes quote id, found {} bytes instead", len)
}

impl QuoteRow {
    /// The row that stores a quote, with `sci_protobuf` the protobuf encoding of its SCI.
    /// A quote without a tombstone (no input rules) is stored with tombstone 0.
    pub fn from_quote(quote: &Quote, sci_protobuf: Vec<u8>) -> (r: QuoteRow)
        ensures
            r.id@ == quote@.id.bytes(),
            r.sci_protobuf@ == sci_protobuf@,
            r.base_token_id == quote@.pair.base_token_id as i64,
            r.counter_token_id == quote@.pair.counter_token_id as i64,
            r.base_range_min.value() == quote@.base_range.start,
            r.base_range_max.value() == quote@.base_range.end,
            r.max_counter_tokens.value() == quote@.max_counter_tokens,
            r.timestamp == quote@.timestamp as i64,
            r.key_image@ == quote@.sci.key_image.bytes(),
            r.tombstone_block == (match quote@.sci.input_rules {
                Some(rules) => rules.max_tombstone_block,
                None => 0,
            }) as i64,
    {
        let pair = *quote.pair();
        let range = *quote.base_range();
        let tombstone: u64 = match quote.max_tombstone_block() {
            Some(t) => t,
            None => 0,
        };
        let key_image = quote.key_image();
        QuoteRow {
            id: quote.id().to_vec(),
            sci_protobuf,
            base_token_id: pair.base_token_id as i64,
            counter_token_id: pair.counter_token_id as i64,
            base_range_min: VecU64::new(range.start),
            base_range_max: VecU64::new(range.end),
            max_counter_tokens: VecU64::new(quote.max_counter_tokens()),
            timestamp: quote.timestamp() as i64,
            key_image: bytes32_to_vec(&key_image.0),
            tombstone_block: tombstone as i64,
        }
    }

    /// The stored quote id, which must be 32 bytes long.
    pub fn id(&self) -> (r: Result<QuoteId, Error>)
        ensures
            self.id@.len() == 32 ==> r is Ok && r->Ok_0.bytes() == self.id@,
            self.id@.len() != 32 ==> (r matches Err(Error::ImplementationSpecific(m)) && m@
                == "Expected 32 bytes quote id, found "@ + dec_str(self.id@.len()) + " bytes instead"@),
    {
        if self.id.len() != 32 {
            return Err(Error::ImplementationSpecific(bad_id_length_message(self.id.len())));
        }
        Ok(QuoteId(bytes32_from_slice(self.id.as_slice())))
    }

    /// The stored base token id.
    pub fn base_token_id(&self) -> (r: u64)
        ensures
            r == self.base_token_id as u64,
    {
        self.base_token_id as u64
    }

    /// The stored counter token id.
    pub fn counter_token_id(&self) -> (r: u64)
        ensures
            r == self.counter_token_id as u64,
    {
        self.counter_token_id as u64
    }

    /// The stored pair.
    pub fn pair(&self) -> (r: Pair)
        ensures
            r.base_token_id == self.base_token_id as u64,
            r.counter_token_id == self.counter_token_id as u64,
    {
        Pair { base_token_id: self.base_token_id(), counter_token_id: self.counter_token_id() }
    }

    /// The stored base range.
    pub fn base_range(&self) -> (r: InclusiveRange)
        ensures
            r.start == self.base_range_min.value(),
            r.end == self.base_range_max.value(),
    {
        InclusiveRange { start: self.base_range_min.get(), end: self.base_range_max.get() }
    }

    /// The stored maximum of counter tokens.
    pub fn max_counter_tokens(&self) -> (r: u64)
        ensures
            r == self.max_counter_tokens.value(),
    {
        self.max_counter_tokens.get()
    }

    /// The stored timestamp.
    pub fn timestamp(&self) -> (r: u64)
        ensures
            r == self.timestamp as u64,
    {
        self.timestamp as u64
    }

    /// The quote that the row stores, given the outcome of decoding `sci_protobuf`.
    pub fn to_quote(&self, decoded_sci: Result<Sci, String>) -> (r: Result<Quote, Error>)
        ensures
            self.id@.len() != 32 ==> (r matches Err(Error::ImplementationSpecific(m)) && m@
                == "Expected 32 bytes quote id, found "@ + dec_str(self.id@.len()) + " bytes instead"@),
            self.id@.len() == 32 ==> match decoded_sci {
                Err(e) => r matches Err(Error::ImplementationSpecific(m)) && m@ == e@,
                Ok(sci) => r is Ok && r->Ok_0@ == (QuoteView {
                    sci: sci@,
                    id: r->Ok_0@.id,
                    pair: Pair {
                        base_token_id: self.base_token_id as u64,
                        counter_token_id: self.counter_token_id as u64,
                    },
                    base_range: InclusiveRange {
                        start: self.base_range_min.value(),
                        end: self.base_range_max.value(),
                    },
                    max_counter_tokens: self.max_counter_tokens.value(),
                    timestamp: self.timestamp as u64,
                }) && r->Ok_0@.id.bytes() == self.id@,
            },
    {
        let id = match self.id() {
            Ok(id) => id,
            Err(e) => {
                return Err(e);
            },
        };
        let sci = match decoded_sci {
            Ok(sci) => sci,
            Err(e) => {
                return Err(Error::ImplementationSpecific(e));
            },
        };
        Ok(
            Quote::new_from_fields(
                sci,
                id,
                self.pair(),
                self.base_range(),
                self.max_counter_tokens(),
                self.timestamp(),
            ),
        )
    }
}

/// Storing a quote and reading it back, with its SCI decoded to the same value, gives the
/// same quote.
pub proof fn lemma_row_roundtrip(q: QuoteView, row: QuoteRow, back: QuoteView)
    requires
        row.id@ == q.id.bytes(),
        row.base_token_id == q.pair.base_token_id as i64,
        row.counter_token_id == q.pair.counter_token_id as i64,
        row.base_range_min.value() == q.base_range.start,
        row.base_range_max.value() == q.base_range.end,
        row.max_counter_tokens.value() == q.max_counter_tokens,
        row.timestamp == q.timestamp as i64,
        back.sci == q.sci,
        back.id.bytes() == row.id@,
        back.pair == (Pair {
            base_token_id: row.base_token_id as u64,
            counter_token_id: row.counter_token_id as u64,
        }),
        back.base_range == (InclusiveRange {
            start: row.base_range_min.value(),
            end: row.base_range_max.value(),
        }),
        back.max_counter_tokens == row.max_counter_tokens.value(),
        back.timestamp == row.timestamp as u64,
    ensures
        back == q,
{
    let b = q.pair.base_token_id;
    let c = q.pair.counter_token_id;
    let t = q.timestamp;
    assert((b as i64) as u64 == b) by (bit_vector);
    assert((c as i64) as u64 == c) by (bit_vector);
    assert((t as i64) as u64 == t) by (bit_vector);
    assert(back.id.0 =~= q.id.0);
}

/// What deleting a quote by id did: exactly one row must go.
pub fn check_deleted_count(num_deleted: usize) -> (r: Result<(), Error>)
    ensures
        num_deleted == 0 ==> r matches Err(Error::QuoteNotFound),
        num_deleted == 1 ==> r is Ok,
        num_deleted > 1 ==> (r matches Err(Error::ImplementationSpecific(m)) && m@
            == "Deleted more than one quote"@),
{
    if num_deleted == 0 {
        Err(Error::QuoteNotFound)
    } else if num_deleted == 1 {
        Ok(())
    } else {
        Err(Error::ImplementationSpecific("Deleted more than one quote".to_owned()))
    }
}

/// An error inside a storage transaction.
#[derive(Debug)]
pub enum StorageError {
    /// A database error, with its message.
    Diesel(String),
    /// A quote book error.
    QuoteBook(Error),
    /// A connection pool error, with its message.
    R2d2(String),
}

/// The quote book error that a storage error becomes.
pub fn into_quote_book_error(e: StorageError) -> (r: Error)
    ensures
        e matches StorageError::Diesel(m) ==> (r matches Error::ImplementationSpecific(x) && x@
            == "diesel error: "@ + m@),
        e matches StorageError::R2d2(m) ==> (r matches Error::ImplementationSpecific(x) && x@
            == "r2d2 error: "@ + m@),
        e matches StorageError::QuoteBook(inner) ==> r == inner,
{
    match e {
        StorageError::Diesel(m) => {
            let mut s = "diesel error: ".to_owned();
            s.append(m.as_str());
            Error::ImplementationSpecific(s)
        },
        StorageError::QuoteBook(inner) => inner,
        StorageError::R2d2(m) => {
            let mut s = "r2d2 error: ".to_owned();
            s.append(m.as_str());
            Error::ImplementationSpecific(s)
        },
    }
}

} // verus!
