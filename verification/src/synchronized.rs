//! A quote book kept in step with the ledger: SCIs whose key image is already spent or
//! whose tombstone block has passed are refused, and a fetcher removes quotes as the ledger
//! grows. The ledger is read by the caller, which hands the answers in.

use vstd::prelude::*;
use crate::error::Error;
use crate::quote::{Quote, QuoteView, spec_terms};
use crate::quote_book::{
    InMemoryQuoteBook, unique_key_images, sci_admissible, add_sci_outcome, with_key_image,
    without_key_image, expired_at, alive_at, limited, offers, ids_of, of_pair, is_first_with_id,
    in_quote_order, offers_positive_amount, sorted,
};
use crate::range::U64Range;
use crate::sci::{Sci, SciView};
use crate::seq_filter::{views, keep_if};
use crate::types::{KeyImage, Pair, QuoteId};

verus! {

/// Whether an SCI must be refused as stale at the ledger's current block index: it has
/// input rules with a non-zero tombstone block that the current block has reached.
pub open spec fn tombstone_reached(s: SciView, current_block_index: u64) -> bool {
    match s.input_rules {
        Some(rules) => rules.max_tombstone_block != 0 && current_block_index
            >= rules.max_tombstone_block,
        None => false,
    }
}

/// What adding an SCI to the synchronized book yields, given the ledger's answers.
pub open spec fn sync_add_outcome(
    old: Seq<QuoteView>,
    new: Seq<QuoteView>,
    s: SciView,
    timestamp: Option<u64>,
    num_blocks: Result<u64, String>,
    key_image_in_ledger: Result<bool, String>,
    r: Result<Quote, Error>,
) -> bool {
    match num_blocks {
        Err(e) => new == old && (r matches Err(Error::ImplementationSpecific(m)) && m@ == e@),
        Ok(n) => if tombstone_reached(s, (n - 1) as u64) {
            new == old && r matches Err(Error::QuoteIsStale)
        } else {
            match key_image_in_ledger {
                Err(e) => new == old && (r matches Err(Error::ImplementationSpecific(m)) && m@ == e@),
                Ok(true) => new == old && r matches Err(Error::QuoteIsStale),
                Ok(false) => match timestamp {
                    Some(ts) => add_sci_outcome(old, new, s, ts, r),
                    None => (r matches Err(Error::Time) && new == old) || exists|ts: u64|
                        add_sci_outcome(old, new, s, ts, r),
                },
            }
        },
    }
}

/// A quote book synchronized with the ledger.
pub struct SynchronizedQuoteBook {
    /// The quote book being synchronized.
    quote_book: InMemoryQuoteBook,
    /// The highest ledger block whose key images and tombstones have been applied.
    highest_processed_block_index: u64,
}

impl SynchronizedQuoteBook {
    /// The quotes in the book.
    pub closed spec fn quotes(&self) -> Seq<QuoteView> {
        self.quote_book@
    }

    /// The highest block index processed so far.
    pub closed spec fn processed(&self) -> u64 {
        self.highest_processed_block_index
    }

    /// Create a synchronized book around a quote book; no block has been processed.
    pub fn new(quote_book: InMemoryQuoteBook) -> (r: Self)
        ensures
            r.quotes() == quote_book@,
            r.processed() == 0,
    {
        SynchronizedQuoteBook { quote_book, highest_processed_block_index: 0 }
    }

    /// The highest block index whose key images and tombstones have been applied.
    pub fn get_current_block_index(&self) -> (r: u64)
        ensures
            r == self.processed(),
    {
        self.highest_processed_block_index
    }

    /// Add an SCI unless the ledger shows it is stale. `num_blocks` is the ledger's number
    /// of blocks and `key_image_in_ledger` whether the SCI's key image is spent (each as the
    /// ledger answered it, or its error message).
    pub fn add_sci(
        &mut self,
        sci: Sci,
        timestamp: Option<u64>,
        num_blocks: Result<u64, String>,
        key_image_in_ledger: Result<bool, String>,
    ) -> (r: Result<Quote, Error>)
        requires
            sci@.consistent(),
            sci_admissible(old(self).quotes(), sci@, timestamp),
            num_blocks matches Ok(n) ==> n > 0,
        ensures
            sync_add_outcome(
                old(self).quotes(),
                final(self).quotes(),
                sci@,
                timestamp,
                num_blocks,
                key_image_in_ledger,
                r,
            ),
            final(self).processed() == old(self).processed(),
            unique_key_images(final(self).quotes()),
            in_quote_order(old(self).quotes()) && offers_positive_amount(sci@) ==> in_quote_order(
                final(self).quotes(),
            ),
    {
        proof {
            use_type_invariant(&self.quote_book);
        }
        let current_block_index = match num_blocks {
            Err(e) => {
                return Err(Error::ImplementationSpecific(e));
            },
            Ok(n) => n - 1,
        };
        match sci.max_tombstone_block() {
            Some(tombstone) => {
                if tombstone != 0 && current_block_index >= tombstone {
                    return Err(Error::QuoteIsStale);
                }
            },
            None => {},
        }
        match key_image_in_ledger {
            Err(e) => {
                return Err(Error::ImplementationSpecific(e));
            },
            Ok(true) => {
                return Err(Error::QuoteIsStale);
            },
            Ok(false) => {},
        }
        self.quote_book.add_sci(sci, timestamp)
    }

    /// Remove a single quote, identified by its id.
    pub fn remove_quote_by_id(&mut self, id: &QuoteId) -> (r: Result<Quote, Error>)
        ensures
            final(self).processed() == old(self).processed(),
            unique_key_images(final(self).quotes()),
            (exists|j: int| 0 <= j < old(self).quotes().len() && (#[trigger] old(self).quotes()[j]).id
                == *id) ==> exists|j: int|
                is_first_with_id(old(self).quotes(), *id, j) && r is Ok && r->Ok_0@ == old(
                    self,
                ).quotes()[j] && final(self).quotes() == old(self).quotes().remove(j),
            !(exists|j: int| 0 <= j < old(self).quotes().len() && (#[trigger] old(self).quotes()[j]).id
                == *id) ==> (r matches Err(Error::QuoteNotFound) && final(self).quotes() == old(
                self,
            ).quotes()),
            in_quote_order(old(self).quotes()) ==> in_quote_order(final(self).quotes()),
    {
        self.quote_book.remove_quote_by_id(id)
    }

    /// Remove all quotes holding a key image.
    pub fn remove_quotes_by_key_image(&mut self, key_image: &KeyImage) -> (r: Result<Vec<Quote>, Error>)
        ensures
            final(self).processed() == old(self).processed(),
            unique_key_images(final(self).quotes()),
            r is Ok,
            views(r->Ok_0@) == keep_if(old(self).quotes(), with_key_image(*key_image)),
            final(self).quotes() == keep_if(old(self).quotes(), without_key_image(*key_image)),
            in_quote_order(old(self).quotes()) ==> in_quote_order(final(self).quotes()),
    {
        self.quote_book.remove_quotes_by_key_image(key_image)
    }

    /// Remove all quotes expired at the current block.
    pub fn remove_quotes_by_tombstone_block(&mut self, current_block_index: u64) -> (r: Result<
        Vec<Quote>,
        Error,
    >)
        ensures
            final(self).processed() == old(self).processed(),
            unique_key_images(final(self).quotes()),
            r is Ok,
            views(r->Ok_0@) == keep_if(old(self).quotes(), expired_at(current_block_index)),
            final(self).quotes() == keep_if(old(self).quotes(), alive_at(current_block_index)),
            in_quote_order(old(self).quotes()) ==> in_quote_order(final(self).quotes()),
    {
        self.quote_book.remove_quotes_by_tombstone_block(current_block_index)
    }

    /// Search for quotes of a pair overlapping a range of base tokens.
    pub fn get_quotes(&self, pair: &Pair, base_token_quantity: &U64Range, limit: usize) -> (r: Result<
        Vec<Quote>,
        Error,
    >)
        ensures
            r is Ok,
            views(r->Ok_0@) == limited(keep_if(self.quotes(), offers(*pair, *base_token_quantity)), limit),
            in_quote_order(self.quotes()) ==> sorted(views(r->Ok_0@)),
    {
        self.quote_book.get_quotes(pair, base_token_quantity, limit)
    }

    /// The ids of the quotes of a pair, or of all quotes.
    pub fn get_quote_ids(&self, pair: Option<&Pair>) -> (r: Result<Vec<QuoteId>, Error>)
        ensures
            r is Ok,
            r->Ok_0@ == ids_of(keep_if(self.quotes(), of_pair(match pair {
                Some(p) => Some(*p),
                None => None,
            }))),
    {
        self.quote_book.get_quote_ids(pair)
    }

    /// The first quote with the given id, if any.
    pub fn get_quote_by_id(&self, id: &QuoteId) -> (r: Result<Option<Quote>, Error>)
        ensures
            r is Ok,
            (exists|j: int| 0 <= j < self.quotes().len() && (#[trigger] self.quotes()[j]).id == *id)
                ==> exists|j: int|
                is_first_with_id(self.quotes(), *id, j) && r->Ok_0 is Some && r->Ok_0->Some_0@
                    == self.quotes()[j],
            !(exists|j: int| 0 <= j < self.quotes().len() && (#[trigger] self.quotes()[j]).id == *id)
                ==> r->Ok_0 is None,
    {
        self.quote_book.get_quote_by_id(id)
    }

    /// The number of quotes in the book.
    pub fn num_scis(&self) -> (r: Result<u64, Error>)
        ensures
            r == Ok::<u64, Error>(self.quotes().len() as u64),
    {
        self.quote_book.num_scis()
    }
}

/// What the ledger answered when asked for the contents of a block.
pub enum BlockFetch {
    /// The key images spent in the block.
    Contents(Vec<KeyImage>),
    /// The block is not in the ledger yet.
    NotFound,
    /// Another ledger error, with its message.
    Failed(String),
}

/// The quotes left after removing, one key image after the other, those holding each of
/// `kis`.
pub open spec fn after_key_images(s: Seq<QuoteView>, kis: Seq<KeyImage>) -> Seq<QuoteView>
    decreases kis.len(),
{
    if kis.len() == 0 {
        s
    } else {
        after_key_images(keep_if(s, without_key_image(kis[0])), kis.drop_first())
    }
}

/// The batches of quotes removed, one per key image, when removing those holding each of
/// `kis` in turn.
pub open spec fn key_image_batches(s: Seq<QuoteView>, kis: Seq<KeyImage>) -> Seq<Seq<QuoteView>>
    decreases kis.len(),
{
    if kis.len() == 0 {
        Seq::empty()
    } else {
        seq![keep_if(s, with_key_image(kis[0]))] + key_image_batches(
            keep_if(s, without_key_image(kis[0])),
            kis.drop_first(),
        )
    }
}

/// The quotes holding none of the key images.
pub open spec fn holds_none_of(kis: Seq<KeyImage>) -> spec_fn(QuoteView) -> bool {
    |q: QuoteView| !kis.contains(q.sci.key_image)
}

/// Selecting twice is selecting by both predicates.
proof fn lemma_keep_if_twice(
    s: Seq<QuoteView>,
    p: spec_fn(QuoteView) -> bool,
    q: spec_fn(QuoteView) -> bool,
    pq: spec_fn(QuoteView) -> bool,
)
    requires
        forall|x: QuoteView| #[trigger] pq(x) == (p(x) && q(x)),
    ensures
        keep_if(keep_if(s, p), q) == keep_if(s, pq),
    decreases s.len(),
{
    if s.len() > 0 {
        lemma_keep_if_twice(s.drop_last(), p, q, pq);
        let r = keep_if(s.drop_last(), p);
        if p(s.last()) {
            assert(r.push(s.last()).drop_last() =~= r);
        }
    }
}

/// Selection by equivalent predicates is the same.
proof fn lemma_keep_if_same(s: Seq<QuoteView>, p: spec_fn(QuoteView) -> bool, q: spec_fn(QuoteView) -> bool)
    requires
        forall|x: QuoteView| #[trigger] p(x) == q(x),
    ensures
        keep_if(s, p) == keep_if(s, q),
    decreases s.len(),
{
    if s.len() > 0 {
        lemma_keep_if_same(s.drop_last(), p, q);
    }
}

/// Removing the quotes of each key image in turn leaves exactly the quotes holding none of
/// them.
pub proof fn lemma_after_key_images(s: Seq<QuoteView>, kis: Seq<KeyImage>)
    ensures
        after_key_images(s, kis) == keep_if(s, holds_none_of(kis)),
    decreases kis.len(),
{
    if kis.len() == 0 {
        lemma_keep_if_same(s, |q: QuoteView| true, holds_none_of(kis));
        assert(keep_if(s, |q: QuoteView| true) == s) by {
            lemma_keep_if_all(s);
        }
    } else {
        let t = keep_if(s, without_key_image(kis[0]));
        lemma_after_key_images(t, kis.drop_first());
        assert forall|x: QuoteView| #[trigger] holds_none_of(kis)(x) == (without_key_image(kis[0])(x)
            && holds_none_of(kis.drop_first())(x)) by {
            if kis.contains(x.sci.key_image) && x.sci.key_image != kis[0] {
                let k = choose|k: int| 0 <= k < kis.len() && kis[k] == x.sci.key_image;
                assert(kis.drop_first()[k - 1] == x.sci.key_image);
            }
            if kis.drop_first().contains(x.sci.key_image) {
                let k = choose|k: int| 0 <= k < kis.drop_first().len() && kis.drop_first()[k] == x.sci.key_image;
                assert(kis[k + 1] == x.sci.key_image);
            }
            if x.sci.key_image == kis[0] {
                assert(kis.contains(kis[0]));
            }
        }
        lemma_keep_if_twice(s, without_key_image(kis[0]), holds_none_of(kis.drop_first()), holds_none_of(kis));
    }
}

/// After a block is applied, no quote holding a key image spent in it is left.
pub proof fn lemma_spent_key_images_gone(s: Seq<QuoteView>, kis: Seq<KeyImage>)
    ensures
        forall|k: int|
            0 <= k < after_key_images(s, kis).len() ==> !kis.contains(
                (#[trigger] after_key_images(s, kis)[k]).sci.key_image,
            ),
{
    lemma_after_key_images(s, kis);
    crate::seq_filter::lemma_keep_if_members(s, holds_none_of(kis));
}

/// Selecting everything keeps the sequence.
proof fn lemma_keep_if_all(s: Seq<QuoteView>)
    ensures
        keep_if(s, |q: QuoteView| true) == s,
    decreases s.len(),
{
    if s.len() > 0 {
        lemma_keep_if_all(s.drop_last());
        assert(s.drop_last().push(s.last()) =~= s);
    }
}

/// The part of the synchronization thread that follows the ledger block by block.
pub struct DbFetcher {
    /// The next block to read from the ledger.
    next_block_index: u64,
}

impl DbFetcher {
    /// The next block to read.
    pub closed spec fn next(&self) -> u64 {
        self.next_block_index
    }

    /// A fetcher that starts at the highest block the book has processed.
    pub fn start(book: &SynchronizedQuoteBook) -> (r: Self)
        ensures
            r.next() == book.processed(),
    {
        DbFetcher { next_block_index: book.highest_processed_block_index }
    }

    /// The next block to read from the ledger.
    pub fn next_block_index(&self) -> (r: u64)
        ensures
            r == self.next(),
    {
        self.next_block_index
    }

    /// Apply what the ledger answered for the next block: for each key image spent in the
    /// block, remove the quotes holding it (each batch is handed to the removal callback),
    /// then move to the following block. Returns whether more block data may be waiting,
    /// and the batches of removed quotes.
    pub fn load_block_data(&mut self, book: &mut SynchronizedQuoteBook, fetched: BlockFetch) -> (r: (
        bool,
        Vec<Vec<Quote>>,
    ))
        requires
            old(self).next() < u64::MAX,
        ensures
            final(book).processed() == old(book).processed(),
            unique_key_images(final(book).quotes()),
            in_quote_order(old(book).quotes()) ==> in_quote_order(final(book).quotes()),
            match fetched {
                BlockFetch::NotFound => !r.0 && r.1@.len() == 0 && final(book).quotes() == old(
                    book,
                ).quotes() && final(self).next() == old(self).next(),
                BlockFetch::Failed(_) => r.0 && r.1@.len() == 0 && final(book).quotes() == old(
                    book,
                ).quotes() && final(self).next() == old(self).next(),
                BlockFetch::Contents(kis) => {
                    &&& r.0
                    &&& final(self).next() == old(self).next() + 1
                    &&& final(book).quotes() == after_key_images(old(book).quotes(), kis@)
                    &&& r.1@.len() == kis@.len()
                    &&& forall|i: int|
                        0 <= i < kis@.len() ==> views((#[trigger] r.1@[i])@) == key_image_batches(
                            old(book).quotes(),
                            kis@,
                        )[i]
                },
            },
    {
        proof {
            use_type_invariant(&book.quote_book);
        }
        match fetched {
            BlockFetch::NotFound => (false, Vec::new()),
            BlockFetch::Failed(_) => (true, Vec::new()),
            BlockFetch::Contents(kis) => {
                let ghost s0 = book.quotes();
                let mut batches: Vec<Vec<Quote>> = Vec::new();
                let mut i: usize = 0;
                proof {
                    assert(kis@.skip(0) =~= kis@);
                    assert(key_image_batches(s0, kis@) =~= key_image_batches(s0, kis@).take(0)
                        + key_image_batches(s0, kis@));
                }
                while i < kis.len()
                    invariant
                        0 <= i <= kis@.len(),
                        after_key_images(s0, kis@) == after_key_images(book.quotes(), kis@.skip(i as int)),
                        batches@.len() == i,
                        key_image_batches(s0, kis@) == key_image_batches(s0, kis@).take(i as int)
                            + key_image_batches(book.quotes(), kis@.skip(i as int)),
                        forall|j: int|
                            0 <= j < i ==> views((#[trigger] batches@[j])@) == key_image_batches(
                                s0,
                                kis@,
                            )[j],
                        unique_key_images(book.quotes()),
                        book.processed() == old(book).processed(),
                        in_quote_order(old(book).quotes()) ==> in_quote_order(book.quotes()),
                    decreases kis@.len() - i,
                {
                    let ghost before = book.quotes();
                    proof {
                        assert(kis@.skip(i as int)[0] == kis@[i as int]);
                        assert(kis@.skip(i as int).drop_first() =~= kis@.skip(i + 1));
                        lemma_batches_len(before, kis@.skip(i as int));
                    }
                    let removed = match book.remove_quotes_by_key_image(&kis[i]) {
                        Ok(v) => v,
                        Err(_) => Vec::new(),
                    };
                    proof {
                        lemma_batches_len(s0, kis@);
                        lemma_batches_len(book.quotes(), kis@.skip(i + 1));
                        assert(key_image_batches(before, kis@.skip(i as int)) =~= seq![views(removed@)]
                            + key_image_batches(book.quotes(), kis@.skip(i + 1)));
                        assert(key_image_batches(s0, kis@).take(i + 1) =~= key_image_batches(
                            s0,
                            kis@,
                        ).take(i as int).push(views(removed@)));
                        assert(key_image_batches(s0, kis@) =~= key_image_batches(s0, kis@).take(i + 1)
                            + key_image_batches(book.quotes(), kis@.skip(i + 1)));
                    }
                    batches.push(removed);
                    i = i + 1;
                }
                proof {
                    assert(kis@.skip(kis@.len() as int) =~= Seq::<KeyImage>::empty());
                }
                self.next_block_index = self.next_block_index + 1;
                (true, batches)
            },
        }
    }

    /// End of a pass over new blocks: if any block was applied since `starting_block_index`,
    /// remove the quotes expired at the last applied block and record that block as
    /// processed; returns the removed quotes for the removal callback.
    pub fn finish_pass(&mut self, book: &mut SynchronizedQuoteBook, starting_block_index: u64) -> (r:
        Option<Vec<Quote>>)
        requires
            starting_block_index <= old(self).next(),
        ensures
            final(self).next() == old(self).next(),
            unique_key_images(final(book).quotes()),
            in_quote_order(old(book).quotes()) ==> in_quote_order(final(book).quotes()),
            old(self).next() == starting_block_index ==> r is None && final(book).quotes() == old(
                book,
            ).quotes() && final(book).processed() == old(book).processed(),
            old(self).next() != starting_block_index ==> {
                &&& r is Some
                &&& final(book).processed() == old(self).next() - 1
                &&& views(r->Some_0@) == keep_if(
                    old(book).quotes(),
                    expired_at((old(self).next() - 1) as u64),
                )
                &&& final(book).quotes() == keep_if(
                    old(book).quotes(),
                    alive_at((old(self).next() - 1) as u64),
                )
            },
    {
        proof {
            use_type_invariant(&book.quote_book);
        }
        if self.next_block_index == starting_block_index {
            return None;
        }
        let last_processed_block_index = self.next_block_index - 1;
        let removed = match book.remove_quotes_by_tombstone_block(last_processed_block_index) {
            Ok(v) => v,
            Err(_) => Vec::new(),
        };
        book.highest_processed_block_index = last_processed_block_index;
        Some(removed)
    }
}

/// There is one batch per key image.
proof fn lemma_batches_len(s: Seq<QuoteView>, kis: Seq<KeyImage>)
    ensures
        key_image_batches(s, kis).len() == kis.len(),
    decreases kis.len(),
{
    if kis.len() > 0 {
        lemma_batches_len(keep_if(s, without_key_image(kis[0])), kis.drop_first());
    }
}

} // verus!
