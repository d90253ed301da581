//! A naive in-memory quote book: all quotes, kept in the quote order (grouped by pair, best
//! exchange rate first), with at most one quote per key image and pair.

use vstd::prelude::*;
use crate::error::Error;
use crate::quote::{Quote, QuoteView, quote_order, spec_terms, quote_of, reports, new_outcome};
use crate::range::{RangeBound, U64Range, have_common_value, range_overlaps};
use crate::sci::{Sci, SciView};
use crate::seq_filter::{views, keep_if, lemma_keep_if_step, lemma_keep_if_members, lemma_keep_if_complete, lemma_keep_if_prefix, lemma_take_all, lemma_views_push, is_prefix};
use crate::tombstone::{tombstone_expired, validate_tombstone, MAX_TOMBSTONE_BLOCKS};
use crate::types::{KeyImage, Pair, QuoteId};

verus! {

/// No two quotes of one pair share a key image.
pub open spec fn unique_key_images(s: Seq<QuoteView>) -> bool {
    forall|i: int, j: int|
        0 <= i < s.len() && 0 <= j < s.len() && i != j && (#[trigger] s[i]).pair == (#[trigger] s[j]).pair
            ==> s[i].sci.key_image != s[j].sci.key_image
}

/// Whether two quotes occupy the same slot: the same pair and the same key image.
pub open spec fn same_slot(a: QuoteView, b: QuoteView) -> bool {
    a.pair == b.pair && a.sci.key_image == b.sci.key_image
}

/// No quote of the book ranks equal to `q` in the quote order unless it occupies the same
/// slot (such a quote could not be told apart from `q` by the order).
pub open spec fn no_rank_clash(s: Seq<QuoteView>, q: QuoteView) -> bool {
    forall|i: int| 0 <= i < s.len() && quote_order(q, #[trigger] s[i]) == 0 ==> same_slot(s[i], q)
}

/// `k` is where `q` goes in `s`: before the first quote that ranks after it.
pub open spec fn is_insertion_index(s: Seq<QuoteView>, q: QuoteView, k: int) -> bool {
    &&& 0 <= k <= s.len()
    &&& forall|j: int| 0 <= j < k ==> quote_order(q, #[trigger] s[j]) != -1
    &&& k < s.len() ==> quote_order(q, s[k]) == -1
}

/// What adding `q` to a book holding `old` yields: the quote already in its slot is
/// reported and the book is unchanged, or `q` is inserted at its place and returned.
pub open spec fn add_outcome(
    old: Seq<QuoteView>,
    new: Seq<QuoteView>,
    q: QuoteView,
    r: Result<Quote, Error>,
) -> bool {
    if exists|j: int| 0 <= j < old.len() && same_slot(#[trigger] old[j], q) {
        &&& new == old
        &&& r matches Err(Error::QuoteAlreadyExists { existing_quote })
        &&& exists|j: int| 0 <= j < old.len() && same_slot(#[trigger] old[j], q) && (*existing_quote)@ == old[j]
    } else {
        &&& r is Ok
        &&& r->Ok_0@ == q
        &&& exists|k: int| is_insertion_index(old, q, k) && new == old.insert(k, q)
    }
}

/// Whether adding the quote that `sci` becomes can be done without two distinct quotes
/// ranking equal: for the given timestamp, or for every timestamp when none is given.
pub open spec fn sci_admissible(book: Seq<QuoteView>, s: SciView, timestamp: Option<u64>) -> bool {
    match spec_terms(s) {
        Ok(t) => match timestamp {
            Some(ts) => no_rank_clash(book, quote_of(s, t, ts)),
            None => forall|ts: u64| no_rank_clash(book, #[trigger] quote_of(s, t, ts)),
        },
        Err(_) => true,
    }
}

/// What adding an SCI at a timestamp yields.
pub open spec fn add_sci_outcome(
    old: Seq<QuoteView>,
    new: Seq<QuoteView>,
    s: SciView,
    timestamp: u64,
    r: Result<Quote, Error>,
) -> bool {
    match spec_terms(s) {
        Ok(t) => add_outcome(old, new, quote_of(s, t, timestamp), r),
        Err(rej) => reports(r, rej) && new == old,
    }
}

/// The quotes holding a key image.
pub open spec fn with_key_image(ki: KeyImage) -> spec_fn(QuoteView) -> bool {
    |q: QuoteView| q.sci.key_image == ki
}

/// The quotes not holding a key image.
pub open spec fn without_key_image(ki: KeyImage) -> spec_fn(QuoteView) -> bool {
    |q: QuoteView| q.sci.key_image != ki
}

/// Whether a quote's SCI can no longer be spent at the current block: it has input rules
/// with a non-zero tombstone block that the tombstone rule rejects. A zero tombstone block
/// sets no limit.
pub open spec fn quote_expired(q: QuoteView, current_block_index: u64) -> bool {
    match q.sci.input_rules {
        Some(rules) => rules.max_tombstone_block != 0 && tombstone_expired(
            current_block_index,
            rules.max_tombstone_block,
        ),
        None => false,
    }
}

/// The quotes expired at a block.
pub open spec fn expired_at(current_block_index: u64) -> spec_fn(QuoteView) -> bool {
    |q: QuoteView| quote_expired(q, current_block_index)
}

/// The quotes still alive at a block.
pub open spec fn alive_at(current_block_index: u64) -> spec_fn(QuoteView) -> bool {
    |q: QuoteView| !quote_expired(q, current_block_index)
}

/// Whether some amount of the requested range of base tokens lies in a quote's base range
/// (an empty request overlaps no quote).
pub open spec fn overlaps_base_range(x: U64Range, q: QuoteView) -> bool {
    have_common_value(
        x,
        U64Range {
            start: RangeBound::Included(q.base_range.start),
            end: RangeBound::Included(q.base_range.end),
        },
    )
}

/// The quotes of a pair whose base range overlaps a requested range.
pub open spec fn offers(pair: Pair, range: U64Range) -> spec_fn(QuoteView) -> bool {
    |q: QuoteView| q.pair == pair && overlaps_base_range(range, q)
}

/// The quotes of a pair, or all quotes.
pub open spec fn of_pair(pair: Option<Pair>) -> spec_fn(QuoteView) -> bool {
    |q: QuoteView|
        match pair {
            Some(p) => q.pair == p,
            None => true,
        }
}

/// The first `limit` quotes, or all of them when `limit` is zero.
pub open spec fn limited(m: Seq<QuoteView>, limit: usize) -> Seq<QuoteView> {
    if limit == 0 || m.len() <= limit {
        m
    } else {
        m.take(limit as int)
    }
}

/// `j` is the first position of a quote with the given id.
pub open spec fn is_first_with_id(s: Seq<QuoteView>, id: QuoteId, j: int) -> bool {
    &&& 0 <= j < s.len()
    &&& s[j].id == id
    &&& forall|k: int| 0 <= k < j ==> (#[trigger] s[k]).id != id
}

/// The ids of a sequence of quotes.
pub open spec fn ids_of(s: Seq<QuoteView>) -> Seq<QuoteId> {
    s.map_values(|q: QuoteView| q.id)
}

/// The quotes are in the quote order.
pub open spec fn sorted(s: Seq<QuoteView>) -> bool {
    forall|i: int, j: int| 0 <= i < j < s.len() ==> quote_order(#[trigger] s[i], #[trigger] s[j]) <= 0
}

/// Every quote offers a positive maximum amount of base tokens.
pub open spec fn positive_base(s: Seq<QuoteView>) -> bool {
    forall|i: int| 0 <= i < s.len() ==> (#[trigger] s[i]).base_range.end > 0
}

/// The quotes are in the quote order (best exchange rate first) and each offers a positive
/// maximum amount of base tokens, which is what keeps the order transitive. A book into which
/// only such quotes are added stays so.
pub open spec fn in_quote_order(s: Seq<QuoteView>) -> bool {
    sorted(s) && positive_base(s)
}

/// Whether the quote an SCI becomes, if it becomes one, offers a positive maximum amount of
/// base tokens.
pub open spec fn offers_positive_amount(s: SciView) -> bool {
    spec_terms(s) matches Ok(t) ==> t.base_max > 0
}

/// Keeping some of the quotes of a book in the quote order keeps it in the quote order.
pub proof fn lemma_keep_if_in_order(s: Seq<QuoteView>, p: spec_fn(QuoteView) -> bool)
    requires
        in_quote_order(s),
    ensures
        in_quote_order(keep_if(s, p)),
{
    lemma_keep_if_sorted(s, p);
    lemma_keep_if_members(s, p);
    let t = keep_if(s, p);
    assert forall|i: int| 0 <= i < t.len() implies (#[trigger] t[i]).base_range.end > 0 by {
        assert(s.contains(t[i]));
    }
}

/// Removing one quote from a book in the quote order keeps it in the quote order.
pub proof fn lemma_remove_in_order(s: Seq<QuoteView>, j: int)
    requires
        in_quote_order(s),
        0 <= j < s.len(),
    ensures
        in_quote_order(s.remove(j)),
{
    let t = s.remove(j);
    assert forall|a: int, b: int| 0 <= a < b < t.len() implies quote_order(
        #[trigger] t[a],
        #[trigger] t[b],
    ) <= 0 by {
        let ia = if a < j { a } else { a + 1 };
        let ib = if b < j { b } else { b + 1 };
        assert(t[a] == s[ia] && t[b] == s[ib]);
    }
    assert forall|i: int| 0 <= i < t.len() implies (#[trigger] t[i]).base_range.end > 0 by {
        let si = if i < j { i } else { i + 1 };
        assert(t[i] == s[si]);
    }
}

/// Adding a quote to a book in the quote order keeps it in the quote order, when all its
/// quotes offer a positive maximum amount of base tokens (then the order is transitive).
pub proof fn lemma_add_keeps_sorted(
    old: Seq<QuoteView>,
    new: Seq<QuoteView>,
    q: QuoteView,
    r: Result<Quote, Error>,
)
    requires
        add_outcome(old, new, q, r),
        sorted(old),
        positive_base(old),
        q.base_range.end > 0,
    ensures
        sorted(new),
        positive_base(new),
{
    if !(exists|j: int| 0 <= j < old.len() && same_slot(#[trigger] old[j], q)) {
        let k = choose|k: int| is_insertion_index(old, q, k) && new == old.insert(k, q);
        assert forall|a: int, b: int| 0 <= a < b < new.len() implies quote_order(
            #[trigger] new[a],
            #[trigger] new[b],
        ) <= 0 by {
            if b < k {
                assert(new[a] == old[a] && new[b] == old[b]);
            } else if b == k {
                assert(new[a] == old[a] && new[b] == q);
                crate::quote::lemma_quote_order_antisymmetric(q, old[a]);
                crate::quote::lemma_quote_order_range(q, old[a]);
            } else if a < k {
                assert(new[a] == old[a] && new[b] == old[b - 1]);
            } else if a == k {
                assert(new[a] == q && new[b] == old[b - 1]);
                assert(quote_order(q, old[k]) == -1);
                if b - 1 > k {
                    assert(quote_order(old[k], old[b - 1]) <= 0);
                    assert(old[k].base_range.end > 0 && old[b - 1].base_range.end > 0);
                    crate::quote::lemma_quote_order_transitive(q, old[k], old[b - 1]);
                }
            } else {
                assert(new[a] == old[a - 1] && new[b] == old[b - 1]);
            }
        }
        assert forall|i: int| 0 <= i < new.len() implies (#[trigger] new[i]).base_range.end > 0 by {
            if i < k {
                assert(new[i] == old[i]);
            } else if i > k {
                assert(new[i] == old[i - 1]);
            }
        }
    }
}

/// Selecting quotes from a book in the quote order keeps the selection in the quote order.
pub proof fn lemma_keep_if_sorted(s: Seq<QuoteView>, p: spec_fn(QuoteView) -> bool)
    requires
        sorted(s),
    ensures
        sorted(keep_if(s, p)),
    decreases s.len(),
{
    if s.len() > 0 {
        let d = s.drop_last();
        assert(sorted(d)) by {
            assert forall|i: int, j: int| 0 <= i < j < d.len() implies quote_order(
                #[trigger] d[i],
                #[trigger] d[j],
            ) <= 0 by {
                assert(d[i] == s[i] && d[j] == s[j]);
            }
        }
        lemma_keep_if_sorted(d, p);
        lemma_keep_if_members(d, p);
        let rest = keep_if(d, p);
        if p(s.last()) {
            let t = rest.push(s.last());
            assert forall|i: int, j: int| 0 <= i < j < t.len() implies quote_order(
                #[trigger] t[i],
                #[trigger] t[j],
            ) <= 0 by {
                if j < rest.len() {
                    assert(t[i] == rest[i] && t[j] == rest[j]);
                } else {
                    assert(d.contains(rest[i]));
                    let a = choose|a: int| 0 <= a < d.len() && d[a] == rest[i];
                    assert(s[a] == t[i] && s[s.len() - 1] == t[j]);
                }
            }
        }
    }
}

/// A quote that was added is in the book afterwards.
pub proof fn lemma_added_quote_present(
    old: Seq<QuoteView>,
    new: Seq<QuoteView>,
    q: QuoteView,
    r: Result<Quote, Error>,
)
    requires
        add_outcome(old, new, q, r),
    ensures
        r is Ok ==> new.contains(q),
        r is Err ==> new == old,
{
    if r is Ok && !(exists|j: int| 0 <= j < old.len() && same_slot(#[trigger] old[j], q)) {
        let k = choose|k: int| is_insertion_index(old, q, k) && new == old.insert(k, q);
        assert(new[k] == q);
    }
}

/// The range of all amounts, `..`.
pub open spec fn all_amounts() -> U64Range {
    U64Range { start: RangeBound::Unbounded, end: RangeBound::Unbounded }
}

/// Adding the quote that an SCI becomes, to a book with no quote in its slot and none with
/// its id, yields that quote; a search of its pair over all amounts then finds it (when its
/// base range holds an amount), and it is the first quote with its id, so removing its id
/// gives it back.
pub proof fn lemma_added_quote_found_and_removed(
    old: Seq<QuoteView>,
    new: Seq<QuoteView>,
    s: SciView,
    timestamp: u64,
    r: Result<Quote, Error>,
)
    requires
        add_sci_outcome(old, new, s, timestamp, r),
        spec_terms(s) is Ok,
        forall|j: int|
            0 <= j < old.len() ==> !same_slot(
                #[trigger] old[j],
                quote_of(s, spec_terms(s)->Ok_0, timestamp),
            ),
        forall|j: int|
            0 <= j < old.len() ==> (#[trigger] old[j]).id != quote_of(
                s,
                spec_terms(s)->Ok_0,
                timestamp,
            ).id,
        spec_terms(s)->Ok_0.base_min <= spec_terms(s)->Ok_0.base_max,
    ensures
        r is Ok,
        r->Ok_0@ == quote_of(s, spec_terms(s)->Ok_0, timestamp),
        limited(keep_if(new, offers(r->Ok_0@.pair, all_amounts())), 0).contains(r->Ok_0@),
        exists|j: int| is_first_with_id(new, r->Ok_0@.id, j) && new[j] == r->Ok_0@,
{
    let q = quote_of(s, spec_terms(s)->Ok_0, timestamp);
    let k = choose|k: int| is_insertion_index(old, q, k) && new == old.insert(k, q);
    assert(new[k] == q);
    let full = U64Range {
        start: RangeBound::Included(q.base_range.start),
        end: RangeBound::Included(q.base_range.end),
    };
    assert(all_amounts().spec_contains(q.base_range.start as int) && full.spec_contains(
        q.base_range.start as int,
    ));
    assert(offers(q.pair, all_amounts())(q));
    lemma_keep_if_complete(new, offers(q.pair, all_amounts()), k);
    assert forall|m: int| 0 <= m < k implies (#[trigger] new[m]).id != q.id by {
        assert(new[m] == old[m]);
    }
    assert(is_first_with_id(new, q.id, k));
}

/// Adding a quote whose slot (pair and key image) is taken reports the quote in that slot
/// as already existing and leaves the book unchanged.
pub proof fn lemma_same_slot_is_duplicate(
    old: Seq<QuoteView>,
    new: Seq<QuoteView>,
    q: QuoteView,
    r: Result<Quote, Error>,
    j: int,
)
    requires
        add_outcome(old, new, q, r),
        unique_key_images(old),
        0 <= j < old.len(),
        same_slot(old[j], q),
    ensures
        new == old,
        r matches Err(Error::QuoteAlreadyExists { existing_quote }) && (*existing_quote)@ == old[j],
{
    let i = choose|i: int|
        0 <= i < old.len() && same_slot(#[trigger] old[i], q) && (*r->Err_0->existing_quote)@
            == old[i];
    if i != j {
        assert(old[i].pair == old[j].pair);
    }
}

/// Removing by key image splits the book: every quote is either removed or kept, and no
/// kept quote holds the key image.
pub proof fn lemma_key_image_partition(s: Seq<QuoteView>, ki: KeyImage)
    ensures
        keep_if(s, with_key_image(ki)).len() + keep_if(s, without_key_image(ki)).len() == s.len(),
        forall|k: int|
            0 <= k < keep_if(s, without_key_image(ki)).len() ==> (#[trigger] keep_if(
                s,
                without_key_image(ki),
            )[k]).sci.key_image != ki,
    decreases s.len(),
{
    lemma_keep_if_members(s, without_key_image(ki));
    if s.len() > 0 {
        lemma_key_image_partition(s.drop_last(), ki);
    }
}

/// Removing by tombstone splits the book: every quote is either removed or kept, and every
/// kept quote is still alive at the block.
pub proof fn lemma_tombstone_partition(s: Seq<QuoteView>, current_block_index: u64)
    ensures
        keep_if(s, expired_at(current_block_index)).len() + keep_if(
            s,
            alive_at(current_block_index),
        ).len() == s.len(),
        forall|k: int|
            0 <= k < keep_if(s, alive_at(current_block_index)).len() ==> !quote_expired(
                #[trigger] keep_if(s, alive_at(current_block_index))[k],
                current_block_index,
            ),
    decreases s.len(),
{
    lemma_keep_if_members(s, alive_at(current_block_index));
    if s.len() > 0 {
        lemma_tombstone_partition(s.drop_last(), current_block_index);
    }
}

/// The tombstone rule for the book: at block `c`, a quote is removed exactly when its SCI has
/// input rules with a non-zero tombstone block `t` such that `c >= t` (the tombstone is
/// reached) or `t > c + MAX_TOMBSTONE_BLOCKS` (the tombstone lies too far ahead); every other
/// quote is kept.
pub proof fn lemma_tombstone_removal_rule(s: Seq<QuoteView>, c: u64, j: int)
    requires
        0 <= j < s.len(),
    ensures
        keep_if(s, expired_at(c)).contains(s[j]) <==> (s[j].sci.input_rules matches Some(rules)
            && rules.max_tombstone_block != 0 && (c >= rules.max_tombstone_block
            || rules.max_tombstone_block > c + MAX_TOMBSTONE_BLOCKS)),
        keep_if(s, alive_at(c)).contains(s[j]) <==> !(s[j].sci.input_rules matches Some(rules)
            && rules.max_tombstone_block != 0 && (c >= rules.max_tombstone_block
            || rules.max_tombstone_block > c + MAX_TOMBSTONE_BLOCKS)),
{
    let q = s[j];
    lemma_keep_if_members(s, expired_at(c));
    lemma_keep_if_members(s, alive_at(c));
    if quote_expired(q, c) {
        lemma_keep_if_complete(s, expired_at(c), j);
        if keep_if(s, alive_at(c)).contains(q) {
            let k = choose|k: int|
                0 <= k < keep_if(s, alive_at(c)).len() && keep_if(s, alive_at(c))[k] == q;
            assert(alive_at(c)(keep_if(s, alive_at(c))[k]));
        }
    } else {
        lemma_keep_if_complete(s, alive_at(c), j);
        if keep_if(s, expired_at(c)).contains(q) {
            let k = choose|k: int|
                0 <= k < keep_if(s, expired_at(c)).len() && keep_if(s, expired_at(c))[k] == q;
            assert(expired_at(c)(keep_if(s, expired_at(c))[k]));
        }
    }
}

/// The quotes that a search returns are of the requested pair, overlap the requested
/// range, number at most `limit` (when it is not zero), and are in the quote order when the
/// book is.
pub proof fn lemma_get_quotes_sound(s: Seq<QuoteView>, pair: Pair, range: U64Range, limit: usize)
    ensures
        forall|k: int|
            0 <= k < limited(keep_if(s, offers(pair, range)), limit).len() ==> (#[trigger] limited(
                keep_if(s, offers(pair, range)),
                limit,
            )[k]).pair == pair && overlaps_base_range(
                range,
                limited(keep_if(s, offers(pair, range)), limit)[k],
            ),
        limit > 0 ==> limited(keep_if(s, offers(pair, range)), limit).len() <= limit,
        sorted(s) ==> sorted(limited(keep_if(s, offers(pair, range)), limit)),
{
    let p = offers(pair, range);
    lemma_keep_if_members(s, p);
    let m = keep_if(s, p);
    let l = limited(m, limit);
    assert forall|k: int| 0 <= k < l.len() implies (#[trigger] l[k]).pair == pair
        && overlaps_base_range(range, l[k]) by {
        assert(l[k] == m[k]);
        assert(p(m[k]));
    }
    if sorted(s) {
        lemma_keep_if_sorted(s, p);
        assert forall|i: int, j: int| 0 <= i < j < l.len() implies quote_order(
            #[trigger] l[i],
            #[trigger] l[j],
        ) <= 0 by {
            assert(l[i] == m[i] && l[j] == m[j]);
        }
    }
}

/// A message announcing a change of the quote book to its listeners.
#[derive(Debug)]
pub enum Msg {
    /// SCI added to quote book
    SciQuoteAdded(Quote),
    /// SCI removed from the quote book
    SciQuoteRemoved(QuoteId),
}

/// A naive in-memory quote book.
pub struct InMemoryQuoteBook {
    /// All quotes in the book, each inserted at its place in the quote order (the book stays
    /// in that order while its quotes offer positive amounts; see `in_quote_order`).
    quotes: Vec<Quote>,
}

impl View for InMemoryQuoteBook {
    type V = Seq<QuoteView>;

    closed spec fn view(&self) -> Seq<QuoteView> {
        views(self.quotes@)
    }
}

/// Selection preserves uniqueness of key images per pair.
proof fn lemma_keep_if_unique(s: Seq<QuoteView>, p: spec_fn(QuoteView) -> bool)
    requires
        unique_key_images(s),
    ensures
        unique_key_images(keep_if(s, p)),
    decreases s.len(),
{
    if s.len() > 0 {
        let d = s.drop_last();
        assert(unique_key_images(d)) by {
            assert forall|i: int, j: int|
                0 <= i < d.len() && 0 <= j < d.len() && i != j && (#[trigger] d[i]).pair == (
                #[trigger] d[j]).pair implies d[i].sci.key_image != d[j].sci.key_image by {
                assert(d[i] == s[i] && d[j] == s[j]);
            }
        }
        lemma_keep_if_unique(d, p);
        lemma_keep_if_members(d, p);
        let rest = keep_if(d, p);
        if p(s.last()) {
            let t = rest.push(s.last());
            assert forall|i: int, j: int|
                0 <= i < t.len() && 0 <= j < t.len() && i != j && (#[trigger] t[i]).pair == (
                #[trigger] t[j]).pair implies t[i].sci.key_image != t[j].sci.key_image by {
                if i < rest.len() && j < rest.len() {
                    assert(t[i] == rest[i] && t[j] == rest[j]);
                } else if i < rest.len() {
                    assert(d.contains(rest[i]));
                    let a = choose|a: int| 0 <= a < d.len() && d[a] == rest[i];
                    assert(s[a] == rest[i]);
                    assert(s[s.len() - 1] == t[j]);
                } else {
                    assert(d.contains(rest[j]));
                    let a = choose|a: int| 0 <= a < d.len() && d[a] == rest[j];
                    assert(s[a] == rest[j]);
                    assert(s[s.len() - 1] == t[i]);
                }
            }
        }
    }
}

impl InMemoryQuoteBook {
    /// No two quotes of one pair in the book share a key image.
    #[verifier::type_invariant]
    pub open spec fn inv(self) -> bool {
        unique_key_images(self@)
    }

    /// Create an empty quote book.
    pub fn new() -> (r: Self)
        ensures
            r@ == Seq::<QuoteView>::empty(),
            unique_key_images(r@),
            in_quote_order(r@),
    {
        let r = InMemoryQuoteBook { quotes: Vec::new() };
        assert(views(r.quotes@) =~= Seq::<QuoteView>::empty());
        r
    }

    /// Add a quote to the book, unless a quote of the same pair holds its key image.
    pub fn add_quote(&mut self, quote: Quote) -> (r: Result<Quote, Error>)
        requires
            no_rank_clash(old(self)@, quote@),
        ensures
            add_outcome(old(self)@, final(self)@, quote@, r),
            unique_key_images(final(self)@),
            in_quote_order(old(self)@) && quote@.base_range.end > 0 ==> in_quote_order(
                final(self)@,
            ),
    {
        proof {
            use_type_invariant(&*self);
        }
        let ghost s = self@;
        let n = self.quotes.len();
        let mut i: usize = 0;
        while i < n
            invariant
                n == self.quotes@.len(),
                s == views(self.quotes@),
                0 <= i <= n,
                unique_key_images(s),
                forall|j: int| 0 <= j < i ==> !same_slot(#[trigger] s[j], quote@),
            decreases n - i,
        {
            let existing = &self.quotes[i];
            if *existing.pair() == *quote.pair() && existing.key_image().same_as(&quote.key_image()) {
                let existing_quote = Box::new(existing.clone());
                assert(same_slot(s[i as int], quote@));
                return Err(Error::QuoteAlreadyExists { existing_quote });
            }
            i = i + 1;
        }
        let mut k: usize = 0;
        while k < n
            invariant
                n == self.quotes@.len(),
                s == views(self.quotes@),
                0 <= k <= n,
                forall|j: int| 0 <= j < k ==> quote_order(quote@, #[trigger] s[j]) != -1,
            ensures
                0 <= k <= n,
                n == self.quotes@.len(),
                s == views(self.quotes@),
                forall|j: int| 0 <= j < k ==> quote_order(quote@, #[trigger] s[j]) != -1,
                k < n ==> quote_order(quote@, s[k as int]) == -1,
            decreases n - k,
        {
            if quote.precedes(&self.quotes[k]) {
                break;
            }
            k = k + 1;
        }
        let ghost q = quote@;
        let result = quote.clone();
        let ghost new_s = s.insert(k as int, q);
        assert(unique_key_images(new_s)) by {
            assert forall|a: int, b: int|
                0 <= a < new_s.len() && 0 <= b < new_s.len() && a != b && (#[trigger] new_s[a]).pair
                    == (#[trigger] new_s[b]).pair implies new_s[a].sci.key_image
                != new_s[b].sci.key_image by {
                let ia = if a < k { a } else if a == k { -1 } else { a - 1 };
                let ib = if b < k { b } else if b == k { -1 } else { b - 1 };
                if ia >= 0 && ib >= 0 {
                    assert(new_s[a] == s[ia] && new_s[b] == s[ib]);
                } else if ia >= 0 {
                    assert(new_s[a] == s[ia] && new_s[b] == q);
                } else {
                    assert(new_s[b] == s[ib] && new_s[a] == q);
                }
            }
        }
        let mut quotes: Vec<Quote> = Vec::new();
        std::mem::swap(&mut quotes, &mut self.quotes);
        quotes.insert(k, quote);
        assert(views(quotes@) =~= new_s);
        self.quotes = quotes;
        assert(is_insertion_index(s, q, k as int));
        proof {
            if in_quote_order(s) && q.base_range.end > 0 {
                lemma_add_keeps_sorted(s, new_s, q, Ok::<Quote, Error>(result));
            }
        }
        Ok(result)
    }

    /// Convert an SCI into a quote (this validates it) and add it to the book.
    pub fn add_sci(&mut self, sci: Sci, timestamp: Option<u64>) -> (r: Result<Quote, Error>)
        requires
            sci@.consistent(),
            sci_admissible(old(self)@, sci@, timestamp),
        ensures
            unique_key_images(final(self)@),
            timestamp is Some ==> add_sci_outcome(old(self)@, final(self)@, sci@, timestamp->0, r),
            timestamp is None ==> (r matches Err(Error::Time) && final(self)@ == old(self)@) || exists|
                ts: u64,
            | add_sci_outcome(old(self)@, final(self)@, sci@, ts, r),
            in_quote_order(old(self)@) && offers_positive_amount(sci@) ==> in_quote_order(
                final(self)@,
            ),
    {
        proof {
            use_type_invariant(&*self);
        }
        let ghost s = sci@;
        let ghost old_book = self@;
        let made = Quote::new(sci, timestamp);
        match made {
            Err(e) => {
                let r: Result<Quote, Error> = Err(e);
                proof {
                    if timestamp is Some {
                        assert(new_outcome(s, timestamp->0, r));
                    } else if !(r matches Err(Error::Time)) {
                        let ts = choose|ts: u64| new_outcome(s, ts, r);
                        assert(add_sci_outcome(old_book, self@, s, ts, r));
                    }
                }
                r
            },
            Ok(q) => {
                let ghost ts: u64 = match timestamp {
                    Some(t) => t,
                    None => choose|ts: u64| new_outcome(s, ts, Ok::<Quote, Error>(q)),
                };
                proof {
                    assert(new_outcome(s, ts, Ok::<Quote, Error>(q)));
                    assert(q@ == quote_of(s, spec_terms(s)->Ok_0, ts));
                    if timestamp is None {
                        assert(no_rank_clash(old_book, quote_of(s, spec_terms(s)->Ok_0, ts)));
                    }
                }
                let r = self.add_quote(q);
                assert(add_sci_outcome(old_book, self@, s, ts, r));
                r
            },
        }
    }

    /// Remove a single quote from the book, identified by its id; returns the removed quote.
    pub fn remove_quote_by_id(&mut self, id: &QuoteId) -> (r: Result<Quote, Error>)
        ensures
            unique_key_images(final(self)@),
            (exists|j: int| 0 <= j < old(self)@.len() && (#[trigger] old(self)@[j]).id == *id) ==> exists|
                j: int,
            |
                is_first_with_id(old(self)@, *id, j) && r is Ok && r->Ok_0@ == old(self)@[j]
                    && final(self)@ == old(self)@.remove(j),
            !(exists|j: int| 0 <= j < old(self)@.len() && (#[trigger] old(self)@[j]).id == *id) ==> (
            r matches Err(Error::QuoteNotFound) && final(self)@ == old(self)@),
            in_quote_order(old(self)@) ==> in_quote_order(final(self)@),
    {
        proof {
            use_type_invariant(&*self);
        }
        let ghost s = self@;
        let n = self.quotes.len();
        let mut i: usize = 0;
        while i < n
            invariant
                n == self.quotes@.len(),
                s == views(self.quotes@),
                unique_key_images(s),
                s == old(self)@,
                0 <= i <= n,
                forall|k: int| 0 <= k < i ==> (#[trigger] s[k]).id != *id,
            decreases n - i,
        {
            if self.quotes[i].id().same_as(id) {
                let ghost new_s = s.remove(i as int);
                assert(unique_key_images(new_s)) by {
                    assert forall|a: int, b: int|
                        0 <= a < new_s.len() && 0 <= b < new_s.len() && a != b && (
                        #[trigger] new_s[a]).pair == (#[trigger] new_s[b]).pair implies new_s[a].sci.key_image
                        != new_s[b].sci.key_image by {
                        let ia = if a < i { a } else { a + 1 };
                        let ib = if b < i { b } else { b + 1 };
                        assert(new_s[a] == s[ia] && new_s[b] == s[ib]);
                    }
                }
                let mut quotes: Vec<Quote> = Vec::new();
                std::mem::swap(&mut quotes, &mut self.quotes);
                let ghost before = quotes@;
                let removed = quotes.remove(i);
                assert(removed@ == s[i as int]);
                assert(views(quotes@) =~= new_s);
                self.quotes = quotes;
                assert(is_first_with_id(s, *id, i as int));
                assert(old(self)@[i as int].id == *id);
                proof {
                    if in_quote_order(s) {
                        lemma_remove_in_order(s, i as int);
                    }
                }
                return Ok(removed);
            }
            i = i + 1;
        }
        Err(Error::QuoteNotFound)
    }

    /// Remove all quotes holding a key image; returns the removed quotes, in book order.
    pub fn remove_quotes_by_key_image(&mut self, key_image: &KeyImage) -> (r: Result<Vec<Quote>, Error>)
        ensures
            unique_key_images(final(self)@),
            r is Ok,
            views(r->Ok_0@) == keep_if(old(self)@, with_key_image(*key_image)),
            final(self)@ == keep_if(old(self)@, without_key_image(*key_image)),
            in_quote_order(old(self)@) ==> in_quote_order(final(self)@),
    {
        proof {
            use_type_invariant(&*self);
        }
        let ghost s = self@;
        let ghost p = with_key_image(*key_image);
        let ghost np = without_key_image(*key_image);
        let n = self.quotes.len();
        let mut kept: Vec<Quote> = Vec::new();
        let mut removed: Vec<Quote> = Vec::new();
        let mut i: usize = 0;
        while i < n
            invariant
                n == self.quotes@.len(),
                s == views(self.quotes@),
                0 <= i <= n,
                views(kept@) == keep_if(s.take(i as int), np),
                views(removed@) == keep_if(s.take(i as int), p),
                p == with_key_image(*key_image),
                np == without_key_image(*key_image),
            decreases n - i,
        {
            proof {
                lemma_keep_if_step(s, p, i as int);
                lemma_keep_if_step(s, np, i as int);
            }
            let q = self.quotes[i].clone();
            assert(q@ == s[i as int]);
            if q.key_image().same_as(key_image) {
                proof {
                    lemma_views_push(removed@, q);
                }
                removed.push(q);
            } else {
                proof {
                    lemma_views_push(kept@, q);
                }
                kept.push(q);
            }
            i = i + 1;
        }
        proof {
            lemma_take_all(s);
            lemma_keep_if_unique(s, np);
            if in_quote_order(s) {
                lemma_keep_if_in_order(s, np);
            }
        }
        self.quotes = kept;
        Ok(removed)
    }

    /// Remove all quotes whose SCI can no longer be spent at the current block (see
    /// `quote_expired`); returns the removed quotes, in book order.
    pub fn remove_quotes_by_tombstone_block(&mut self, current_block_index: u64) -> (r: Result<
        Vec<Quote>,
        Error,
    >)
        ensures
            unique_key_images(final(self)@),
            r is Ok,
            views(r->Ok_0@) == keep_if(old(self)@, expired_at(current_block_index)),
            final(self)@ == keep_if(old(self)@, alive_at(current_block_index)),
            in_quote_order(old(self)@) ==> in_quote_order(final(self)@),
            forall|j: int|
                0 <= j < old(self)@.len() ==> (views(r->Ok_0@).contains(#[trigger] old(self)@[j])
                    <==> (old(self)@[j].sci.input_rules matches Some(rules)
                    && rules.max_tombstone_block != 0 && (current_block_index
                    >= rules.max_tombstone_block || rules.max_tombstone_block > current_block_index
                    + MAX_TOMBSTONE_BLOCKS))),
            forall|j: int|
                0 <= j < old(self)@.len() ==> (final(self)@.contains(#[trigger] old(self)@[j])
                    <==> !(old(self)@[j].sci.input_rules matches Some(rules)
                    && rules.max_tombstone_block != 0 && (current_block_index
                    >= rules.max_tombstone_block || rules.max_tombstone_block > current_block_index
                    + MAX_TOMBSTONE_BLOCKS))),
    {
        proof {
            use_type_invariant(&*self);
        }
        let ghost s = self@;
        let ghost p = expired_at(current_block_index);
        let ghost np = alive_at(current_block_index);
        let n = self.quotes.len();
        let mut kept: Vec<Quote> = Vec::new();
        let mut removed: Vec<Quote> = Vec::new();
        let mut i: usize = 0;
        while i < n
            invariant
                n == self.quotes@.len(),
                s == views(self.quotes@),
                0 <= i <= n,
                views(kept@) == keep_if(s.take(i as int), np),
                views(removed@) == keep_if(s.take(i as int), p),
                p == expired_at(current_block_index),
                np == alive_at(current_block_index),
            decreases n - i,
        {
            proof {
                lemma_keep_if_step(s, p, i as int);
                lemma_keep_if_step(s, np, i as int);
            }
            let q = self.quotes[i].clone();
            assert(q@ == s[i as int]);
            let expired = match q.max_tombstone_block() {
                Some(tombstone) => tombstone != 0 && validate_tombstone(
                    current_block_index,
                    tombstone,
                ).is_err(),
                None => false,
            };
            if expired {
                proof {
                    lemma_views_push(removed@, q);
                }
                removed.push(q);
            } else {
                proof {
                    lemma_views_push(kept@, q);
                }
                kept.push(q);
            }
            i = i + 1;
        }
        proof {
            lemma_take_all(s);
            lemma_keep_if_unique(s, np);
            if in_quote_order(s) {
                lemma_keep_if_in_order(s, np);
            }
            assert forall|j: int| 0 <= j < s.len() implies (keep_if(s, p).contains(#[trigger] s[j])
                <==> (s[j].sci.input_rules matches Some(rules) && rules.max_tombstone_block != 0
                && (current_block_index >= rules.max_tombstone_block || rules.max_tombstone_block
                > current_block_index + MAX_TOMBSTONE_BLOCKS))) && (keep_if(s, np).contains(s[j])
                <==> !(s[j].sci.input_rules matches Some(rules) && rules.max_tombstone_block != 0
                && (current_block_index >= rules.max_tombstone_block || rules.max_tombstone_block
                > current_block_index + MAX_TOMBSTONE_BLOCKS))) by {
                lemma_tombstone_removal_rule(s, current_block_index, j);
            }
        }
        self.quotes = kept;
        Ok(removed)
    }

    /// Search for quotes of `pair` whose base range overlaps `base_token_quantity`, in book
    /// order (best exchange rate first); at most `limit` of them, or all when `limit` is 0.
    pub fn get_quotes(&self, pair: &Pair, base_token_quantity: &U64Range, limit: usize) -> (r: Result<
        Vec<Quote>,
        Error,
    >)
        ensures
            r is Ok,
            views(r->Ok_0@) == limited(keep_if(self@, offers(*pair, *base_token_quantity)), limit),
            in_quote_order(self@) ==> sorted(views(r->Ok_0@)),
    {
        let ghost s = self@;
        let ghost p = offers(*pair, *base_token_quantity);
        let n = self.quotes.len();
        let mut results: Vec<Quote> = Vec::new();
        let mut i: usize = 0;
        proof {
            lemma_take_all(s);
        }
        while i < n
            invariant_except_break
                views(results@) == keep_if(s.take(i as int), p),
                limit == 0 || results@.len() < limit,
            invariant
                n == self.quotes@.len(),
                s == views(self.quotes@),
                0 <= i <= n,
                s.take(n as int) == s,
                p == offers(*pair, *base_token_quantity),
            ensures
                limit == 0 || results@.len() <= limit,
                views(results@) == limited(keep_if(s, p), limit),
            decreases n - i,
        {
            proof {
                lemma_keep_if_step(s, p, i as int);
            }
            let q = &self.quotes[i];
            assert(q@ == s[i as int]);
            if *q.pair() == *pair && range_overlaps(base_token_quantity, &q.base_range().to_bounds()) {
                let c = q.clone();
                proof {
                    lemma_views_push(results@, c);
                }
                results.push(c);
                if results.len() == limit {
                    proof {
                        lemma_keep_if_prefix(s, p, i + 1);
                        assert(keep_if(s, p).take(limit as int) =~= keep_if(s.take(i + 1), p));
                    }
                    break;
                }
            }
            i = i + 1;
        }
        proof {
            lemma_take_all(s);
            lemma_get_quotes_sound(s, *pair, *base_token_quantity, limit);
        }
        Ok(results)
    }

    /// The ids of the quotes of a pair, or of all quotes, in book order.
    pub fn get_quote_ids(&self, pair: Option<&Pair>) -> (r: Result<Vec<QuoteId>, Error>)
        ensures
            r is Ok,
            r->Ok_0@ == ids_of(keep_if(self@, of_pair(match pair {
                Some(p) => Some(*p),
                None => None,
            }))),
    {
        let ghost s = self@;
        let ghost want: Option<Pair> = match pair {
            Some(p) => Some(*p),
            None => None,
        };
        let ghost p = of_pair(want);
        let n = self.quotes.len();
        let mut ids: Vec<QuoteId> = Vec::new();
        let mut i: usize = 0;
        while i < n
            invariant
                n == self.quotes@.len(),
                s == views(self.quotes@),
                0 <= i <= n,
                want == (match pair {
                    Some(p) => Some(*p),
                    None => None::<Pair>,
                }),
                p == of_pair(want),
                ids@ == ids_of(keep_if(s.take(i as int), p)),
            decreases n - i,
        {
            proof {
                lemma_keep_if_step(s, p, i as int);
            }
            let q = &self.quotes[i];
            assert(q@ == s[i as int]);
            let selected = match pair {
                Some(pr) => *q.pair() == *pr,
                None => true,
            };
            if selected {
                ids.push(*q.id());
                proof {
                    assert(ids@ =~= ids_of(keep_if(s.take(i + 1), p)));
                }
            }
            i = i + 1;
        }
        proof {
            lemma_take_all(s);
        }
        Ok(ids)
    }

    /// The first quote of the book with the given id, if any.
    pub fn get_quote_by_id(&self, id: &QuoteId) -> (r: Result<Option<Quote>, Error>)
        ensures
            r is Ok,
            (exists|j: int| 0 <= j < self@.len() && (#[trigger] self@[j]).id == *id) ==> exists|j: int|
                is_first_with_id(self@, *id, j) && r->Ok_0 is Some && r->Ok_0->Some_0@ == self@[j],
            !(exists|j: int| 0 <= j < self@.len() && (#[trigger] self@[j]).id == *id) ==> r->Ok_0 is None,
    {
        let ghost s = self@;
        let n = self.quotes.len();
        let mut i: usize = 0;
        while i < n
            invariant
                n == self.quotes@.len(),
                s == views(self.quotes@),
                0 <= i <= n,
                forall|k: int| 0 <= k < i ==> (#[trigger] s[k]).id != *id,
            decreases n - i,
        {
            if self.quotes[i].id().same_as(id) {
                assert(is_first_with_id(s, *id, i as int));
                return Ok(Some(self.quotes[i].clone()));
            }
            i = i + 1;
        }
        Ok(None)
    }

    /// The number of quotes in the book.
    pub fn num_scis(&self) -> (r: Result<u64, Error>)
        ensures
            r == Ok::<u64, Error>(self@.len() as u64),
    {
        Ok(self.quotes.len() as u64)
    }
}

} // verus!
