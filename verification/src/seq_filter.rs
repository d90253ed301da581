//! Order-preserving selection from sequences, and the facts about it that the
//! quote book's proofs use.

use vstd::prelude::*;
use crate::quote::{Quote, QuoteView};

verus! {

/// The values of a sequence of quotes.
pub open spec fn views(v: Seq<Quote>) -> Seq<QuoteView> {
    Seq::new(v.len(), |i: int| v[i]@)
}

/// The elements of `s` that satisfy `p`, in their order in `s`.
pub open spec fn keep_if<A>(s: Seq<A>, p: spec_fn(A) -> bool) -> Seq<A>
    decreases s.len(),
{
    if s.len() == 0 {
        Seq::empty()
    } else {
        let rest = keep_if(s.drop_last(), p);
        if p(s.last()) {
            rest.push(s.last())
        } else {
            rest
        }
    }
}

/// Whether `a` is a prefix of `b`.
pub open spec fn is_prefix<A>(a: Seq<A>, b: Seq<A>) -> bool {
    a.len() <= b.len() && a =~= b.subrange(0, a.len() as int)
}

/// Extending the scanned prefix by one element extends the selection by that element
/// exactly when it satisfies the predicate.
pub proof fn lemma_keep_if_step<A>(s: Seq<A>, p: spec_fn(A) -> bool, i: int)
    requires
        0 <= i < s.len(),
    ensures
        keep_if(s.take(i + 1), p) == (if p(s[i]) {
            keep_if(s.take(i), p).push(s[i])
        } else {
            keep_if(s.take(i), p)
        }),
{
    assert(s.take(i + 1).drop_last() =~= s.take(i));
    assert(s.take(i + 1).last() == s[i]);
}

/// Selecting from the whole sequence is selecting from its full prefix.
pub proof fn lemma_take_all<A>(s: Seq<A>)
    ensures
        s.take(s.len() as int) == s,
{
    assert(s.take(s.len() as int) =~= s);
}

/// Every selected element satisfies the predicate and occurs in the sequence, and the
/// selection is no longer than the sequence.
pub proof fn lemma_keep_if_members<A>(s: Seq<A>, p: spec_fn(A) -> bool)
    ensures
        keep_if(s, p).len() <= s.len(),
        forall|k: int|
            0 <= k < keep_if(s, p).len() ==> p(#[trigger] keep_if(s, p)[k]) && s.contains(
                keep_if(s, p)[k],
            ),
    decreases s.len(),
{
    if s.len() > 0 {
        lemma_keep_if_members(s.drop_last(), p);
        let rest = keep_if(s.drop_last(), p);
        assert forall|k: int| 0 <= k < keep_if(s, p).len() implies p(#[trigger] keep_if(s, p)[k])
            && s.contains(keep_if(s, p)[k]) by {
            if k < rest.len() {
                assert(keep_if(s, p)[k] == rest[k]);
                let j = choose|j: int| 0 <= j < s.drop_last().len() && s.drop_last()[j] == rest[k];
                assert(s[j] == rest[k]);
            } else {
                assert(keep_if(s, p)[k] == s.last());
                assert(s[s.len() - 1] == s.last());
            }
        }
    }
}

/// An element of the sequence that satisfies the predicate is selected.
pub proof fn lemma_keep_if_complete<A>(s: Seq<A>, p: spec_fn(A) -> bool, j: int)
    requires
        0 <= j < s.len(),
        p(s[j]),
    ensures
        keep_if(s, p).contains(s[j]),
    decreases s.len(),
{
    if j < s.len() - 1 {
        lemma_keep_if_complete(s.drop_last(), p, j);
        let rest = keep_if(s.drop_last(), p);
        let k = choose|k: int| 0 <= k < rest.len() && rest[k] == s.drop_last()[j];
        assert(keep_if(s, p)[k] == rest[k]);
    } else {
        assert(keep_if(s, p).last() == s.last());
    }
}

/// Selecting from a prefix yields a prefix of the selection.
pub proof fn lemma_keep_if_prefix<A>(s: Seq<A>, p: spec_fn(A) -> bool, k: int)
    requires
        0 <= k <= s.len(),
    ensures
        is_prefix(keep_if(s.take(k), p), keep_if(s, p)),
    decreases s.len(),
{
    if k == s.len() {
        lemma_take_all(s);
    } else {
        assert(s.drop_last().take(k) =~= s.take(k));
        lemma_keep_if_prefix(s.drop_last(), p, k);
    }
}

/// The value sequence of a vector of quotes grows by the value of a pushed quote.
pub proof fn lemma_views_push(v: Seq<Quote>, q: Quote)
    ensures
        views(v.push(q)) == views(v).push(q@),
{
    assert(views(v.push(q)) =~= views(v).push(q@));
}

} // verus!
