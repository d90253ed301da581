//! The mini wallet's bookkeeping: the outputs it owns, the block it scans next, and what a
//! scanned block changes. Recognizing an output as the account's own (view-key scanning) is
//! done by whoever scans the block; the wallet decides what the scan results mean.

use vstd::prelude::*;
use crate::seq_filter::{keep_if, lemma_keep_if_step, lemma_take_all};
use crate::types::{Amount, BlockIndex, KeyImage};

verus! {

/// An output of the ledger that the wallet recognized as its own.
#[derive(Clone, Copy, Debug, PartialEq, Eq)]
pub struct MatchedTxOut {
    /// The block that holds the output.
    pub block_index: BlockIndex,
    /// The output's public key.
    pub tx_out_public_key: [u8; 32],
    /// The output's revealed amount.
    pub amount: Amount,
    /// The subaddress that received the output.
    pub subaddress_index: u64,
    /// The key image that spending the output reveals.
    pub key_image: KeyImage,
}

/// An event emitted by the wallet.
#[derive(Clone, Copy, Debug, PartialEq, Eq)]
pub enum WalletEvent {
    /// An output of the account appeared in a block.
    ReceivedTxOut { matched_tx_out: MatchedTxOut },
    /// An output of the account was spent in a block.
    SpentTxOut { matched_tx_out: MatchedTxOut },
}

/// The number of blocks scanned in one pass.
pub const SCAN_CHUNK_SIZE: u64 = 1000;

/// What scanning one block found: the account's outputs that appeared in it, and the key
/// images in it that belong to outputs the wallet owned when the block was scanned.
#[derive(Debug)]
pub struct ScannedBlock {
    pub block_index: BlockIndex,
    pub matched_tx_outs: Vec<MatchedTxOut>,
    pub key_images: Vec<KeyImage>,
}

/// Whether some output in `s` has key image `k`.
pub open spec fn has_key(s: Seq<MatchedTxOut>, k: KeyImage) -> bool {
    exists|j: int| 0 <= j < s.len() && s[j].key_image == k
}

/// A position in `s` of an output with key image `k`, when there is one.
pub open spec fn key_pos(s: Seq<MatchedTxOut>, k: KeyImage) -> int {
    choose|j: int| 0 <= j < s.len() && s[j].key_image == k
}

/// No two outputs in `s` share a key image.
pub open spec fn unique_keys(s: Seq<MatchedTxOut>) -> bool {
    forall|a: int, b: int|
        0 <= a < s.len() && 0 <= b < s.len() && #[trigger] s[a].key_image == #[trigger] s[b].key_image
            ==> a == b
}

/// `s` with `m` stored under its key image: replacing the output with that key image, or
/// added at the end.
pub open spec fn upsert(s: Seq<MatchedTxOut>, m: MatchedTxOut) -> Seq<MatchedTxOut> {
    if has_key(s, m.key_image) {
        s.update(key_pos(s, m.key_image), m)
    } else {
        s.push(m)
    }
}

/// `s` without the output with key image `k`.
pub open spec fn remove_key(s: Seq<MatchedTxOut>, k: KeyImage) -> Seq<MatchedTxOut> {
    if has_key(s, k) {
        s.remove(key_pos(s, k))
    } else {
        s
    }
}

/// The owned outputs after storing the first `i` received outputs, in order.
pub open spec fn receive_all(s: Seq<MatchedTxOut>, received: Seq<MatchedTxOut>, i: int) -> Seq<
    MatchedTxOut,
>
    decreases i,
{
    if i <= 0 {
        s
    } else {
        upsert(receive_all(s, received, i - 1), received[i - 1])
    }
}

/// The owned outputs after spending the first `i` key images, in order.
pub open spec fn spend_all(s: Seq<MatchedTxOut>, key_images: Seq<KeyImage>, i: int) -> Seq<
    MatchedTxOut,
>
    decreases i,
{
    if i <= 0 {
        s
    } else {
        remove_key(spend_all(s, key_images, i - 1), key_images[i - 1])
    }
}

/// The events of spending the first `i` key images: one for each that belongs to an output
/// still owned at that point, carrying that output.
pub open spec fn spend_events(s: Seq<MatchedTxOut>, key_images: Seq<KeyImage>, i: int) -> Seq<
    WalletEvent,
>
    decreases i,
{
    if i <= 0 {
        Seq::empty()
    } else {
        let prev = spend_all(s, key_images, i - 1);
        let k = key_images[i - 1];
        if has_key(prev, k) {
            spend_events(s, key_images, i - 1).push(
                WalletEvent::SpentTxOut { matched_tx_out: prev[key_pos(prev, k)] },
            )
        } else {
            spend_events(s, key_images, i - 1)
        }
    }
}

/// One event per received output, in order.
pub open spec fn receive_events(received: Seq<MatchedTxOut>) -> Seq<WalletEvent> {
    Seq::new(received.len(), |i: int| WalletEvent::ReceivedTxOut { matched_tx_out: received[i] })
}

/// With distinct key images, the only position holding key image `k` is `key_pos`.
pub proof fn lemma_key_pos_unique(s: Seq<MatchedTxOut>, k: KeyImage, j: int)
    requires
        unique_keys(s),
        0 <= j < s.len(),
        s[j].key_image == k,
    ensures
        has_key(s, k),
        key_pos(s, k) == j,
{
    assert(has_key(s, k));
    let p = key_pos(s, k);
    assert(s[p].key_image == s[j].key_image);
}

/// Storing an output keeps key images distinct.
pub proof fn lemma_upsert_unique(s: Seq<MatchedTxOut>, m: MatchedTxOut)
    requires
        unique_keys(s),
    ensures
        unique_keys(upsert(s, m)),
{
    let t = upsert(s, m);
    if has_key(s, m.key_image) {
        let p = key_pos(s, m.key_image);
        assert forall|a: int, b: int|
            0 <= a < t.len() && 0 <= b < t.len() && #[trigger] t[a].key_image
                == #[trigger] t[b].key_image implies a == b by {
            if a != p && b != p {
                assert(s[a].key_image == s[b].key_image);
            } else if a == p && b != p {
                assert(s[b].key_image == s[p].key_image);
            } else if a != p && b == p {
                assert(s[a].key_image == s[p].key_image);
            }
        }
    } else {
        assert forall|a: int, b: int|
            0 <= a < t.len() && 0 <= b < t.len() && #[trigger] t[a].key_image
                == #[trigger] t[b].key_image implies a == b by {
            if a < s.len() && b < s.len() {
                assert(s[a].key_image == s[b].key_image);
            } else if a < s.len() {
                assert(s[a].key_image == m.key_image);
            } else if b < s.len() {
                assert(s[b].key_image == m.key_image);
            }
        }
    }
}

/// Removing an output keeps key images distinct, and the key image is then not owned.
pub proof fn lemma_remove_key_unique(s: Seq<MatchedTxOut>, k: KeyImage)
    requires
        unique_keys(s),
    ensures
        unique_keys(remove_key(s, k)),
        !has_key(remove_key(s, k), k),
{
    let t = remove_key(s, k);
    if has_key(s, k) {
        let p = key_pos(s, k);
        assert forall|a: int, b: int|
            0 <= a < t.len() && 0 <= b < t.len() && #[trigger] t[a].key_image
                == #[trigger] t[b].key_image implies a == b by {
            let sa = if a < p { a } else { a + 1 };
            let sb = if b < p { b } else { b + 1 };
            assert(t[a] == s[sa]);
            assert(t[b] == s[sb]);
        }
        if has_key(t, k) {
            let j = choose|j: int| 0 <= j < t.len() && t[j].key_image == k;
            let sj = if j < p { j } else { j + 1 };
            assert(t[j] == s[sj]);
            assert(s[sj].key_image == s[p].key_image);
        }
    }
}

/// Storing an output keeps every key image owned and adds the stored one.
pub proof fn lemma_upsert_keeps_keys(s: Seq<MatchedTxOut>, m: MatchedTxOut, k: KeyImage)
    ensures
        has_key(upsert(s, m), m.key_image),
        has_key(s, k) ==> has_key(upsert(s, m), k),
{
    let t = upsert(s, m);
    if has_key(s, m.key_image) {
        let p = key_pos(s, m.key_image);
        assert(t[p] == m);
        if has_key(s, k) {
            let j = choose|j: int| 0 <= j < s.len() && s[j].key_image == k;
            if j == p {
                assert(t[p].key_image == k);
            } else {
                assert(t[j] == s[j]);
            }
        }
    } else {
        assert(t[s.len() as int] == m);
        if has_key(s, k) {
            let j = choose|j: int| 0 <= j < s.len() && s[j].key_image == k;
            assert(t[j] == s[j]);
        }
    }
}

/// Removing one key image keeps every other owned key image and adds none.
pub proof fn lemma_remove_key_keeps_others(s: Seq<MatchedTxOut>, k: KeyImage, other: KeyImage)
    ensures
        other != k ==> (has_key(s, other) <==> has_key(remove_key(s, k), other)),
        !has_key(s, other) ==> !has_key(remove_key(s, k), other),
{
    let t = remove_key(s, k);
    if has_key(s, k) {
        let p = key_pos(s, k);
        if has_key(t, other) {
            let j = choose|j: int| 0 <= j < t.len() && t[j].key_image == other;
            let sj = if j < p { j } else { j + 1 };
            assert(t[j] == s[sj]);
        }
        if other != k && has_key(s, other) {
            let j = choose|j: int| 0 <= j < s.len() && s[j].key_image == other;
            assert(j != p);
            let tj = if j < p { j } else { j - 1 };
            assert(t[tj] == s[j]);
        }
    }
}

/// Spending key images keeps key images distinct.
pub proof fn lemma_spend_all_unique(s: Seq<MatchedTxOut>, key_images: Seq<KeyImage>, i: int)
    requires
        unique_keys(s),
    ensures
        unique_keys(spend_all(s, key_images, i)),
    decreases i,
{
    if i > 0 {
        lemma_spend_all_unique(s, key_images, i - 1);
        lemma_remove_key_unique(spend_all(s, key_images, i - 1), key_images[i - 1]);
    }
}

/// After a key image is spent, no owned output carries it, however many key images follow.
pub proof fn lemma_spend_all_removes(s: Seq<MatchedTxOut>, key_images: Seq<KeyImage>, i: int, j: int)
    requires
        unique_keys(s),
        0 <= j < i <= key_images.len(),
    ensures
        !has_key(spend_all(s, key_images, i), key_images[j]),
    decreases i,
{
    lemma_spend_all_unique(s, key_images, i - 1);
    if j == i - 1 {
        lemma_remove_key_unique(spend_all(s, key_images, i - 1), key_images[j]);
    } else {
        lemma_spend_all_removes(s, key_images, i - 1, j);
        lemma_remove_key_keeps_others(
            spend_all(s, key_images, i - 1),
            key_images[i - 1],
            key_images[j],
        );
    }
}

/// Spending key images other than `k` keeps an output with key image `k` owned.
pub proof fn lemma_spend_all_keeps(s: Seq<MatchedTxOut>, key_images: Seq<KeyImage>, i: int, k: KeyImage)
    requires
        has_key(s, k),
        0 <= i <= key_images.len(),
        forall|j: int| 0 <= j < i ==> key_images[j] != k,
    ensures
        has_key(spend_all(s, key_images, i), k),
    decreases i,
{
    if i > 0 {
        lemma_spend_all_keeps(s, key_images, i - 1, k);
        lemma_remove_key_keeps_others(spend_all(s, key_images, i - 1), key_images[i - 1], k);
    }
}

/// Storing received outputs keeps every owned key image and adds each received one.
pub proof fn lemma_receive_all_keeps(s: Seq<MatchedTxOut>, received: Seq<MatchedTxOut>, i: int, k: KeyImage)
    requires
        0 <= i <= received.len(),
        has_key(s, k) || exists|j: int| 0 <= j < i && received[j].key_image == k,
    ensures
        has_key(receive_all(s, received, i), k),
    decreases i,
{
    if i > 0 {
        let prev = receive_all(s, received, i - 1);
        if has_key(s, k) || exists|j: int| 0 <= j < i - 1 && received[j].key_image == k {
            lemma_receive_all_keeps(s, received, i - 1, k);
        }
        lemma_upsert_keeps_keys(prev, received[i - 1], k);
    }
}

/// What a scanned block does to ownership: none of its key images is owned afterwards, and
/// every output received in it whose key image it does not spend is owned afterwards.
pub proof fn lemma_block_ownership(owned: Seq<MatchedTxOut>, block: ScannedBlock)
    requires
        unique_keys(owned),
    ensures
        forall|j: int|
            0 <= j < block.key_images@.len() ==> !has_key(
                block_owned(owned, block),
                #[trigger] block.key_images@[j],
            ),
        forall|j: int|
            0 <= j < block.matched_tx_outs@.len() && !block.key_images@.contains(
                (#[trigger] block.matched_tx_outs@[j]).key_image,
            ) ==> has_key(block_owned(owned, block), block.matched_tx_outs@[j].key_image),
{
    let received = block.matched_tx_outs@;
    let key_images = block.key_images@;
    let after = receive_all(owned, received, received.len() as int);
    lemma_receive_all_unique(owned, received, received.len() as int);
    assert forall|j: int| 0 <= j < key_images.len() implies !has_key(
        block_owned(owned, block),
        #[trigger] key_images[j],
    ) by {
        lemma_spend_all_removes(after, key_images, key_images.len() as int, j);
    }
    assert forall|j: int|
        0 <= j < received.len() && !key_images.contains(
            (#[trigger] received[j]).key_image,
        ) implies has_key(block_owned(owned, block), received[j].key_image) by {
        lemma_receive_all_keeps(owned, received, received.len() as int, received[j].key_image);
        assert forall|x: int| 0 <= x < key_images.len() implies key_images[x]
            != received[j].key_image by {
            if key_images[x] == received[j].key_image {
                assert(key_images.contains(received[j].key_image));
            }
        }
        lemma_spend_all_keeps(after, key_images, key_images.len() as int, received[j].key_image);
    }
}

/// Storing received outputs keeps key images distinct.
pub proof fn lemma_receive_all_unique(s: Seq<MatchedTxOut>, received: Seq<MatchedTxOut>, i: int)
    requires
        unique_keys(s),
    ensures
        unique_keys(receive_all(s, received, i)),
    decreases i,
{
    if i > 0 {
        lemma_receive_all_unique(s, received, i - 1);
        lemma_upsert_unique(receive_all(s, received, i - 1), received[i - 1]);
    }
}

/// A scan round in which every block of the window was found advances the wallet by the whole
/// window: every result counts.
pub proof fn lemma_full_round_counts_every_block(results: Seq<Option<ScannedBlock>>, i: int)
    requires
        0 <= i <= results.len(),
        forall|k: int| 0 <= k < results.len() ==> (#[trigger] results[k]) is Some,
    ensures
        found_count(results, i) == i,
    decreases i,
{
    if i > 0 {
        lemma_full_round_counts_every_block(results, i - 1);
    }
}

/// Over a whole scan round, each found block in turn has its outputs stored and its owned key
/// images spent, with distinct key images kept throughout: the owned outputs after the first
/// `i` results are those after the first `i - 1`, changed by the `i`-th block when it was
/// found.
pub proof fn lemma_round_step(owned: Seq<MatchedTxOut>, results: Seq<Option<ScannedBlock>>, i: int)
    requires
        unique_keys(owned),
        0 < i <= results.len(),
    ensures
        unique_keys(results_owned(owned, results, i)),
        results_owned(owned, results, i) == match results[i - 1] {
            Some(block) => block_owned(results_owned(owned, results, i - 1), block),
            None => results_owned(owned, results, i - 1),
        },
    decreases i,
{
    if i > 1 {
        lemma_round_step(owned, results, i - 1);
    }
    let prev = results_owned(owned, results, i - 1);
    match results[i - 1] {
        Some(block) => {
            let received = receive_all(prev, block.matched_tx_outs@, block.matched_tx_outs@.len() as int);
            lemma_receive_all_unique(prev, block.matched_tx_outs@, block.matched_tx_outs@.len() as int);
            lemma_spend_all_unique(received, block.key_images@, block.key_images@.len() as int);
        },
        None => {},
    }
}

/// The index of the output with key image `k`, if the wallet owns one.
fn find_key(v: &Vec<MatchedTxOut>, k: &KeyImage) -> (r: Option<usize>)
    requires
        unique_keys(v@),
    ensures
        r is None <==> !has_key(v@, *k),
        r is Some ==> r->Some_0 < v@.len() && r->Some_0 == key_pos(v@, *k),
{
    let mut i: usize = 0;
    while i < v.len()
        invariant
            0 <= i <= v@.len(),
            unique_keys(v@),
            forall|j: int| 0 <= j < i ==> v@[j].key_image != *k,
        decreases v@.len() - i,
    {
        if v[i].key_image.same_as(k) {
            proof {
                lemma_key_pos_unique(v@, *k, i as int);
            }
            return Some(i);
        }
        i = i + 1;
    }
    None
}

/// The owned outputs after a scanned block: its outputs stored, then its key images spent.
pub open spec fn block_owned(owned: Seq<MatchedTxOut>, block: ScannedBlock) -> Seq<MatchedTxOut> {
    let received = receive_all(owned, block.matched_tx_outs@, block.matched_tx_outs@.len() as int);
    spend_all(received, block.key_images@, block.key_images@.len() as int)
}

/// The events of a scanned block: one per received output, then one per spent owned output.
pub open spec fn block_events(owned: Seq<MatchedTxOut>, block: ScannedBlock) -> Seq<WalletEvent> {
    let received = receive_all(owned, block.matched_tx_outs@, block.matched_tx_outs@.len() as int);
    receive_events(block.matched_tx_outs@) + spend_events(
        received,
        block.key_images@,
        block.key_images@.len() as int,
    )
}

/// How many of the first `i` scan results found a block.
pub open spec fn found_count(results: Seq<Option<ScannedBlock>>, i: int) -> int
    decreases i,
{
    if i <= 0 {
        0
    } else if results[i - 1] is Some {
        found_count(results, i - 1) + 1
    } else {
        found_count(results, i - 1)
    }
}

/// The owned outputs after the first `i` scan results, skipping the blocks not found.
pub open spec fn results_owned(owned: Seq<MatchedTxOut>, results: Seq<Option<ScannedBlock>>, i: int) -> Seq<
    MatchedTxOut,
>
    decreases i,
{
    if i <= 0 {
        owned
    } else {
        match results[i - 1] {
            Some(block) => block_owned(results_owned(owned, results, i - 1), block),
            None => results_owned(owned, results, i - 1),
        }
    }
}

/// The events of the first `i` scan results, block after block.
pub open spec fn results_events(owned: Seq<MatchedTxOut>, results: Seq<Option<ScannedBlock>>, i: int) -> Seq<
    WalletEvent,
>
    decreases i,
{
    if i <= 0 {
        Seq::empty()
    } else {
        match results[i - 1] {
            Some(block) => results_events(owned, results, i - 1) + block_events(
                results_owned(owned, results, i - 1),
                block,
            ),
            None => results_events(owned, results, i - 1),
        }
    }
}

/// Whether the blocks found among the scan results are the blocks from `next` on, in order.
pub open spec fn results_in_sequence(results: Seq<Option<ScannedBlock>>, next: BlockIndex) -> bool {
    forall|i: int|
        0 <= i < results.len() && (#[trigger] results[i]) is Some ==> results[i]->Some_0.block_index
            == next + found_count(results, i)
}

/// Every scan result counts at most once.
pub proof fn lemma_found_count_bounds(results: Seq<Option<ScannedBlock>>, i: int)
    requires
        0 <= i,
    ensures
        0 <= found_count(results, i) <= i,
    decreases i,
{
    if i > 0 {
        lemma_found_count_bounds(results, i - 1);
    }
}

/// The wallet's state: the next block to scan and the outputs it owns, keyed by key image.
pub struct State {
    next_block_index: BlockIndex,
    matched_tx_outs: Vec<MatchedTxOut>,
}

impl State {
    /// The next block to scan.
    pub closed spec fn next(self) -> BlockIndex {
        self.next_block_index
    }

    /// The owned outputs, each key image once.
    pub closed spec fn owned(self) -> Seq<MatchedTxOut> {
        self.matched_tx_outs@
    }

    /// No two owned outputs share a key image.
    pub open spec fn wf(self) -> bool {
        unique_keys(self.owned())
    }

    /// A wallet that starts scanning at the given block and owns nothing.
    pub fn new(default_first_block_index: BlockIndex) -> (r: Self)
        ensures
            r.wf(),
            r.next() == default_first_block_index,
            r.owned() == Seq::<MatchedTxOut>::empty(),
    {
        State { next_block_index: default_first_block_index, matched_tx_outs: Vec::new() }
    }

    /// A wallet state read back from storage: the next block to scan and the owned outputs.
    /// `None` when two of the outputs share a key image, which no saved state holds.
    pub fn restore(next_block_index: BlockIndex, matched_tx_outs: Vec<MatchedTxOut>) -> (r: Option<
        Self,
    >)
        ensures
            r is Some <==> unique_keys(matched_tx_outs@),
            r is Some ==> r->Some_0.wf() && r->Some_0.next() == next_block_index
                && r->Some_0.owned() == matched_tx_outs@,
    {
        let mut i: usize = 0;
        while i < matched_tx_outs.len()
            invariant
                0 <= i <= matched_tx_outs@.len(),
                forall|a: int, b: int|
                    0 <= a < i && 0 <= b < matched_tx_outs@.len() && a != b ==> (
                    #[trigger] matched_tx_outs@[a]).key_image != (
                    #[trigger] matched_tx_outs@[b]).key_image,
            decreases matched_tx_outs@.len() - i,
        {
            let mut j: usize = 0;
            while j < matched_tx_outs.len()
                invariant
                    0 <= i < matched_tx_outs@.len(),
                    0 <= j <= matched_tx_outs@.len(),
                    forall|a: int, b: int|
                        0 <= a < i && 0 <= b < matched_tx_outs@.len() && a != b ==> (
                        #[trigger] matched_tx_outs@[a]).key_image != (
                        #[trigger] matched_tx_outs@[b]).key_image,
                    forall|b: int|
                        0 <= b < j && b != i ==> matched_tx_outs@[i as int].key_image != (
                        #[trigger] matched_tx_outs@[b]).key_image,
                decreases matched_tx_outs@.len() - j,
            {
                if j != i && matched_tx_outs[i].key_image.same_as(&matched_tx_outs[j].key_image) {
                    proof {
                        assert(matched_tx_outs@[i as int].key_image
                            == matched_tx_outs@[j as int].key_image);
                        assert(!unique_keys(matched_tx_outs@));
                    }
                    return None;
                }
                j = j + 1;
            }
            i = i + 1;
        }
        proof {
            assert forall|a: int, b: int|
                0 <= a < matched_tx_outs@.len() && 0 <= b < matched_tx_outs@.len()
                    && #[trigger] matched_tx_outs@[a].key_image
                    == #[trigger] matched_tx_outs@[b].key_image implies a == b by {
                if a != b {
                    assert(matched_tx_outs@[a].key_image != matched_tx_outs@[b].key_image);
                }
            }
        }
        Some(State { next_block_index, matched_tx_outs })
    }

    /// The next block to scan.
    pub fn next_block_index(&self) -> (r: BlockIndex)
        ensures
            r == self.next(),
    {
        self.next_block_index
    }

    /// The owned outputs.
    pub fn matched_tx_outs(&self) -> (r: &Vec<MatchedTxOut>)
        ensures
            r@ == self.owned(),
    {
        &self.matched_tx_outs
    }

    /// The blocks to scan next: from the next block up to the last block of a ledger of
    /// `num_blocks` blocks, at most `SCAN_CHUNK_SIZE` of them; as a half-open range.
    pub fn scan_window(&self, num_blocks: u64) -> (r: (BlockIndex, BlockIndex))
        requires
            self.next() + SCAN_CHUNK_SIZE <= u64::MAX,
        ensures
            r.0 == self.next(),
            r.1 == if num_blocks < self.next() + SCAN_CHUNK_SIZE {
                num_blocks as int
            } else {
                self.next() + SCAN_CHUNK_SIZE
            },
    {
        let chunk_end = self.next_block_index + SCAN_CHUNK_SIZE;
        let end = if num_blocks < chunk_end {
            num_blocks
        } else {
            chunk_end
        };
        (self.next_block_index, end)
    }

    /// Applies a scanned block, which must be the next block: the next block to scan moves
    /// past it; each output received in it is stored under its key image and reported; then
    /// each of its key images that belongs to an owned output removes that output and reports
    /// it spent.
    pub fn apply_scanned_block(&mut self, block: &ScannedBlock) -> (events: Vec<WalletEvent>)
        requires
            old(self).wf(),
            block.block_index == old(self).next(),
            old(self).next() < u64::MAX,
        ensures
            final(self).wf(),
            final(self).next() == old(self).next() + 1,
            final(self).owned() == block_owned(old(self).owned(), *block),
            events@ == block_events(old(self).owned(), *block),
    {
        let ghost start = self.matched_tx_outs@;
        let ghost received = block.matched_tx_outs@;
        let ghost key_images = block.key_images@;
        self.next_block_index = self.next_block_index + 1;
        let mut events: Vec<WalletEvent> = Vec::new();
        let mut i: usize = 0;
        while i < block.matched_tx_outs.len()
            invariant
                0 <= i <= received.len(),
                received == block.matched_tx_outs@,
                self.next_block_index == old(self).next_block_index + 1,
                self.matched_tx_outs@ == receive_all(start, received, i as int),
                unique_keys(self.matched_tx_outs@),
                events@ == receive_events(received.take(i as int)),
            decreases received.len() - i,
        {
            let m = block.matched_tx_outs[i];
            let ghost before = self.matched_tx_outs@;
            let ghost before_events = events@;
            events.push(WalletEvent::ReceivedTxOut { matched_tx_out: m });
            match find_key(&self.matched_tx_outs, &m.key_image) {
                Some(j) => {
                    self.matched_tx_outs.set(j, m);
                },
                None => {
                    self.matched_tx_outs.push(m);
                },
            }
            proof {
                lemma_upsert_unique(before, m);
                assert(self.matched_tx_outs@ =~= upsert(before, m));
                assert(events@ =~= receive_events(received.take(i + 1))) by {
                    assert(before_events =~= receive_events(received.take(i as int)));
                }
            }
            i = i + 1;
        }
        proof {
            assert(received.take(received.len() as int) =~= received);
        }
        let ghost after_receive = self.matched_tx_outs@;
        let ghost receive_part = events@;
        let mut k: usize = 0;
        while k < block.key_images.len()
            invariant
                0 <= k <= key_images.len(),
                key_images == block.key_images@,
                self.next_block_index == old(self).next_block_index + 1,
                self.matched_tx_outs@ == spend_all(after_receive, key_images, k as int),
                unique_keys(self.matched_tx_outs@),
                events@ == receive_part + spend_events(after_receive, key_images, k as int),
            decreases key_images.len() - k,
        {
            let ki = block.key_images[k];
            let ghost before = self.matched_tx_outs@;
            let ghost before_events = events@;
            match find_key(&self.matched_tx_outs, &ki) {
                Some(j) => {
                    let spent = self.matched_tx_outs.remove(j);
                    events.push(WalletEvent::SpentTxOut { matched_tx_out: spent });
                    proof {
                        assert(events@ =~= receive_part + spend_events(
                            after_receive,
                            key_images,
                            k + 1,
                        ));
                    }
                },
                None => {},
            }
            proof {
                lemma_remove_key_unique(before, ki);
            }
            k = k + 1;
        }
        events
    }

    /// Applies the results of scanning a range of blocks, in order; a block that was not
    /// found is skipped. The blocks found must be the next blocks, in sequence.
    pub fn apply_scan_results(&mut self, results: &Vec<Option<ScannedBlock>>) -> (events: Vec<
        WalletEvent,
    >)
        requires
            old(self).wf(),
            results_in_sequence(results@, old(self).next()),
            old(self).next() + results@.len() < u64::MAX,
        ensures
            final(self).wf(),
            final(self).next() == old(self).next() + found_count(results@, results@.len() as int),
            final(self).owned() == results_owned(old(self).owned(), results@, results@.len() as int),
            events@ == results_events(old(self).owned(), results@, results@.len() as int),
    {
        let ghost start_owned = self.owned();
        let ghost start_next = self.next();
        let mut events: Vec<WalletEvent> = Vec::new();
        let mut i: usize = 0;
        while i < results.len()
            invariant
                0 <= i <= results@.len(),
                self.wf(),
                results_in_sequence(results@, start_next),
                start_next + results@.len() < u64::MAX,
                self.next() == start_next + found_count(results@, i as int),
                self.owned() == results_owned(start_owned, results@, i as int),
                events@ == results_events(start_owned, results@, i as int),
            decreases results@.len() - i,
        {
            proof {
                lemma_found_count_bounds(results@, i as int);
            }
            match &results[i] {
                Some(block) => {
                    let ghost before_owned = self.owned();
                    let mut block_events = self.apply_scanned_block(block);
                    events.append(&mut block_events);
                },
                None => {},
            }
            i = i + 1;
        }
        events
    }

    /// The key images of a block that belong to owned outputs, in their order in the block.
    pub fn owned_key_images(&self, block_key_images: &Vec<KeyImage>) -> (r: Vec<KeyImage>)
        requires
            self.wf(),
        ensures
            r@ == keep_if(block_key_images@, |k: KeyImage| has_key(self.owned(), k)),
    {
        let ghost owned_pred = |k: KeyImage| has_key(self.owned(), k);
        let mut r: Vec<KeyImage> = Vec::new();
        let mut i: usize = 0;
        while i < block_key_images.len()
            invariant
                0 <= i <= block_key_images@.len(),
                unique_keys(self.matched_tx_outs@),
                owned_pred == (|k: KeyImage| has_key(self.owned(), k)),
                r@ == keep_if(block_key_images@.take(i as int), owned_pred),
            decreases block_key_images@.len() - i,
        {
            proof {
                lemma_keep_if_step(block_key_images@, owned_pred, i as int);
            }
            let k = block_key_images[i];
            match find_key(&self.matched_tx_outs, &k) {
                Some(_) => {
                    r.push(k);
                },
                None => {},
            }
            i = i + 1;
        }
        proof {
            lemma_take_all(block_key_images@);
        }
        r
    }
}

} // verus!
