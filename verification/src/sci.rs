//! The signed contingent input (SCI) as the quote book sees it: the amounts, the input
//! rules and the key image it carries, together with the outcome of checking its ring
//! signature and proofs, the outcome of revealing each partial-fill output's amount, and the
//! digest that identifies it. Whoever decodes an SCI fills these in once; the quote book's
//! logic reads only these values.

use vstd::prelude::*;
use crate::types::{Amount, KeyImage, bytes32_eq};

verus! {

/// Why a ring signature did not verify.
#[derive(Clone, Copy, Debug, PartialEq, Eq, Structural)]
pub enum RingSignatureError {
    /// Two lengths that must agree do not (expected, found).
    LengthMismatch(u64, u64),
    /// The signature does not verify.
    InvalidSignature,
    /// The key image is malformed.
    InvalidKeyImage,
}

/// Why a signed contingent input failed validation.
#[derive(Clone, Copy, Debug, PartialEq, Eq, Structural)]
pub enum SciError {
    /// The ring signature does not verify.
    RingSignature(RingSignatureError),
    /// The input carries no rules although the SCI needs them.
    MissingRules,
    /// The amounts disclosed for the required outputs do not match them.
    RequiredOutputMismatch,
    /// A membership proof does not verify.
    ProofOfMembership,
    /// An output could not be decoded.
    TxOutConversion,
}

/// Why the amount of an output could not be revealed.
#[derive(Clone, Copy, Debug, PartialEq, Eq, Structural)]
pub enum RevealError {
    /// The output's shared secret does not open its masked amount.
    AmountMismatch,
    /// The output carries no masked amount.
    MissingMaskedAmount,
    /// A key in the output could not be decompressed.
    KeyDecompression,
}

/// A partial-fill output of an SCI's input rules, with the outcome of revealing its amount.
#[derive(Clone, Copy, Debug, PartialEq, Eq)]
pub struct PartialFillOutput {
    pub revealed_amount: Result<Amount, RevealError>,
}

impl PartialFillOutput {
    /// The revealed amount of the output, or why it could not be revealed.
    pub fn reveal_amount(&self) -> (r: Result<Amount, RevealError>)
        ensures
            r == self.revealed_amount,
    {
        self.revealed_amount
    }
}

/// The rules that an input's spender must satisfy.
#[derive(Debug, PartialEq, Eq)]
pub struct InputRules {
    /// Public keys of the outputs that must appear in a transaction spending the input.
    pub required_outputs: Vec<[u8; 32]>,
    /// Outputs that must appear in proportion to the fraction of the input being spent.
    pub partial_fill_outputs: Vec<PartialFillOutput>,
    /// The smallest amount of the input that a partial fill may take.
    pub min_partial_fill_value: u64,
    /// The block index from which the input can no longer be spent (0: no limit).
    pub max_tombstone_block: u64,
}

/// A signed contingent input, as the quote book reads it.
#[derive(Debug, PartialEq, Eq)]
pub struct Sci {
    /// The amount of the input being offered.
    pub pseudo_output_amount: Amount,
    /// The disclosed amounts of the required outputs, in order.
    pub required_output_amounts: Vec<Amount>,
    /// The input's rules, if any.
    pub input_rules: Option<InputRules>,
    /// The key image of the input being offered.
    pub key_image: KeyImage,
    /// The digest of the whole SCI (its quote id).
    pub digest: [u8; 32],
    /// The outcome of validating the SCI's signature and proofs.
    pub validity: Result<(), SciError>,
}

/// An element-wise copy of a vector.
pub fn copy_vec<T: Copy>(v: &Vec<T>) -> (r: Vec<T>)
    ensures
        r@ == v@,
{
    let mut r: Vec<T> = Vec::new();
    let mut i: usize = 0;
    while i < v.len()
        invariant
            0 <= i <= v.len(),
            r@ == v@.subrange(0, i as int),
        decreases v.len() - i,
    {
        r.push(v[i]);
        i = i + 1;
        assert(r@ =~= v@.subrange(0, i as int));
    }
    assert(v@.subrange(0, v@.len() as int) =~= v@);
    r
}

/// The value of a set of input rules.
pub struct InputRulesView {
    pub required_outputs: Seq<[u8; 32]>,
    pub partial_fill_outputs: Seq<PartialFillOutput>,
    pub min_partial_fill_value: u64,
    pub max_tombstone_block: u64,
}

/// The value of a signed contingent input.
pub struct SciView {
    pub pseudo_output_amount: Amount,
    pub required_output_amounts: Seq<Amount>,
    pub input_rules: Option<InputRulesView>,
    pub key_image: KeyImage,
    pub digest: [u8; 32],
    pub validity: Result<(), SciError>,
}

impl View for InputRules {
    type V = InputRulesView;

    open spec fn view(&self) -> InputRulesView {
        InputRulesView {
            required_outputs: self.required_outputs@,
            partial_fill_outputs: self.partial_fill_outputs@,
            min_partial_fill_value: self.min_partial_fill_value,
            max_tombstone_block: self.max_tombstone_block,
        }
    }
}

/// The value of optional input rules.
pub open spec fn rules_view(r: Option<InputRules>) -> Option<InputRulesView> {
    match r {
        Some(rules) => Some(rules@),
        None => None,
    }
}

impl View for Sci {
    type V = SciView;

    open spec fn view(&self) -> SciView {
        SciView {
            pseudo_output_amount: self.pseudo_output_amount,
            required_output_amounts: self.required_output_amounts@,
            input_rules: rules_view(self.input_rules),
            key_image: self.key_image,
            digest: self.digest,
            validity: self.validity,
        }
    }
}

impl Clone for InputRules {
    fn clone(&self) -> (r: Self)
        ensures
            r@ == self@,
    {
        let required_outputs = copy_vec(&self.required_outputs);
        let partial_fill_outputs = copy_vec(&self.partial_fill_outputs);
        InputRules {
            required_outputs,
            partial_fill_outputs,
            min_partial_fill_value: self.min_partial_fill_value,
            max_tombstone_block: self.max_tombstone_block,
        }
    }
}

impl Clone for Sci {
    fn clone(&self) -> (r: Self)
        ensures
            r@ == self@,
    {
        let required_output_amounts = copy_vec(&self.required_output_amounts);
        let input_rules = match &self.input_rules {
            Some(rules) => Some(rules.clone()),
            None => None,
        };
        Sci {
            pseudo_output_amount: self.pseudo_output_amount,
            required_output_amounts,
            input_rules,
            key_image: self.key_image,
            digest: self.digest,
            validity: self.validity,
        }
    }
}

impl Sci {
    /// The outcome of validating the SCI's signature and proofs.
    pub fn validate(&self) -> (r: Result<(), SciError>)
        ensures
            r == self.validity,
    {
        self.validity
    }

    /// The key image of the input being offered.
    pub fn key_image(&self) -> (r: KeyImage)
        ensures
            r == self.key_image,
    {
        self.key_image
    }

    /// The SCI's maximum tombstone block, when it has input rules.
    pub open spec fn spec_max_tombstone(self) -> Option<u64> {
        match self.input_rules {
            Some(rules) => Some(rules.max_tombstone_block),
            None => None,
        }
    }

    /// The SCI's maximum tombstone block, when it has input rules.
    pub fn max_tombstone_block(&self) -> (r: Option<u64>)
        ensures
            r == self.spec_max_tombstone(),
    {
        match &self.input_rules {
            Some(rules) => Some(rules.max_tombstone_block),
            None => None,
        }
    }
}

/// Whether two sequences of amounts are the same.
fn amounts_equal(a: &Vec<Amount>, b: &Vec<Amount>) -> (r: bool)
    ensures
        r == (a@ == b@),
{
    if a.len() != b.len() {
        return false;
    }
    let mut i: usize = 0;
    while i < a.len()
        invariant
            0 <= i <= a@.len(),
            a@.len() == b@.len(),
            forall|j: int| 0 <= j < i ==> a@[j] == b@[j],
        decreases a@.len() - i,
    {
        if a[i] != b[i] {
            return false;
        }
        i = i + 1;
    }
    assert(a@ =~= b@);
    true
}

/// Whether two sequences of output public keys are the same.
fn keys_equal(a: &Vec<[u8; 32]>, b: &Vec<[u8; 32]>) -> (r: bool)
    ensures
        r == (a@ == b@),
{
    if a.len() != b.len() {
        return false;
    }
    let mut i: usize = 0;
    while i < a.len()
        invariant
            0 <= i <= a@.len(),
            a@.len() == b@.len(),
            forall|j: int| 0 <= j < i ==> a@[j] == b@[j],
        decreases a@.len() - i,
    {
        if !bytes32_eq(&a[i], &b[i]) {
            return false;
        }
        proof {
            assert(a@[i as int] =~= b@[i as int]);
        }
        i = i + 1;
    }
    assert(a@ =~= b@);
    true
}

/// Whether two partial-fill outputs are the same.
fn partial_fill_output_equal(a: &PartialFillOutput, b: &PartialFillOutput) -> (r: bool)
    ensures
        r == (*a == *b),
{
    match (&a.revealed_amount, &b.revealed_amount) {
        (Ok(x), Ok(y)) => *x == *y,
        (Err(x), Err(y)) => *x == *y,
        _ => false,
    }
}

/// Whether two sequences of partial-fill outputs are the same.
fn partial_fill_outputs_equal(a: &Vec<PartialFillOutput>, b: &Vec<PartialFillOutput>) -> (r: bool)
    ensures
        r == (a@ == b@),
{
    if a.len() != b.len() {
        return false;
    }
    let mut i: usize = 0;
    while i < a.len()
        invariant
            0 <= i <= a@.len(),
            a@.len() == b@.len(),
            forall|j: int| 0 <= j < i ==> a@[j] == b@[j],
        decreases a@.len() - i,
    {
        if !partial_fill_output_equal(&a[i], &b[i]) {
            return false;
        }
        i = i + 1;
    }
    assert(a@ =~= b@);
    true
}

/// Whether two sets of input rules are the same.
fn input_rules_equal(a: &InputRules, b: &InputRules) -> (r: bool)
    ensures
        r == (a@ == b@),
{
    let r = keys_equal(&a.required_outputs, &b.required_outputs) && partial_fill_outputs_equal(
        &a.partial_fill_outputs,
        &b.partial_fill_outputs,
    ) && a.min_partial_fill_value == b.min_partial_fill_value && a.max_tombstone_block
        == b.max_tombstone_block;
    r
}

/// Whether two SCIs are the same.
pub fn sci_equal(a: &Sci, b: &Sci) -> (r: bool)
    ensures
        r == (a@ == b@),
{
    if a.pseudo_output_amount != b.pseudo_output_amount {
        return false;
    }
    if !amounts_equal(&a.required_output_amounts, &b.required_output_amounts) {
        return false;
    }
    let rules_equal = match (&a.input_rules, &b.input_rules) {
        (Some(x), Some(y)) => input_rules_equal(x, y),
        (None, None) => true,
        _ => false,
    };
    if !rules_equal {
        return false;
    }
    if !a.key_image.same_as(&b.key_image) {
        return false;
    }
    if !bytes32_eq(&a.digest, &b.digest) {
        return false;
    }
    proof {
        assert(a.digest =~= b.digest);
        assert(a@.pseudo_output_amount == b@.pseudo_output_amount);
        assert(a@.required_output_amounts == b@.required_output_amounts);
        assert(a@.input_rules == b@.input_rules);
        assert(a@.key_image == b@.key_image);
        assert(a@.digest == b@.digest);
    }
    validity_equal(&a.validity, &b.validity)
}

/// Whether two validation outcomes are the same.
fn validity_equal(a: &Result<(), SciError>, b: &Result<(), SciError>) -> (r: bool)
    ensures
        r == (*a == *b),
{
    if a.is_ok() {
        if b.is_ok() {
            assert(a is Ok);
            assert(b is Ok);
            assert(a->Ok_0 == b->Ok_0);
            assert(*a == *b);
            return true;
        }
        return false;
    }
    if b.is_ok() {
        return false;
    }
    let x = a.unwrap_err();
    let y = b.unwrap_err();
    assert(x == y ==> *a == *b);
    x == y
}

} // verus!
