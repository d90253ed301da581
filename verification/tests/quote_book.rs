use deqs::api::{
    quote_from_api, quote_to_api, status_code_of, ApiOrderId, ApiPair, ApiQuoteId,
    ConversionError, QuoteStatusCode,
};
use deqs::error::Error;
use deqs::quote::Quote;
use deqs::quote_book::InMemoryQuoteBook;
use deqs::range::{range_overlaps, InclusiveRange, RangeBound, U64Range};
use deqs::sci::{InputRules, PartialFillOutput, RevealError, RingSignatureError, Sci, SciError};
use deqs::storage::{check_deleted_count, into_quote_book_error, QuoteRow, StorageError};
use deqs::synchronized::{BlockFetch, DbFetcher, SynchronizedQuoteBook};
use deqs::types::{Amount, KeyImage, OrderId, Pair, QuoteId};

/// Builds SCIs whose key images and digests are distinct and grow with each SCI built.
struct SciMaker {
    next: u64,
}

impl SciMaker {
    fn new() -> Self {
        SciMaker { next: 0 }
    }

    fn fresh_bytes(&mut self) -> [u8; 32] {
        self.next += 1;
        let mut b = [0u8; 32];
        b[..8].copy_from_slice(&self.next.to_be_bytes());
        b
    }

    /// An SCI offering `base_amount` of the pair's base token for exactly `counter_amount` of
    /// its counter token, with the given tombstone block.
    fn sci_with_tombstone(
        &mut self,
        pair: &Pair,
        base_amount: u64,
        counter_amount: u64,
        tombstone: u64,
    ) -> Sci {
        let key_image = KeyImage(self.fresh_bytes());
        let digest = self.fresh_bytes();
        Sci {
            pseudo_output_amount: Amount { value: base_amount, token_id: pair.base_token_id },
            required_output_amounts: vec![Amount {
                value: counter_amount,
                token_id: pair.counter_token_id,
            }],
            input_rules: Some(InputRules {
                required_outputs: vec![[7u8; 32]],
                partial_fill_outputs: vec![],
                min_partial_fill_value: 0,
                max_tombstone_block: tombstone,
            }),
            key_image,
            digest,
            validity: Ok(()),
        }
    }

    fn create_sci(&mut self, pair: &Pair, base_amount: u64, counter_amount: u64) -> Sci {
        self.sci_with_tombstone(pair, base_amount, counter_amount, 2000)
    }

    /// A partial-fill SCI offering up to `offered` base tokens, at least `min_fill`, keeping
    /// `change` as required change, for `counter_amount` counter tokens for the whole input.
    fn create_partial_sci(
        &mut self,
        pair: &Pair,
        offered: u64,
        min_fill: u64,
        change: u64,
        counter_amount: u64,
    ) -> Sci {
        let key_image = KeyImage(self.fresh_bytes());
        let digest = self.fresh_bytes();
        let (required_outputs, required_output_amounts) = if change > 0 {
            (vec![[9u8; 32]], vec![Amount { value: change, token_id: pair.base_token_id }])
        } else {
            (vec![], vec![])
        };
        Sci {
            pseudo_output_amount: Amount { value: offered, token_id: pair.base_token_id },
            required_output_amounts,
            input_rules: Some(InputRules {
                required_outputs,
                partial_fill_outputs: vec![PartialFillOutput {
                    revealed_amount: Ok(Amount {
                        value: counter_amount,
                        token_id: pair.counter_token_id,
                    }),
                }],
                min_partial_fill_value: min_fill,
                max_tombstone_block: 0,
            }),
            key_image,
            digest,
            validity: Ok(()),
        }
    }
}

fn pair() -> Pair {
    Pair { base_token_id: 1, counter_token_id: 2 }
}

fn quote_of(sci: Sci) -> Quote {
    Quote::new(sci, None).unwrap()
}

#[test]
fn test_quote_id_from() {
    let source: QuoteId = QuoteId([4; 32]);
    let converted = ApiQuoteId::from(&source);
    assert_eq!(converted.data, source.to_vec());
}

#[test]
fn test_order_id_from() {
    let source: OrderId = OrderId([4; 32]);
    let converted = ApiOrderId::from(&source);
    assert_eq!(converted.data, source.to_vec());
}

#[test]
fn test_quote_id_try_from() {
    let source = ApiQuoteId { data: QuoteId([5; 32]).to_vec() };
    let quote_id = QuoteId::try_from(&source).unwrap();
    assert_eq!(quote_id, QuoteId([5; 32]));
}

#[test]
fn test_order_id_try_from() {
    let source = ApiOrderId { data: OrderId([5; 32]).to_vec() };
    let order_id = OrderId::try_from(&source).unwrap();
    assert_eq!(order_id, OrderId([5; 32]));
}

#[test]
fn test_quote_id_try_from_conversion_errors() {
    for bytes in [vec![11u8; 119], vec![11u8; 3]] {
        let source = ApiQuoteId { data: bytes };
        match QuoteId::try_from(&source).unwrap_err() {
            ConversionError::ArrayCastError => {}
        }
    }
}

#[test]
fn test_order_id_try_from_conversion_errors() {
    for bytes in [vec![11u8; 119], vec![11u8; 3]] {
        let source = ApiOrderId { data: bytes };
        match OrderId::try_from(&source).unwrap_err() {
            ConversionError::ArrayCastError => {}
        }
    }
}

#[test]
fn test_pair_identity() {
    let source = Pair { base_token_id: 10203040, counter_token_id: 40506070 };
    let converted = ApiPair::from(&source);
    let recovered = Pair::from(&converted);
    assert_eq!(source, recovered);
}

#[test]
fn test_quote_identity() {
    let mut maker = SciMaker::new();
    let sci = maker.create_sci(&Pair { base_token_id: 43432, counter_token_id: 6886868 }, 10, 30);
    let source = quote_of(sci);
    let converted = quote_to_api(&source);
    let recovered = quote_from_api(&converted).unwrap();
    assert_eq!(source, recovered);
}

#[test]
fn quote_id_hex_is_lowercase_and_high_nibble_first() {
    let mut bytes = [0u8; 32];
    bytes[0] = 0xab;
    bytes[31] = 0x0f;
    let hex = QuoteId(bytes).to_hex();
    assert_eq!(hex.len(), 64);
    assert!(hex.starts_with("ab00"));
    assert!(hex.ends_with("000f"));
}

#[test]
fn status_codes_of_errors() {
    assert_eq!(
        status_code_of(&Error::Sci(SciError::MissingRules)),
        QuoteStatusCode::INVALID_SCI
    );
    assert_eq!(
        status_code_of(&Error::UnsupportedSci("x".to_string())),
        QuoteStatusCode::UNSUPPORTED_SCI
    );
    assert_eq!(status_code_of(&Error::QuoteNotFound), QuoteStatusCode::OTHER);
    assert_eq!(status_code_of(&Error::QuoteIsStale), QuoteStatusCode::OTHER);
}

#[test]
fn test_max_tokens() {
    let mut maker = SciMaker::new();

    let quote = quote_of(maker.create_sci(&pair(), 10, 20));
    assert_eq!(quote.max_base_tokens(), 10);
    assert_eq!(quote.max_counter_tokens(), 20);

    let quote = quote_of(maker.create_partial_sci(&pair(), 10, 0, 0, 100));
    assert_eq!(quote.max_base_tokens(), 10);
    assert_eq!(quote.max_counter_tokens(), 100);

    let quote = quote_of(maker.create_partial_sci(&pair(), 10, 7, 0, 100));
    assert_eq!(quote.max_base_tokens(), 10);
    assert_eq!(quote.max_counter_tokens(), 100);

    let quote = quote_of(maker.create_partial_sci(&pair(), 10, 0, 5, 100));
    assert_eq!(quote.max_base_tokens(), 5);
    assert_eq!(quote.max_counter_tokens(), 100);

    let quote = quote_of(maker.create_partial_sci(&pair(), 10, 3, 5, 100));
    assert_eq!(quote.max_base_tokens(), 5);
    assert_eq!(quote.max_counter_tokens(), 100);
}

#[test]
fn test_sorting() {
    let mut maker = SciMaker::new();

    let quote_1_for_10 = quote_of(maker.create_sci(&pair(), 1, 10));
    let quote_2_for_10 = quote_of(maker.create_sci(&pair(), 2, 10));
    let quote_3_for_10 = quote_of(maker.create_sci(&pair(), 3, 10));
    let quote_1_for_5 = quote_of(maker.create_sci(&pair(), 1, 5));
    let quote_2_for_5 = quote_of(maker.create_sci(&pair(), 2, 5));
    let quote_3_for_5 = quote_of(maker.create_sci(&pair(), 3, 5));
    let quote_10_for_10 = quote_of(maker.create_sci(&pair(), 10, 10));
    let quote_20_for_10 = quote_of(maker.create_sci(&pair(), 20, 10));
    let quote_30_for_10 = quote_of(maker.create_sci(&pair(), 30, 10));

    let all_quotes = vec![
        &quote_1_for_10,
        &quote_2_for_10,
        &quote_3_for_10,
        &quote_1_for_5,
        &quote_2_for_5,
        &quote_3_for_5,
        &quote_10_for_10,
        &quote_20_for_10,
        &quote_30_for_10,
    ];

    let expected_quotes = vec![
        &quote_30_for_10,
        &quote_20_for_10,
        &quote_10_for_10,
        &quote_3_for_5,
        &quote_2_for_5,
        &quote_3_for_10,
        &quote_2_for_10,
        &quote_1_for_5,
        &quote_1_for_10,
    ];

    let mut quotes = all_quotes.clone();
    quotes.sort_by(|a, b| a.compare(b));
    assert_eq!(quotes, expected_quotes);

    let mut quotes = all_quotes.clone();
    quotes.reverse();
    quotes.sort_by(|a, b| a.compare(b));
    assert_eq!(quotes, expected_quotes);

    let mut quotes = all_quotes.clone();
    quotes.rotate_left(4);
    quotes.swap(0, 7);
    quotes.sort_by(|a, b| a.compare(b));
    assert_eq!(quotes, expected_quotes);
}

#[test]
fn quote_counter_tokens_cost_works_for_non_partial_fill_scis() {
    let mut maker = SciMaker::new();
    let quote = quote_of(maker.create_sci(&pair(), 10, 20));

    assert_eq!(quote.counter_tokens_cost(10), Ok(20));
    assert!(quote.counter_tokens_cost(9).is_err());
    assert!(quote.counter_tokens_cost(11).is_err());
    assert!(quote.counter_tokens_cost(0).is_err());
    assert!(quote.counter_tokens_cost(u64::MAX).is_err());
}

#[test]
fn quote_counter_tokens_cost_works_for_partial_fill_no_change_no_min() {
    let mut maker = SciMaker::new();

    let quote = quote_of(maker.create_partial_sci(&pair(), 10, 0, 0, 100));
    assert_eq!(quote.counter_tokens_cost(10), Ok(100));
    assert_eq!(quote.counter_tokens_cost(5), Ok(50));
    assert_eq!(quote.counter_tokens_cost(0), Ok(0));
    assert!(quote.counter_tokens_cost(11).is_err());
    assert!(quote.counter_tokens_cost(u64::MAX).is_err());

    let quote = quote_of(maker.create_partial_sci(&pair(), 100, 0, 0, 10));
    assert_eq!(quote.counter_tokens_cost(100), Ok(10));
    assert_eq!(quote.counter_tokens_cost(50), Ok(5));
    assert_eq!(quote.counter_tokens_cost(51), Ok(5));
    assert_eq!(quote.counter_tokens_cost(59), Ok(5));
    assert_eq!(quote.counter_tokens_cost(60), Ok(6));
    assert_eq!(quote.counter_tokens_cost(1), Ok(0));
    assert_eq!(quote.counter_tokens_cost(0), Ok(0));
    assert!(quote.counter_tokens_cost(101).is_err());
    assert!(quote.counter_tokens_cost(u64::MAX).is_err());
}

#[test]
fn quote_counter_tokens_cost_works_for_partial_fill_no_change_with_min() {
    let mut maker = SciMaker::new();

    let quote = quote_of(maker.create_partial_sci(&pair(), 10, 7, 0, 100));
    assert_eq!(quote.counter_tokens_cost(10), Ok(100));
    assert_eq!(quote.counter_tokens_cost(7), Ok(70));
    assert!(quote.counter_tokens_cost(6).is_err());
    assert!(quote.counter_tokens_cost(0).is_err());
    assert!(quote.counter_tokens_cost(11).is_err());
    assert!(quote.counter_tokens_cost(u64::MAX).is_err());

    let quote = quote_of(maker.create_partial_sci(&pair(), 100, 55, 0, 10));
    assert_eq!(quote.counter_tokens_cost(100), Ok(10));
    assert_eq!(quote.counter_tokens_cost(55), Ok(5));
    assert_eq!(quote.counter_tokens_cost(59), Ok(5));
    assert_eq!(quote.counter_tokens_cost(60), Ok(6));
    assert!(quote.counter_tokens_cost(0).is_err());
    assert!(quote.counter_tokens_cost(1).is_err());
    assert!(quote.counter_tokens_cost(54).is_err());
    assert!(quote.counter_tokens_cost(101).is_err());
    assert!(quote.counter_tokens_cost(u64::MAX).is_err());
}

#[test]
fn quote_counter_tokens_cost_works_for_partial_fill_with_change_no_min() {
    let mut maker = SciMaker::new();

    let quote = quote_of(maker.create_partial_sci(&pair(), 10, 0, 3, 100));
    assert_eq!(quote.counter_tokens_cost(7), Ok(70));
    assert_eq!(quote.counter_tokens_cost(6), Ok(60));
    assert_eq!(quote.counter_tokens_cost(1), Ok(10));
    assert_eq!(quote.counter_tokens_cost(0), Ok(0));
    assert!(quote.counter_tokens_cost(8).is_err());
    assert!(quote.counter_tokens_cost(u64::MAX).is_err());

    let quote = quote_of(maker.create_partial_sci(&pair(), 100, 0, 30, 10));
    assert_eq!(quote.counter_tokens_cost(70), Ok(7));
    assert_eq!(quote.counter_tokens_cost(60), Ok(6));
    assert_eq!(quote.counter_tokens_cost(61), Ok(6));
    assert_eq!(quote.counter_tokens_cost(69), Ok(6));
    assert_eq!(quote.counter_tokens_cost(1), Ok(0));
    assert_eq!(quote.counter_tokens_cost(0), Ok(0));
    assert!(quote.counter_tokens_cost(71).is_err());
    assert!(quote.counter_tokens_cost(101).is_err());
    assert!(quote.counter_tokens_cost(u64::MAX).is_err());
}

#[test]
fn quote_counter_tokens_cost_works_for_partial_fill_with_change_and_min() {
    let mut maker = SciMaker::new();

    let quote = quote_of(maker.create_partial_sci(&pair(), 10, 5, 3, 100));
    assert_eq!(quote.counter_tokens_cost(7), Ok(70));
    assert_eq!(quote.counter_tokens_cost(6), Ok(60));
    assert_eq!(quote.counter_tokens_cost(5), Ok(50));
    assert!(quote.counter_tokens_cost(8).is_err());
    assert!(quote.counter_tokens_cost(4).is_err());
    assert!(quote.counter_tokens_cost(u64::MAX).is_err());

    let quote = quote_of(maker.create_partial_sci(&pair(), 100, 50, 30, 10));
    assert_eq!(quote.counter_tokens_cost(70), Ok(7));
    assert_eq!(quote.counter_tokens_cost(50), Ok(5));
    assert_eq!(quote.counter_tokens_cost(51), Ok(5));
    assert_eq!(quote.counter_tokens_cost(59), Ok(5));
    assert!(quote.counter_tokens_cost(71).is_err());
    assert!(quote.counter_tokens_cost(101).is_err());
    assert!(quote.counter_tokens_cost(u64::MAX).is_err());
    assert!(quote.counter_tokens_cost(49).is_err());
    assert!(quote.counter_tokens_cost(1).is_err());
    assert!(quote.counter_tokens_cost(0).is_err());
}

#[test]
fn insufficient_base_tokens_reports_the_amount() {
    let mut maker = SciMaker::new();
    let quote = quote_of(maker.create_sci(&pair(), 10, 20));
    assert_eq!(quote.counter_tokens_cost(9), Err(Error::InsufficientBaseTokens(9)));
}

#[test]
fn quote_rejections_carry_their_messages() {
    let mut maker = SciMaker::new();

    let mut sci = maker.create_sci(&pair(), 10, 20);
    sci.input_rules = None;
    assert_eq!(
        Quote::new(sci, Some(1)).unwrap_err(),
        Error::UnsupportedSci("Missing input rules".to_string())
    );

    let mut sci = maker.create_sci(&pair(), 10, 20);
    sci.required_output_amounts = vec![];
    sci.input_rules.as_mut().unwrap().required_outputs = vec![];
    assert_eq!(
        Quote::new(sci, Some(1)).unwrap_err(),
        Error::UnsupportedSci("No required/partial outputs".to_string())
    );

    let mut sci = maker.create_partial_sci(&pair(), 10, 0, 3, 100);
    sci.required_output_amounts[0].token_id = 5;
    assert_eq!(
        Quote::new(sci, Some(1)).unwrap_err(),
        Error::UnsupportedSci(
            "Suspected required-change-output token id 5 does not match partial output token id 2"
                .to_string()
        )
    );

    let mut sci = maker.create_partial_sci(&pair(), 10, 0, 3, 100);
    sci.required_output_amounts[0].value = 11;
    assert_eq!(
        Quote::new(sci, Some(1)).unwrap_err(),
        Error::UnsupportedSci("max base amount 10 is lower than required change 11".to_string())
    );

    let mut sci = maker.create_partial_sci(&pair(), 10, 0, 0, 100);
    sci.input_rules.as_mut().unwrap().partial_fill_outputs[0].revealed_amount =
        Err(RevealError::AmountMismatch);
    assert_eq!(
        Quote::new(sci, Some(1)).unwrap_err(),
        Error::RevealedTxOut(RevealError::AmountMismatch)
    );
}

#[test]
fn quote_with_timestamp_keeps_it() {
    let mut maker = SciMaker::new();
    let sci = maker.create_sci(&pair(), 10, 20);
    let digest = sci.digest;
    let quote = Quote::new(sci, Some(1234)).unwrap();
    assert_eq!(quote.timestamp(), 1234);
    assert_eq!(*quote.id(), QuoteId(digest));
    assert_eq!(*quote.pair(), pair());
    assert_eq!(*quote.base_range(), InclusiveRange { start: 10, end: 10 });
}

#[test]
fn range_overlaps_examples() {
    assert!(range_overlaps(&U64Range::full(), &U64Range::inclusive(3, 3)));
    assert!(range_overlaps(&U64Range::half_open(0, 10), &U64Range::inclusive(9, 20)));
    assert!(!range_overlaps(&U64Range::half_open(0, 10), &U64Range::inclusive(10, 20)));
    assert!(!range_overlaps(&U64Range::from_start(50), &U64Range::half_open(0, 50)));
    assert!(range_overlaps(&U64Range::from_start(50), &U64Range::inclusive(0, 50)));
    // An empty range overlaps nothing.
    assert!(!range_overlaps(&U64Range::half_open(5, 5), &U64Range::inclusive(0, 10)));
    assert!(!range_overlaps(&U64Range::half_open(0, 0), &U64Range::full()));
    assert!(!range_overlaps(&U64Range::inclusive(7, 3), &U64Range::full()));
    let after_max = U64Range { start: RangeBound::Excluded(u64::MAX), end: RangeBound::Unbounded };
    assert!(!range_overlaps(&after_max, &U64Range::full()));
    let below_zero = U64Range { start: RangeBound::Unbounded, end: RangeBound::Excluded(0) };
    assert!(!range_overlaps(&U64Range::full(), &below_zero));
    assert!(range_overlaps(&U64Range::inclusive(u64::MAX, u64::MAX), &U64Range::full()));
}

#[test]
fn empty_request_finds_no_quote() {
    let mut quote_book = InMemoryQuoteBook::new();
    let mut maker = SciMaker::new();
    quote_book.add_sci(maker.create_partial_sci(&pair(), 100, 1, 0, 1000), None).unwrap();
    assert_eq!(quote_book.get_quotes(&pair(), &U64Range::half_open(5, 5), 0).unwrap(), vec![]);
    assert_eq!(quote_book.get_quotes(&pair(), &U64Range::half_open(5, 6), 0).unwrap().len(), 1);
}

fn book_basic_happy_flow(quote_book: &mut InMemoryQuoteBook) {
    let pair = pair();
    let mut maker = SciMaker::new();

    let quote = quote_book.add_sci(maker.create_sci(&pair, 10, 20), None).unwrap();
    let quotes = quote_book.get_quotes(&pair, &U64Range::full(), 0).unwrap();
    assert_eq!(quotes, vec![quote.clone()]);

    let quote2 = quote_book.add_sci(maker.create_sci(&pair, 10, 200), None).unwrap();
    let quotes = quote_book.get_quotes(&pair, &U64Range::full(), 0).unwrap();
    assert_eq!(quotes, vec![quote.clone(), quote2.clone()]);

    assert_eq!(quote, quote_book.remove_quote_by_id(quote.id()).unwrap());
    let quotes = quote_book.get_quotes(&pair, &U64Range::full(), 0).unwrap();
    assert_eq!(quotes, vec![quote2.clone()]);

    assert_eq!(quote_book.remove_quote_by_id(quote.id()).unwrap_err(), Error::QuoteNotFound);
    assert_eq!(
        quote_book.remove_quotes_by_key_image(&quote.sci().key_image()).unwrap(),
        vec![]
    );

    assert_eq!(
        vec![quote2.clone()],
        quote_book.remove_quotes_by_key_image(&quote2.sci().key_image()).unwrap()
    );
    let quotes = quote_book.get_quotes(&pair, &U64Range::full(), 0).unwrap();
    assert_eq!(quotes, vec![]);

    let quote1 = quote_book.add_sci(maker.create_sci(&pair, 10, 20), None).unwrap();
    let quote1_tombstone = quote.sci().input_rules.as_ref().unwrap().max_tombstone_block;
    let sci2 = maker.sci_with_tombstone(&pair, 10, 20, quote1_tombstone - 1);
    let quote2 = quote_book.add_sci(sci2, None).unwrap();
    let sci3 = maker.sci_with_tombstone(&pair, 10, 20, 0);
    let quote3 = quote_book.add_sci(sci3, None).unwrap();

    assert_eq!(
        quote_book.remove_quotes_by_tombstone_block(quote1_tombstone - 1).unwrap(),
        vec![quote2]
    );
    assert_eq!(
        quote_book.remove_quotes_by_tombstone_block(quote1_tombstone - 1).unwrap(),
        vec![]
    );
    assert_eq!(
        quote_book.remove_quotes_by_tombstone_block(quote1_tombstone).unwrap(),
        vec![quote1]
    );
    assert_eq!(quote_book.remove_quotes_by_tombstone_block(quote1_tombstone).unwrap(), vec![]);

    // The quote with a zero tombstone block is still there.
    let quotes = quote_book.get_quotes(&pair, &U64Range::full(), 0).unwrap();
    assert_eq!(quotes, vec![quote3]);
}

fn book_cannot_add_invalid_sci(quote_book: &mut InMemoryQuoteBook) {
    let pair = pair();
    let mut maker = SciMaker::new();

    let mut sci = maker.create_sci(&pair, 10, 20);
    sci.required_output_amounts.push(Amount { value: 10, token_id: 3 });
    sci.input_rules.as_mut().unwrap().required_outputs.push([8u8; 32]);
    assert_eq!(
        quote_book.add_sci(sci, None).unwrap_err(),
        Error::UnsupportedSci("Unsupported number of required/partial outputs 2/0".into())
    );

    let mut sci = maker.create_sci(&pair, 10, 20);
    sci.validity = Err(SciError::RingSignature(RingSignatureError::LengthMismatch(22, 21)));
    assert_eq!(
        quote_book.add_sci(sci, None).unwrap_err(),
        Error::Sci(SciError::RingSignature(RingSignatureError::LengthMismatch(22, 21)))
    );
}

fn book_get_quotes_filtering_works(quote_book: &mut InMemoryQuoteBook) {
    let pair1 = pair();
    let pair2 = Pair { base_token_id: 10, counter_token_id: 2 };
    let mut maker = SciMaker::new();

    let p1_100_for_1000 = quote_book.add_sci(maker.create_sci(&pair1, 100, 1000), None).unwrap();
    let p2_100_for_1000 =
        quote_book.add_sci(maker.create_partial_sci(&pair2, 100, 1, 0, 1000), None).unwrap();
    let p2_5_for_50 =
        quote_book.add_sci(maker.create_partial_sci(&pair2, 5, 1, 0, 50), None).unwrap();
    let p2_50_for_5 =
        quote_book.add_sci(maker.create_partial_sci(&pair2, 50, 1, 0, 5), None).unwrap();
    let p2_50_for_3 = quote_book.add_sci(maker.create_sci(&pair2, 50, 3), None).unwrap();

    let quotes = quote_book.get_quotes(&pair1, &U64Range::full(), 0).unwrap();
    assert_eq!(quotes, vec![p1_100_for_1000.clone()]);

    let quotes = quote_book.get_quotes(&pair2, &U64Range::full(), 0).unwrap();
    assert_eq!(
        quotes,
        vec![
            p2_50_for_3.clone(),
            p2_50_for_5.clone(),
            p2_100_for_1000.clone(),
            p2_5_for_50.clone(),
        ]
    );

    let quotes = quote_book.get_quotes(&pair1, &U64Range::full(), 2).unwrap();
    assert_eq!(quotes, vec![p1_100_for_1000.clone()]);

    let quotes = quote_book.get_quotes(&pair2, &U64Range::full(), 2).unwrap();
    assert_eq!(quotes, vec![p2_50_for_3.clone(), p2_50_for_5.clone()]);

    let quotes = quote_book.get_quotes(&pair1, &U64Range::from_start(10000), 2).unwrap();
    assert_eq!(quotes, vec![]);

    let quotes = quote_book.get_quotes(&pair2, &U64Range::from_start(10000), 2).unwrap();
    assert_eq!(quotes, vec![]);

    let quotes = quote_book.get_quotes(&pair2, &U64Range::from_start(50), 0).unwrap();
    assert_eq!(
        quotes,
        vec![p2_50_for_3.clone(), p2_50_for_5.clone(), p2_100_for_1000.clone()]
    );

    let quotes = quote_book.get_quotes(&pair2, &U64Range::from_start(51), 0).unwrap();
    assert_eq!(quotes, vec![p2_100_for_1000.clone()]);

    let quotes = quote_book.get_quotes(&pair2, &U64Range::half_open(50, 70), 0).unwrap();
    assert_eq!(
        quotes,
        vec![p2_50_for_3.clone(), p2_50_for_5.clone(), p2_100_for_1000.clone()]
    );
}

fn sorted_ids(mut ids: Vec<QuoteId>) -> Vec<QuoteId> {
    ids.sort_by(|a, b| a.0.cmp(&b.0));
    ids
}

fn book_get_quote_ids_works(quote_book: &mut InMemoryQuoteBook) {
    let pair1 = pair();
    let pair2 = Pair { base_token_id: 10, counter_token_id: 2 };
    let pair3 = Pair { base_token_id: 20, counter_token_id: 2 };
    let mut maker = SciMaker::new();

    let quote1 = quote_book.add_sci(maker.create_sci(&pair1, 100, 1000), None).unwrap();
    let quote2 = quote_book.add_sci(maker.create_sci(&pair1, 100, 1000), None).unwrap();
    let quote3 = quote_book.add_sci(maker.create_sci(&pair2, 100, 1000), None).unwrap();

    let quote_ids = quote_book.get_quote_ids(None).unwrap();
    assert_eq!(sorted_ids(quote_ids), sorted_ids(vec![*quote1.id(), *quote2.id(), *quote3.id()]));

    let quote_ids = quote_book.get_quote_ids(Some(&pair1)).unwrap();
    assert_eq!(sorted_ids(quote_ids), sorted_ids(vec![*quote1.id(), *quote2.id()]));

    let quote_ids = quote_book.get_quote_ids(Some(&pair2)).unwrap();
    assert_eq!(quote_ids, vec![*quote3.id()]);

    let quote_ids = quote_book.get_quote_ids(Some(&pair3)).unwrap();
    assert_eq!(quote_ids, vec![]);
}

fn book_get_quote_by_id_works(quote_book: &mut InMemoryQuoteBook) {
    let pair1 = pair();
    let mut maker = SciMaker::new();

    let quote1 = quote_book.add_sci(maker.create_sci(&pair1, 100, 1000), None).unwrap();
    let quote2 = quote_of(maker.create_sci(&pair1, 100, 1000));

    assert_eq!(quote_book.get_quote_by_id(quote1.id()).unwrap(), Some(quote1.clone()));
    assert_eq!(quote_book.get_quote_by_id(quote2.id()).unwrap(), None);
}

#[test]
fn in_memory_quote_book_basic_happy_flow() {
    let mut quote_book = InMemoryQuoteBook::new();
    book_basic_happy_flow(&mut quote_book);
}

#[test]
fn in_memory_quote_book_cannot_add_invalid_sci() {
    let mut quote_book = InMemoryQuoteBook::new();
    book_cannot_add_invalid_sci(&mut quote_book);
}

#[test]
fn in_memory_quote_book_get_quotes_filtering_works() {
    let mut quote_book = InMemoryQuoteBook::new();
    book_get_quotes_filtering_works(&mut quote_book);
}

#[test]
fn in_memory_quote_book_get_quote_ids_works() {
    let mut quote_book = InMemoryQuoteBook::new();
    book_get_quote_ids_works(&mut quote_book);
}

#[test]
fn in_memory_quote_book_get_quote_by_id_works() {
    let mut quote_book = InMemoryQuoteBook::new();
    book_get_quote_by_id_works(&mut quote_book);
}

#[test]
fn in_memory_quote_book_cannot_add_duplicate_sci() {
    let mut quote_book = InMemoryQuoteBook::new();
    let mut maker = SciMaker::new();
    let sci = maker.create_sci(&pair(), 10, 20);
    let quote1 = quote_book.add_sci(sci.clone(), None).unwrap();

    match quote_book.add_sci(sci.clone(), None).unwrap_err() {
        Error::QuoteAlreadyExists { existing_quote } => assert_eq!(*existing_quote, quote1),
        other => panic!("unexpected error {:?}", other),
    }

    let mut sci2 = sci.clone();
    sci2.digest[31] ^= 1;
    match quote_book.add_sci(sci2.clone(), None).unwrap_err() {
        Error::QuoteAlreadyExists { existing_quote } => assert_eq!(*existing_quote, quote1),
        other => panic!("unexpected error {:?}", other),
    }

    assert_eq!(sci.key_image(), sci2.key_image());
    let quote2 = quote_of(sci2);
    assert_ne!(quote1.id(), quote2.id());
    assert_eq!(quote1.key_image(), quote2.key_image());
    assert_eq!(quote_book.num_scis().unwrap(), 1);
}

/// A ledger of three blocks, as the synchronized tests set up.
const LEDGER_NUM_BLOCKS: u64 = 3;

fn synchronized_book() -> SynchronizedQuoteBook {
    SynchronizedQuoteBook::new(InMemoryQuoteBook::new())
}

#[test]
fn synchronized_quote_book_basic_happy_flow() {
    let mut book = synchronized_book();
    let pair = pair();
    let mut maker = SciMaker::new();

    let quote = book
        .add_sci(maker.create_sci(&pair, 10, 20), None, Ok(LEDGER_NUM_BLOCKS), Ok(false))
        .unwrap();
    assert_eq!(book.get_quotes(&pair, &U64Range::full(), 0).unwrap(), vec![quote.clone()]);

    let quote2 = book
        .add_sci(maker.create_sci(&pair, 10, 200), None, Ok(LEDGER_NUM_BLOCKS), Ok(false))
        .unwrap();
    assert_eq!(
        book.get_quotes(&pair, &U64Range::full(), 0).unwrap(),
        vec![quote.clone(), quote2.clone()]
    );

    assert_eq!(quote, book.remove_quote_by_id(quote.id()).unwrap());
    assert_eq!(book.remove_quote_by_id(quote.id()).unwrap_err(), Error::QuoteNotFound);
    assert_eq!(
        vec![quote2.clone()],
        book.remove_quotes_by_key_image(&quote2.sci().key_image()).unwrap()
    );
    assert_eq!(book.get_quotes(&pair, &U64Range::full(), 0).unwrap(), vec![]);
}

#[test]
fn cannot_add_duplicate_sci() {
    let mut book = synchronized_book();
    let mut maker = SciMaker::new();
    let sci = maker.create_sci(&pair(), 10, 20);
    let quote1 = book.add_sci(sci.clone(), None, Ok(LEDGER_NUM_BLOCKS), Ok(false)).unwrap();
    match book.add_sci(sci, None, Ok(LEDGER_NUM_BLOCKS), Ok(false)).unwrap_err() {
        Error::QuoteAlreadyExists { existing_quote } => assert_eq!(*existing_quote, quote1),
        other => panic!("unexpected error {:?}", other),
    }
}

#[test]
fn synchronized_quote_book_cannot_add_invalid_sci() {
    let mut book = synchronized_book();
    let mut maker = SciMaker::new();
    let mut sci = maker.create_sci(&pair(), 10, 20);
    sci.validity = Err(SciError::RingSignature(RingSignatureError::LengthMismatch(22, 21)));
    assert_eq!(
        book.add_sci(sci, None, Ok(LEDGER_NUM_BLOCKS), Ok(false)).unwrap_err(),
        Error::Sci(SciError::RingSignature(RingSignatureError::LengthMismatch(22, 21)))
    );
}

#[test]
fn synchronized_quote_book_get_quotes_filtering_works() {
    let mut book = synchronized_book();
    let pair2 = Pair { base_token_id: 10, counter_token_id: 2 };
    let mut maker = SciMaker::new();
    let p2_100_for_1000 = book
        .add_sci(
            maker.create_partial_sci(&pair2, 100, 1, 0, 1000),
            None,
            Ok(LEDGER_NUM_BLOCKS),
            Ok(false),
        )
        .unwrap();
    let p2_50_for_3 = book
        .add_sci(maker.create_sci(&pair2, 50, 3), None, Ok(LEDGER_NUM_BLOCKS), Ok(false))
        .unwrap();
    assert_eq!(
        book.get_quotes(&pair2, &U64Range::from_start(50), 0).unwrap(),
        vec![p2_50_for_3.clone(), p2_100_for_1000.clone()]
    );
    assert_eq!(
        book.get_quotes(&pair2, &U64Range::from_start(51), 0).unwrap(),
        vec![p2_100_for_1000.clone()]
    );
}

#[test]
fn get_quote_ids_works() {
    let mut book = synchronized_book();
    let pair1 = pair();
    let pair2 = Pair { base_token_id: 10, counter_token_id: 2 };
    let mut maker = SciMaker::new();
    let quote1 = book
        .add_sci(maker.create_sci(&pair1, 100, 1000), None, Ok(LEDGER_NUM_BLOCKS), Ok(false))
        .unwrap();
    let quote3 = book
        .add_sci(maker.create_sci(&pair2, 100, 1000), None, Ok(LEDGER_NUM_BLOCKS), Ok(false))
        .unwrap();
    assert_eq!(
        sorted_ids(book.get_quote_ids(None).unwrap()),
        sorted_ids(vec![*quote1.id(), *quote3.id()])
    );
    assert_eq!(book.get_quote_ids(Some(&pair2)).unwrap(), vec![*quote3.id()]);
}

#[test]
fn get_quote_by_id_works() {
    let mut book = synchronized_book();
    let mut maker = SciMaker::new();
    let quote1 = book
        .add_sci(maker.create_sci(&pair(), 100, 1000), None, Ok(LEDGER_NUM_BLOCKS), Ok(false))
        .unwrap();
    let quote2 = quote_of(maker.create_sci(&pair(), 100, 1000));
    assert_eq!(book.get_quote_by_id(quote1.id()).unwrap(), Some(quote1.clone()));
    assert_eq!(book.get_quote_by_id(quote2.id()).unwrap(), None);
}

#[test]
fn cannot_add_sci_with_key_image_in_ledger() {
    let mut book = synchronized_book();
    let pair = pair();
    let mut maker = SciMaker::new();

    let sci = maker.create_sci(&pair, 10, 20);
    assert_eq!(
        book.add_sci(sci, None, Ok(LEDGER_NUM_BLOCKS + 1), Ok(true)).unwrap_err(),
        Error::QuoteIsStale
    );

    let sci = maker.create_sci(&pair, 10, 20);
    let quote = book.add_sci(sci, None, Ok(LEDGER_NUM_BLOCKS + 1), Ok(false)).unwrap();
    assert_eq!(book.get_quotes(&pair, &U64Range::full(), 0).unwrap(), vec![quote.clone()]);
}

#[test]
fn cannot_add_sci_past_tombstone_block() {
    let mut book = synchronized_book();
    let pair = pair();
    let mut maker = SciMaker::new();
    let num_blocks = LEDGER_NUM_BLOCKS;

    let sci = maker.sci_with_tombstone(&pair, 10, 20, num_blocks - 2);
    assert_eq!(
        book.add_sci(sci, None, Ok(num_blocks), Ok(false)).unwrap_err(),
        Error::QuoteIsStale
    );

    let sci2 = maker.sci_with_tombstone(&pair, 10, 20, num_blocks);
    let quote2 = book.add_sci(sci2, None, Ok(num_blocks), Ok(false)).unwrap();
    assert_eq!(book.get_quotes(&pair, &U64Range::full(), 0).unwrap(), vec![quote2.clone()]);

    let sci3 = maker.sci_with_tombstone(&pair, 10, 20, 0);
    let quote3 = book.add_sci(sci3, None, Ok(num_blocks), Ok(false)).unwrap();
    assert_eq!(
        book.get_quotes(&pair, &U64Range::full(), 0).unwrap(),
        vec![quote2.clone(), quote3.clone()]
    );

    let sci4 = maker.sci_with_tombstone(&pair, 10, 20, num_blocks - 1);
    assert_eq!(
        book.add_sci(sci4, None, Ok(num_blocks), Ok(false)).unwrap_err(),
        Error::QuoteIsStale
    );
}

#[test]
fn ledger_errors_are_reported() {
    let mut book = synchronized_book();
    let mut maker = SciMaker::new();
    let sci = maker.create_sci(&pair(), 10, 20);
    assert_eq!(
        book.add_sci(sci, None, Err("db gone".to_string()), Ok(false)).unwrap_err(),
        Error::ImplementationSpecific("db gone".to_string())
    );
}

#[test]
fn stored_quote_reads_back_the_same() {
    use_storage_roundtrip();
}

fn use_storage_roundtrip() {
    let mut maker = SciMaker::new();
    let sci = maker.create_sci(&pair(), 10, 20);
    let quote = Quote::new(sci.clone(), Some(77)).unwrap();
    let row = QuoteRow::from_quote(&quote, vec![1, 2, 3]);
    assert_eq!(row.id, quote.id().to_vec());
    assert_eq!(row.tombstone_block, 2000);
    assert_eq!(row.base_range_min.to_sql(), vec![0, 0, 0, 0, 0, 0, 0, 10]);
    let back = row.to_quote(Ok(sci)).unwrap();
    assert_eq!(back, quote);
}

#[test]
fn stored_rows_report_their_errors() {
    let mut maker = SciMaker::new();
    let sci = maker.create_sci(&pair(), 10, 20);
    let quote = Quote::new(sci.clone(), Some(77)).unwrap();
    let mut row = QuoteRow::from_quote(&quote, vec![]);
    assert_eq!(
        row.to_quote(Err("bad protobuf".to_string())).unwrap_err(),
        Error::ImplementationSpecific("bad protobuf".to_string())
    );
    row.id.truncate(5);
    assert_eq!(
        row.id().unwrap_err(),
        Error::ImplementationSpecific("Expected 32 bytes quote id, found 5 bytes instead".to_string())
    );
    assert_eq!(check_deleted_count(0).unwrap_err(), Error::QuoteNotFound);
    assert!(check_deleted_count(1).is_ok());
    assert_eq!(
        check_deleted_count(2).unwrap_err(),
        Error::ImplementationSpecific("Deleted more than one quote".to_string())
    );
    assert_eq!(
        into_quote_book_error(StorageError::Diesel("locked".to_string())),
        Error::ImplementationSpecific("diesel error: locked".to_string())
    );
    assert_eq!(
        into_quote_book_error(StorageError::R2d2("timeout".to_string())),
        Error::ImplementationSpecific("r2d2 error: timeout".to_string())
    );
}

#[test]
fn ledger_blocks_remove_spent_and_expired_quotes() {
    let mut book = synchronized_book();
    let mut maker = SciMaker::new();
    let spent = book
        .add_sci(maker.create_sci(&pair(), 10, 20), None, Ok(LEDGER_NUM_BLOCKS), Ok(false))
        .unwrap();
    let expiring = book
        .add_sci(maker.sci_with_tombstone(&pair(), 10, 30, 4), None, Ok(LEDGER_NUM_BLOCKS), Ok(false))
        .unwrap();
    let lasting = book
        .add_sci(maker.create_sci(&pair(), 10, 40), None, Ok(LEDGER_NUM_BLOCKS), Ok(false))
        .unwrap();

    let mut fetcher = DbFetcher::start(&book);
    let start = fetcher.next_block_index();
    let (more, batches) = fetcher.load_block_data(&mut book, BlockFetch::Contents(vec![spent.key_image()]));
    assert!(more);
    assert_eq!(batches, vec![vec![spent.clone()]]);
    let (more, batches) = fetcher.load_block_data(&mut book, BlockFetch::Contents(vec![]));
    assert!(more);
    assert!(batches.is_empty());
    let (more, _) = fetcher.load_block_data(&mut book, BlockFetch::NotFound);
    assert!(!more);
    assert_eq!(fetcher.next_block_index(), start + 2);

    // Tombstone 4 expires once block 4 is processed.
    let mut fetcher4 = DbFetcher::start(&book);
    for _ in fetcher4.next_block_index()..5 {
        fetcher4.load_block_data(&mut book, BlockFetch::Contents(vec![]));
    }
    let removed = fetcher4.finish_pass(&mut book, 0).unwrap();
    assert_eq!(removed, vec![expiring.clone()]);
    assert_eq!(book.get_current_block_index(), 4);
    assert_eq!(book.get_quotes(&pair(), &U64Range::full(), 0).unwrap(), vec![lasting]);
}
