use std::collections::HashMap;

use deqs::api::{ApiPair, ApiQuote, ApiQuoteId, ConversionError, QuoteStatusCode, SubmitQuotesResponse};
use deqs::bot::{
    sanity_check_submit_quotes_response, BotError, LiquidityBotTask, ListedTxOut, PendingTxOut,
    RingIndices, SwapRate, RING_SIZE,
};
use deqs::sci::{sci_equal, InputRules, Sci};
use deqs::types::{Amount, KeyImage};
use deqs::wallet::MatchedTxOut;

fn matched(value: u64, token_id: u64, tag: u8) -> MatchedTxOut {
    MatchedTxOut {
        block_index: 7,
        tx_out_public_key: [tag; 32],
        amount: Amount { value, token_id },
        subaddress_index: 0,
        key_image: KeyImage([tag; 32]),
    }
}

fn bot_sci(base: u64, counter: u64, tag: u8) -> Sci {
    Sci {
        pseudo_output_amount: Amount { value: base, token_id: 1 },
        required_output_amounts: vec![Amount { value: counter, token_id: 2 }],
        input_rules: Some(InputRules {
            required_outputs: vec![[tag; 32]],
            partial_fill_outputs: vec![],
            min_partial_fill_value: 0,
            max_tombstone_block: 0,
        }),
        key_image: KeyImage([tag; 32]),
        digest: [tag; 32],
        validity: Ok(()),
    }
}

fn api_quote(sci: Sci, id_len: usize) -> ApiQuote {
    let id = vec![sci.digest[0]; id_len];
    ApiQuote {
        sci,
        id: ApiQuoteId { data: id },
        pair: ApiPair { base_token_id: 1, counter_token_id: 2 },
        base_range_min: 10,
        base_range_max: 10,
        max_counter_tokens: 20,
        timestamp: 99,
    }
}

fn one_and_a_half_for_token_1() -> LiquidityBotTask {
    let mut pairs = HashMap::new();
    pairs.insert(1u64, (2u64, SwapRate { mantissa: 15, scale: 1 }));
    LiquidityBotTask::new(pairs)
}

#[test]
fn sanity_check_accepts_matching_lengths() {
    let resp = SubmitQuotesResponse {
        status_codes: vec![QuoteStatusCode::CREATED],
        error_messages: vec![String::new()],
        quotes: vec![api_quote(bot_sci(10, 20, 1), 32)],
    };
    assert!(sanity_check_submit_quotes_response(&resp, 1).is_ok());
}

#[test]
fn sanity_check_reports_each_mismatch() {
    let resp = SubmitQuotesResponse { status_codes: vec![], error_messages: vec![], quotes: vec![] };
    assert_eq!(
        sanity_check_submit_quotes_response(&resp, 2).unwrap_err(),
        BotError::InvalidGrpcResponse(
            "Number of status codes in response does not match number of quotes in request. Expected 2, got 0."
                .to_string()
        )
    );

    let resp = SubmitQuotesResponse {
        status_codes: vec![QuoteStatusCode::CREATED],
        error_messages: vec![],
        quotes: vec![],
    };
    assert_eq!(
        sanity_check_submit_quotes_response(&resp, 1).unwrap_err(),
        BotError::InvalidGrpcResponse(
            "Number of error messages in response does not match number of quotes in request. Expected 1, got 0."
                .to_string()
        )
    );

    let resp = SubmitQuotesResponse {
        status_codes: vec![QuoteStatusCode::CREATED],
        error_messages: vec![String::new()],
        quotes: vec![],
    };
    assert_eq!(
        sanity_check_submit_quotes_response(&resp, 1).unwrap_err(),
        BotError::InvalidGrpcResponse(
            "Number of quotes in response does not match number of quotes in request. Expected 1, got 0."
                .to_string()
        )
    );
}

#[test]
fn counter_amount_is_value_times_rate() {
    let bot = one_and_a_half_for_token_1();
    assert_eq!(
        bot.counter_terms(&matched(1000, 1, 1)).unwrap(),
        Amount { value: 1500, token_id: 2 }
    );
    // The fraction of the product is dropped.
    assert_eq!(bot.counter_terms(&matched(7, 1, 1)).unwrap(), Amount { value: 10, token_id: 2 });
    assert_eq!(
        bot.checked_counter_terms(&matched(3, 1, 1)),
        Some(Ok(Amount { value: 4, token_id: 2 }))
    );
}

#[test]
fn unknown_token_is_refused() {
    let bot = one_and_a_half_for_token_1();
    assert!(!bot.wants_tx_out(&matched(10, 5, 1)));
    assert!(bot.wants_tx_out(&matched(10, 1, 1)));
    assert_eq!(bot.counter_terms(&matched(10, 5, 1)).unwrap_err(), BotError::UnknownTokenId(5));
}

#[test]
fn negative_product_is_a_decimal_conversion_error() {
    let mut pairs = HashMap::new();
    pairs.insert(1u64, (2u64, SwapRate { mantissa: -15, scale: 1 }));
    let bot = LiquidityBotTask::new(pairs);
    assert_eq!(
        bot.counter_terms(&matched(1000, 1, 1)).unwrap_err(),
        BotError::DecimalConversion("Could not convert 1000 times -1.5 to u64".to_string())
    );
}

#[test]
fn product_too_large_for_u64_is_a_decimal_conversion_error() {
    let mut pairs = HashMap::new();
    pairs.insert(1u64, (2u64, SwapRate { mantissa: 4, scale: 0 }));
    let bot = LiquidityBotTask::new(pairs);
    match bot.counter_terms(&matched(u64::MAX, 1, 1)).unwrap_err() {
        BotError::DecimalConversion(_) => {}
        other => panic!("unexpected error {:?}", other),
    }
}

#[test]
fn overflowing_product_is_detected_before_multiplying() {
    let mut pairs = HashMap::new();
    pairs.insert(1u64, (2u64, SwapRate { mantissa: 79228162514264337593543950335, scale: 0 }));
    let bot = LiquidityBotTask::new(pairs);
    assert_eq!(bot.checked_counter_terms(&matched(u64::MAX, 1, 1)), None);
}

#[test]
fn submitted_quotes_are_listed_by_status() {
    let mut bot = one_and_a_half_for_token_1();
    bot.add_pending_tx_out(PendingTxOut { matched_tx_out: matched(10, 1, 1), sci: bot_sci(10, 15, 1) });
    bot.add_pending_tx_out(PendingTxOut { matched_tx_out: matched(20, 1, 2), sci: bot_sci(20, 30, 2) });
    bot.add_pending_tx_out(PendingTxOut { matched_tx_out: matched(30, 1, 3), sci: bot_sci(30, 45, 3) });
    assert!(bot.has_pending_tx_outs());
    assert_eq!(bot.pending_scis().len(), 3);

    let resp = SubmitQuotesResponse {
        status_codes: vec![
            QuoteStatusCode::CREATED,
            QuoteStatusCode::QUOTE_ALREADY_EXISTS,
            QuoteStatusCode::QUOTE_IS_STALE,
        ],
        error_messages: vec![String::new(), String::new(), String::new()],
        quotes: vec![
            api_quote(bot_sci(10, 15, 1), 32),
            api_quote(bot_sci(20, 31, 9), 32),
            api_quote(bot_sci(30, 45, 3), 32),
        ],
    };
    bot.apply_submit_response(&resp, 5000).unwrap();

    assert!(!bot.has_pending_tx_outs());
    let listed = bot.listed_tx_outs();
    assert_eq!(listed.len(), 2);
    assert_eq!(listed[0].matched_tx_out, matched(10, 1, 1));
    assert_eq!(listed[0].last_submitted_at, 5000);
    assert_eq!(listed[1].matched_tx_out, matched(20, 1, 2));
    // The SCI the service already held replaces the one submitted.
    assert_eq!(listed[1].sci, bot_sci(20, 31, 9));
    assert_eq!(listed[1].quote.timestamp(), 99);
}

#[test]
fn invalid_reply_keeps_pending_outputs() {
    let mut bot = one_and_a_half_for_token_1();
    bot.add_pending_tx_out(PendingTxOut { matched_tx_out: matched(10, 1, 1), sci: bot_sci(10, 15, 1) });
    let resp = SubmitQuotesResponse { status_codes: vec![], error_messages: vec![], quotes: vec![] };
    assert!(matches!(
        bot.apply_submit_response(&resp, 1).unwrap_err(),
        BotError::InvalidGrpcResponse(_)
    ));
    assert!(bot.has_pending_tx_outs());
    assert_eq!(bot.listed_tx_outs().len(), 0);
}

#[test]
fn malformed_quote_id_stops_handling() {
    let mut bot = one_and_a_half_for_token_1();
    bot.add_pending_tx_out(PendingTxOut { matched_tx_out: matched(10, 1, 1), sci: bot_sci(10, 15, 1) });
    bot.add_pending_tx_out(PendingTxOut { matched_tx_out: matched(20, 1, 2), sci: bot_sci(20, 30, 2) });
    let resp = SubmitQuotesResponse {
        status_codes: vec![QuoteStatusCode::CREATED, QuoteStatusCode::CREATED],
        error_messages: vec![String::new(), String::new()],
        quotes: vec![api_quote(bot_sci(10, 15, 1), 31), api_quote(bot_sci(20, 30, 2), 32)],
    };
    assert_eq!(
        bot.apply_submit_response(&resp, 1).unwrap_err(),
        BotError::ApiConversion(ConversionError::ArrayCastError)
    );
    assert!(!bot.has_pending_tx_outs());
    assert_eq!(bot.listed_tx_outs().len(), 0);
}

fn listed_bot() -> LiquidityBotTask {
    let mut bot = one_and_a_half_for_token_1();
    bot.add_pending_tx_out(PendingTxOut { matched_tx_out: matched(10, 1, 1), sci: bot_sci(10, 15, 1) });
    bot.add_pending_tx_out(PendingTxOut { matched_tx_out: matched(20, 1, 2), sci: bot_sci(20, 30, 2) });
    let resp = SubmitQuotesResponse {
        status_codes: vec![QuoteStatusCode::CREATED, QuoteStatusCode::CREATED],
        error_messages: vec![String::new(), String::new()],
        quotes: vec![api_quote(bot_sci(10, 15, 1), 32), api_quote(bot_sci(20, 30, 2), 32)],
    };
    bot.apply_submit_response(&resp, 1000).unwrap();
    bot
}

#[test]
fn only_quotes_older_than_ten_seconds_are_resubmitted() {
    let mut bot = listed_bot();
    assert_eq!(bot.take_due_for_resubmit(11000).len(), 0);
    assert_eq!(bot.listed_tx_outs().len(), 2);

    let due = bot.take_due_for_resubmit(11001);
    assert_eq!(due.len(), 2);
    assert_eq!(bot.listed_tx_outs().len(), 0);

    // A resubmission that could not be sent puts them back.
    bot.restore_listed(due);
    assert_eq!(bot.listed_tx_outs().len(), 2);
}

#[test]
fn resubmission_reply_updates_or_drops_listings() {
    let mut bot = listed_bot();
    let due: Vec<ListedTxOut> = bot.take_due_for_resubmit(20000);
    let resp = SubmitQuotesResponse {
        status_codes: vec![QuoteStatusCode::QUOTE_ALREADY_EXISTS, QuoteStatusCode::QUOTE_IS_STALE],
        error_messages: vec![String::new(), String::new()],
        quotes: vec![api_quote(bot_sci(10, 16, 8), 32), api_quote(bot_sci(20, 30, 2), 32)],
    };
    bot.apply_resubmit_response(due, &resp, 20000).unwrap();
    let listed = bot.listed_tx_outs();
    assert_eq!(listed.len(), 1);
    assert_eq!(listed[0].matched_tx_out, matched(10, 1, 1));
    assert_eq!(listed[0].sci, bot_sci(10, 16, 8));
    assert_eq!(listed[0].last_submitted_at, 20000);
}

#[test]
fn ring_indices_are_distinct_and_hold_the_own_output_first() {
    let mut ring = RingIndices::new();
    assert!(ring.offer(4));
    assert!(!ring.offer(4));
    assert!(ring.offer(9));
    assert!(!ring.is_complete());
    let mut n = 0;
    while !ring.is_complete() {
        ring.draw(1000);
        n += 1;
        assert!(n < 100000);
    }
    let indices = ring.into_ring(123456);
    assert_eq!(indices.len(), RING_SIZE);
    assert_eq!(indices[0], 123456);
    assert_eq!(indices[1], 9);
    for i in 2..indices.len() {
        assert!(indices[i] < 1000);
    }
}

#[test]
fn token_stats_count_and_sum_by_token() {
    let mut bot = one_and_a_half_for_token_1();
    bot.add_pending_tx_out(PendingTxOut { matched_tx_out: matched(10, 1, 1), sci: bot_sci(10, 15, 1) });
    bot.add_pending_tx_out(PendingTxOut { matched_tx_out: matched(30, 1, 2), sci: bot_sci(30, 45, 2) });
    bot.add_pending_tx_out(PendingTxOut { matched_tx_out: matched(5, 3, 3), sci: bot_sci(5, 7, 3) });
    let stats = bot.token_stats(1);
    assert_eq!(stats.num_pending_tx_outs, 2);
    assert_eq!(stats.pending_tx_outs_value, 40);
    assert_eq!(stats.num_listed_tx_outs, 0);
    assert_eq!(stats.listed_tx_outs_value, 0);
    assert_eq!(bot.token_stats(3).num_pending_tx_outs, 1);
}

#[test]
fn created_quote_with_another_sci_is_inconsistent() {
    let mut bot = one_and_a_half_for_token_1();
    bot.add_pending_tx_out(PendingTxOut { matched_tx_out: matched(10, 1, 1), sci: bot_sci(10, 15, 1) });
    let consistent = SubmitQuotesResponse {
        status_codes: vec![QuoteStatusCode::CREATED],
        error_messages: vec![String::new()],
        quotes: vec![api_quote(bot_sci(10, 15, 1), 32)],
    };
    assert!(bot.check_submit_reply(&consistent));
    let other_sci = SubmitQuotesResponse {
        status_codes: vec![QuoteStatusCode::CREATED],
        error_messages: vec![String::new()],
        quotes: vec![api_quote(bot_sci(10, 16, 1), 32)],
    };
    assert!(!bot.check_submit_reply(&other_sci));
    let existing = SubmitQuotesResponse {
        status_codes: vec![QuoteStatusCode::QUOTE_ALREADY_EXISTS],
        error_messages: vec![String::new()],
        quotes: vec![api_quote(bot_sci(10, 16, 1), 32)],
    };
    assert!(bot.check_submit_reply(&existing));
}

#[test]
fn sci_equality_compares_every_part() {
    let a = bot_sci(10, 15, 1);
    assert!(sci_equal(&a, &bot_sci(10, 15, 1)));
    assert!(!sci_equal(&a, &bot_sci(10, 16, 1)));
    let mut b = bot_sci(10, 15, 1);
    b.input_rules.as_mut().unwrap().max_tombstone_block = 5;
    assert!(!sci_equal(&a, &b));
}

#[test]
fn decimal_conversion_message_writes_the_rate_as_a_decimal() {
    let mut pairs = HashMap::new();
    pairs.insert(1u64, (2u64, SwapRate { mantissa: -5, scale: 2 }));
    pairs.insert(3u64, (2u64, SwapRate { mantissa: -150, scale: 2 }));
    let bot = LiquidityBotTask::new(pairs);
    assert_eq!(
        bot.counter_terms(&matched(10, 1, 1)).unwrap_err(),
        BotError::DecimalConversion("Could not convert 10 times -0.05 to u64".to_string())
    );
    assert_eq!(
        bot.counter_terms(&matched(10, 3, 1)).unwrap_err(),
        BotError::DecimalConversion("Could not convert 10 times -1.50 to u64".to_string())
    );
}
