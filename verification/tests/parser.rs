use orderbook::book::{Exchange, Level};
use orderbook::parser::{parse, FeedSnapshot, ParseError, ParseOutcome};

fn update(r: Result<ParseOutcome, ParseError>) -> FeedSnapshot {
    match r {
        Ok(ParseOutcome::Update(s)) => s,
        other => panic!("expected an update, got {:?}", other),
    }
}

#[test]
fn feed_a_single_level() {
    let raw = "{\"bids\":[[\"100.5\",\"2.0\"]],\"asks\":[[\"101.0\",\"1.5\"]]}";
    let snap = update(parse(raw, Exchange::Binance));
    assert_eq!(
        snap.bids,
        vec![Level { exchange: Exchange::Binance, price: 10_050_000_000, amount: 200_000_000 }]
    );
    assert_eq!(
        snap.asks,
        vec![Level { exchange: Exchange::Binance, price: 10_100_000_000, amount: 150_000_000 }]
    );
}

#[test]
fn feed_a_preserves_entry_order() {
    let raw = "{\"bids\":[[\"3\",\"1\"],[\"1\",\"1\"],[\"2\",\"1\"]],\"asks\":[]}";
    let snap = update(parse(raw, Exchange::Binance));
    let prices: Vec<i64> = snap.bids.iter().map(|l| l.price).collect();
    // The parser normalizes; sorting is the merge's business.
    assert_eq!(prices, vec![300_000_000, 100_000_000, 200_000_000]);
    assert!(snap.asks.is_empty());
}

#[test]
fn feed_a_missing_bids_is_missing_field() {
    let raw = "{\"asks\":[[\"101.0\",\"1.5\"]]}";
    assert_eq!(parse(raw, Exchange::Binance), Err(ParseError::MissingField));
}

#[test]
fn feed_a_non_array_bids_is_missing_field() {
    let raw = "{\"bids\":5,\"asks\":[]}";
    assert_eq!(parse(raw, Exchange::Binance), Err(ParseError::MissingField));
}

#[test]
fn feed_a_non_array_entry_is_type_mismatch() {
    let raw = "{\"bids\":[5],\"asks\":[]}";
    assert_eq!(parse(raw, Exchange::Binance), Err(ParseError::TypeMismatch));
}

#[test]
fn feed_a_short_entry_is_type_mismatch() {
    let raw = "{\"bids\":[[\"1.0\"]],\"asks\":[]}";
    assert_eq!(parse(raw, Exchange::Binance), Err(ParseError::TypeMismatch));
}

#[test]
fn feed_a_native_number_cell_is_type_mismatch() {
    let raw = "{\"bids\":[[100.5,\"2.0\"]],\"asks\":[]}";
    assert_eq!(parse(raw, Exchange::Binance), Err(ParseError::TypeMismatch));
}

#[test]
fn feed_a_bad_numeric_string_is_number_format() {
    let raw = "{\"bids\":[[\"abc\",\"2.0\"]],\"asks\":[]}";
    assert_eq!(parse(raw, Exchange::Binance), Err(ParseError::NumberFormat));
}

#[test]
fn feed_a_first_bad_entry_wins() {
    let raw = "{\"bids\":[[\"1\",\"1\"],[\"x\",\"1\"],[5,\"1\"]],\"asks\":[]}";
    assert_eq!(parse(raw, Exchange::Binance), Err(ParseError::NumberFormat));
}

#[test]
fn feed_a_not_json_is_syntax() {
    assert_eq!(parse("nope", Exchange::Binance), Err(ParseError::Syntax));
}

#[test]
fn feed_b_data_event_with_mixed_cells() {
    let raw = "{\"event\":\"data\",\"data\":{\"bids\":[[101.5,2]],\"asks\":[[\"102\",\"1\"]]}}";
    let snap = update(parse(raw, Exchange::Bitstamp));
    assert_eq!(
        snap.bids,
        vec![Level { exchange: Exchange::Bitstamp, price: 10_150_000_000, amount: 200_000_000 }]
    );
    assert_eq!(
        snap.asks,
        vec![Level { exchange: Exchange::Bitstamp, price: 10_200_000_000, amount: 100_000_000 }]
    );
}

#[test]
fn feed_b_other_event_is_skip() {
    let raw = "{\"event\":\"bts:subscription_succeeded\",\"channel\":\"order_book_btcusdt\"}";
    assert_eq!(parse(raw, Exchange::Bitstamp), Ok(ParseOutcome::Skip));
}

#[test]
fn feed_b_absent_event_is_skip() {
    assert_eq!(parse("{}", Exchange::Bitstamp), Ok(ParseOutcome::Skip));
    let raw = "{\"bids\":[[\"1\",\"1\"]],\"asks\":[]}";
    assert_eq!(parse(raw, Exchange::Bitstamp), Ok(ParseOutcome::Skip));
}

#[test]
fn feed_b_non_string_event_is_skip() {
    assert_eq!(parse("{\"event\":5}", Exchange::Bitstamp), Ok(ParseOutcome::Skip));
    assert_eq!(parse("null", Exchange::Bitstamp), Ok(ParseOutcome::Skip));
}

#[test]
fn feed_b_data_without_bids_is_missing_field() {
    let raw = "{\"event\":\"data\",\"data\":{\"asks\":[]}}";
    assert_eq!(parse(raw, Exchange::Bitstamp), Err(ParseError::MissingField));
}

#[test]
fn feed_b_absent_data_is_missing_field() {
    let raw = "{\"event\":\"data\"}";
    assert_eq!(parse(raw, Exchange::Bitstamp), Err(ParseError::MissingField));
}

#[test]
fn feed_b_bad_number_is_number_format() {
    let raw = "{\"event\":\"data\",\"data\":{\"bids\":[[\"1.123456789\",\"1\"]],\"asks\":[]}}";
    assert_eq!(parse(raw, Exchange::Bitstamp), Err(ParseError::NumberFormat));
}

#[test]
fn feed_a_syntax_not_hidden_by_exchange() {
    assert_eq!(parse("", Exchange::Bitstamp), Err(ParseError::Syntax));
}
