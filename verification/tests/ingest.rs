use orderbook::book::Exchange;
use orderbook::ingest::{
    feed_endpoint, ingest_step, subscribe_frame, FeedEvent, IngestAction, IngestState,
};
use orderbook::parser::ParseError;
use orderbook::publish::{publisher_step, PublisherState};

#[test]
fn opened_while_connecting_subscribes() {
    let (state, action) =
        ingest_step(IngestState::Connecting, Exchange::Binance, FeedEvent::Opened);
    assert_eq!(state, IngestState::Subscribed);
    assert_eq!(action, IngestAction::SendSubscribe);
}

#[test]
fn first_update_starts_streaming() {
    let raw = "{\"bids\":[[\"100.5\",\"2.0\"]],\"asks\":[[\"101.0\",\"1.5\"]]}".to_string();
    let (state, action) =
        ingest_step(IngestState::Subscribed, Exchange::Binance, FeedEvent::Text(raw));
    assert_eq!(state, IngestState::Streaming);
    match action {
        IngestAction::Merge(snap) => {
            assert_eq!(snap.bids.len(), 1);
            assert_eq!(snap.bids[0].price, 10_050_000_000);
            assert_eq!(snap.asks[0].price, 10_100_000_000);
        }
        other => panic!("expected a merge, got {:?}", other),
    }
}

#[test]
fn skipped_message_keeps_streaming() {
    let raw = "{\"event\":\"bts:subscription_succeeded\"}".to_string();
    let (state, action) =
        ingest_step(IngestState::Subscribed, Exchange::Bitstamp, FeedEvent::Text(raw));
    assert_eq!(state, IngestState::Streaming);
    assert_eq!(action, IngestAction::Ignore);
}

#[test]
fn parse_failure_terminates_ingestor() {
    let (state, action) = ingest_step(
        IngestState::Streaming,
        Exchange::Binance,
        FeedEvent::Text("not json".to_string()),
    );
    assert_eq!(state, IngestState::Terminated);
    assert_eq!(action, IngestAction::Fail(ParseError::Syntax));
}

#[test]
fn stream_end_terminates_quietly() {
    let (state, action) = ingest_step(IngestState::Streaming, Exchange::Bitstamp, FeedEvent::Closed);
    assert_eq!(state, IngestState::Terminated);
    assert_eq!(action, IngestAction::Ignore);
}

#[test]
fn non_text_frames_are_ignored() {
    let (state, action) = ingest_step(IngestState::Streaming, Exchange::Binance, FeedEvent::Other);
    assert_eq!(state, IngestState::Streaming);
    assert_eq!(action, IngestAction::Ignore);
}

#[test]
fn terminated_ingestor_stays_terminated() {
    let (state, action) = ingest_step(
        IngestState::Terminated,
        Exchange::Binance,
        FeedEvent::Text("{}".to_string()),
    );
    assert_eq!(state, IngestState::Terminated);
    assert_eq!(action, IngestAction::Ignore);
}

#[test]
fn binance_subscribe_frame_shape() {
    let frame = subscribe_frame(Exchange::Binance, "btcusdt");
    assert_eq!(
        frame,
        "{\"method\":\"SUBSCRIBE\",\"params\":[\"btcusdt@aggTrade\",\"btcusdt@depth\"],\"id\":1}"
    );
}

#[test]
fn bitstamp_subscribe_frame_shape() {
    let frame = subscribe_frame(Exchange::Bitstamp, "btcusdt");
    assert_eq!(
        frame,
        "{\"event\":\"bts:subscribe\",\"data\":{\"channel\":\"order_book_btcusdt\"}}"
    );
}

#[test]
fn endpoints_shapes() {
    assert_eq!(
        feed_endpoint(Exchange::Binance, "btcusdt"),
        "wss://stream.binance.com:9443/ws/btcusdt@depth20@100ms"
    );
    assert_eq!(feed_endpoint(Exchange::Bitstamp, "btcusdt"), "wss://ws.bitstamp.net");
}

#[test]
fn publisher_stops_only_on_failed_delivery() {
    assert_eq!(publisher_step(true), PublisherState::Running);
    assert_eq!(publisher_step(false), PublisherState::Stopped);
}
