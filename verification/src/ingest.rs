//! The per-exchange ingestor, as a pure transition function.
//!
//! One ingestor runs per exchange.  The transport work (TLS, WebSocket
//! framing, awaiting frames) lives outside the library; the surrounding
//! loop feeds each transport event into `ingest_step` and performs the
//! returned action.  The lifecycle is `Connecting -> Subscribed ->
//! Streaming -> Terminated`: subscribe once the transport confirms the
//! connection, stream until the transport ends or a message fails to
//! parse, and never reconnect.  A parse failure is fatal to this ingestor
//! alone; a skipped message keeps the loop running.

use vstd::prelude::*;
use vstd::string::StringExecFns;

use crate::book::Exchange;
use crate::json::json_tree;
use crate::parser::{parse, spec_parse, FeedSnapshot, ParseError, ParseOutcome, SnapshotView};

verus! {

/// Lifecycle of one ingestor.
#[derive(Clone, Copy, PartialEq, Eq, Structural, Debug)]
pub enum IngestState {
    Connecting,
    Subscribed,
    Streaming,
    Terminated,
}

/// One event from the transport: the connection confirmed, a text frame, a
/// frame of any other kind, or the end of the stream (error or close).
#[derive(PartialEq, Debug)]
pub enum FeedEvent {
    Opened,
    Text(String),
    Other,
    Closed,
}

/// What the surrounding loop must do next: send this exchange's subscribe
/// frame, merge a parsed snapshot into the shared book under its lock, do
/// nothing, or stop this ingestor with a parse error.
#[derive(PartialEq, Debug)]
pub enum IngestAction {
    SendSubscribe,
    Merge(FeedSnapshot),
    Ignore,
    Fail(ParseError),
}

/// Mathematical model of an `IngestAction`.
pub enum ActionModel {
    Subscribe,
    Apply(SnapshotView),
    Pass,
    Abort(ParseError),
}

/// The executable action agrees with the model action.
pub open spec fn action_matches(a: IngestAction, m: ActionModel) -> bool {
    match (a, m) {
        (IngestAction::SendSubscribe, ActionModel::Subscribe) => true,
        (IngestAction::Merge(s), ActionModel::Apply(sv)) => s@ == sv,
        (IngestAction::Ignore, ActionModel::Pass) => true,
        (IngestAction::Fail(e1), ActionModel::Abort(e2)) => e1 == e2,
        _ => false,
    }
}

/// The ingestor transition relation: subscribe on the first confirmation,
/// move to streaming on the first received message, merge every parsed
/// update, skip non-update messages, terminate on stream end or on the
/// first parse failure.
pub open spec fn spec_ingest_step(state: IngestState, ex: Exchange, ev: FeedEvent) -> (
    IngestState,
    ActionModel,
) {
    match ev {
        FeedEvent::Opened => if state is Connecting {
            (IngestState::Subscribed, ActionModel::Subscribe)
        } else {
            (state, ActionModel::Pass)
        },
        FeedEvent::Text(t) => if state is Subscribed || state is Streaming {
            match spec_parse(json_tree(t@), ex) {
                Ok(Some(sv)) => (IngestState::Streaming, ActionModel::Apply(sv)),
                Ok(None) => (IngestState::Streaming, ActionModel::Pass),
                Err(e) => (IngestState::Terminated, ActionModel::Abort(e)),
            }
        } else {
            (state, ActionModel::Pass)
        },
        FeedEvent::Other => (state, ActionModel::Pass),
        FeedEvent::Closed => (IngestState::Terminated, ActionModel::Pass),
    }
}

/// One step of the ingestor: exactly the transition of `spec_ingest_step`.
pub fn ingest_step(state: IngestState, ex: Exchange, ev: FeedEvent) -> (r: (
    IngestState,
    IngestAction,
))
    ensures
        r.0 == spec_ingest_step(state, ex, ev).0,
        action_matches(r.1, spec_ingest_step(state, ex, ev).1),
{
    match ev {
        FeedEvent::Opened => {
            match state {
                IngestState::Connecting => (IngestState::Subscribed, IngestAction::SendSubscribe),
                _ => (state, IngestAction::Ignore),
            }
        },
        FeedEvent::Text(t) => {
            let receiving = match state {
                IngestState::Subscribed => true,
                IngestState::Streaming => true,
                _ => false,
            };
            if receiving {
                match parse(t.as_str(), ex) {
                    Ok(ParseOutcome::Update(s)) => (IngestState::Streaming, IngestAction::Merge(s)),
                    Ok(ParseOutcome::Skip) => (IngestState::Streaming, IngestAction::Ignore),
                    Err(e) => (IngestState::Terminated, IngestAction::Fail(e)),
                }
            } else {
                (state, IngestAction::Ignore)
            }
        },
        FeedEvent::Other => (state, IngestAction::Ignore),
        FeedEvent::Closed => (IngestState::Terminated, IngestAction::Ignore),
    }
}

/// The subscribe frame each exchange expects, built from the symbol.
pub open spec fn spec_subscribe_frame(ex: Exchange, symbol: Seq<char>) -> Seq<char> {
    match ex {
        Exchange::Binance => "{\"method\":\"SUBSCRIBE\",\"params\":[\""@ + symbol
            + "@aggTrade\",\""@ + symbol + "@depth\"],\"id\":1}"@,
        Exchange::Bitstamp => "{\"event\":\"bts:subscribe\",\"data\":{\"channel\":\"order_book_"@
            + symbol + "\"}}"@,
    }
}

/// The WebSocket endpoint each exchange's feed lives at.  Binance encodes
/// the symbol and the depth channel in the path; Bitstamp uses one fixed
/// endpoint and selects the channel in the subscribe frame.
pub open spec fn spec_feed_endpoint(ex: Exchange, symbol: Seq<char>) -> Seq<char> {
    match ex {
        Exchange::Binance => "wss://stream.binance.com:9443/ws/"@ + symbol + "@depth20@100ms"@,
        Exchange::Bitstamp => "wss://ws.bitstamp.net"@,
    }
}

/// Build the subscribe frame for `ex`, sent once after the connection is
/// confirmed.
pub fn subscribe_frame(ex: Exchange, symbol: &str) -> (r: String)
    ensures
        r@ == spec_subscribe_frame(ex, symbol@),
{
    match ex {
        Exchange::Binance => {
            let mut out: String = "{\"method\":\"SUBSCRIBE\",\"params\":[\"".to_owned();
            out.append(symbol);
            out.append("@aggTrade\",\"");
            out.append(symbol);
            out.append("@depth\"],\"id\":1}");
            proof {
                assert(out@ =~= spec_subscribe_frame(ex, symbol@));
            }
            out
        },
        Exchange::Bitstamp => {
            let mut out: String =
                "{\"event\":\"bts:subscribe\",\"data\":{\"channel\":\"order_book_".to_owned();
            out.append(symbol);
            out.append("\"}}");
            proof {
                assert(out@ =~= spec_subscribe_frame(ex, symbol@));
            }
            out
        },
    }
}

/// Build the WebSocket endpoint for `ex` from the symbol.
pub fn feed_endpoint(ex: Exchange, symbol: &str) -> (r: String)
    ensures
        r@ == spec_feed_endpoint(ex, symbol@),
{
    match ex {
        Exchange::Binance => {
            let mut out: String = "wss://stream.binance.com:9443/ws/".to_owned();
            out.append(symbol);
            out.append("@depth20@100ms");
            proof {
                assert(out@ =~= spec_feed_endpoint(ex, symbol@));
            }
            out
        },
        Exchange::Bitstamp => "wss://ws.bitstamp.net".to_owned(),
    }
}

} // verus!
