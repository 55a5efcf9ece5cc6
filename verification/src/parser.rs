//! Per-exchange message normalization: one raw feed message becomes a typed
//! snapshot of price levels tagged with its origin exchange.
//!
//! Two wire shapes are supported.  Binance sends a top-level object with
//! `bids` and `asks` arrays of `[price, amount]` string pairs.  Bitstamp
//! envelopes the same shape inside a `data` object and gates it on an
//! `event` field: only `"data"` events are book updates, every other event
//! is valid but ignored (a skip outcome, not an error), and Bitstamp cells
//! may be native JSON numbers as well as strings.

use vstd::prelude::*;

use crate::book::{levels_nonneg, Exchange, Level};
use crate::decimal::{lemma_parse_decimal_nonneg, parse_decimal, spec_parse_decimal};
use crate::json::{json_tree, parse_json, Json};

verus! {

/// Why a message was rejected.  `Syntax` is text that is not JSON at all;
/// the other three follow the shape checks: a field absent (or not the
/// expected container), an entry of the wrong type, and a string or number
/// that is not an acceptable decimal.
#[derive(Clone, Copy, PartialEq, Eq, Structural, Debug)]
pub enum ParseError {
    Syntax,
    MissingField,
    TypeMismatch,
    NumberFormat,
}

/// A normalized book update: the levels of one message, all tagged with the
/// origin exchange, consumed by one merge and then discarded.
#[derive(PartialEq, Debug)]
pub struct FeedSnapshot {
    pub bids: Vec<Level>,
    pub asks: Vec<Level>,
}

/// Mathematical model of a `FeedSnapshot`.
pub struct SnapshotView {
    pub bids: Seq<Level>,
    pub asks: Seq<Level>,
}

impl View for FeedSnapshot {
    type V = SnapshotView;

    open spec fn view(&self) -> SnapshotView {
        SnapshotView { bids: self.bids@, asks: self.asks@ }
    }
}

/// What parsing a well-formed message yields: a book update, or a message
/// that is valid but no book update and must be skipped without error.
#[derive(PartialEq, Debug)]
pub enum ParseOutcome {
    Update(FeedSnapshot),
    Skip,
}

/// First value under `key` among the entries of a JSON object.
pub open spec fn spec_obj_get(entries: Seq<(String, Json)>, key: Seq<char>) -> Option<Json>
    decreases entries.len(),
{
    if entries.len() == 0 {
        None
    } else if entries[0].0@ == key {
        Some(entries[0].1)
    } else {
        spec_obj_get(entries.drop_first(), key)
    }
}

/// Value under `key` when the document is an object that carries it.
pub open spec fn tree_get(t: Json, key: Seq<char>) -> Option<Json> {
    match t {
        Json::Obj(entries) => spec_obj_get(entries@, key),
        _ => None,
    }
}

/// Value of one price or amount cell.  Binance cells must be strings;
/// Bitstamp (`accept_num`) also accepts native JSON numbers.
pub open spec fn spec_cell(c: Json, accept_num: bool) -> Result<i64, ParseError> {
    match c {
        Json::Str(s) => match spec_parse_decimal(s@) {
            Some(v) => Ok(v),
            None => Err(ParseError::NumberFormat),
        },
        Json::Num(s) => if accept_num {
            match spec_parse_decimal(s@) {
                Some(v) => Ok(v),
                None => Err(ParseError::NumberFormat),
            }
        } else {
            Err(ParseError::TypeMismatch)
        },
        _ => Err(ParseError::TypeMismatch),
    }
}

/// One level entry: a two-element array of cells; a missing cell reads as
/// JSON null and is a type mismatch, extra elements are ignored.
pub open spec fn spec_level(j: Json, ex: Exchange, accept_num: bool) -> Result<
    Level,
    ParseError,
> {
    match j {
        Json::Arr(cells) => {
            let c0 = if cells@.len() > 0 {
                cells@[0]
            } else {
                Json::Null
            };
            let c1 = if cells@.len() > 1 {
                cells@[1]
            } else {
                Json::Null
            };
            match spec_cell(c0, accept_num) {
                Err(e) => Err(e),
                Ok(p) => match spec_cell(c1, accept_num) {
                    Err(e) => Err(e),
                    Ok(a) => Ok(Level { exchange: ex, price: p, amount: a }),
                },
            }
        },
        _ => Err(ParseError::TypeMismatch),
    }
}

/// All level entries of one side, in order; the first bad entry's error.
pub open spec fn spec_levels(items: Seq<Json>, ex: Exchange, accept_num: bool) -> Result<
    Seq<Level>,
    ParseError,
>
    decreases items.len(),
{
    if items.len() == 0 {
        Ok(Seq::empty())
    } else {
        match spec_levels(items.drop_last(), ex, accept_num) {
            Err(e) => Err(e),
            Ok(ls) => match spec_level(items.last(), ex, accept_num) {
                Err(e) => Err(e),
                Ok(l) => Ok(ls.push(l)),
            },
        }
    }
}

/// One side of a message: the array under `key`; absent, or not an array,
/// is a missing field.
pub open spec fn spec_side(t: Json, key: Seq<char>, ex: Exchange, accept_num: bool) -> Result<
    Seq<Level>,
    ParseError,
> {
    match tree_get(t, key) {
        Some(j) => match j {
            Json::Arr(items) => spec_levels(items@, ex, accept_num),
            _ => Err(ParseError::MissingField),
        },
        None => Err(ParseError::MissingField),
    }
}

/// Both sides of a snapshot-shaped object: bids first, then asks.
pub open spec fn spec_snapshot(t: Json, ex: Exchange, accept_num: bool) -> Result<
    SnapshotView,
    ParseError,
> {
    match spec_side(t, "bids"@, ex, accept_num) {
        Err(e) => Err(e),
        Ok(b) => match spec_side(t, "asks"@, ex, accept_num) {
            Err(e) => Err(e),
            Ok(a) => Ok(SnapshotView { bids: b, asks: a }),
        },
    }
}

/// A Bitstamp message is a book update exactly when its `event` field is
/// the string `"data"`.
pub open spec fn is_data_event(t: Json) -> bool {
    match tree_get(t, "event"@) {
        Some(j) => match j {
            Json::Str(s) => s@ == "data"@,
            _ => false,
        },
        None => false,
    }
}

/// What parsing a decoded document yields for each exchange.  `Ok(None)` is
/// the skip outcome: a valid message that is no book update.
pub open spec fn spec_parse_tree(t: Json, ex: Exchange) -> Result<
    Option<SnapshotView>,
    ParseError,
> {
    match ex {
        Exchange::Binance => match spec_snapshot(t, ex, false) {
            Ok(sv) => Ok(Some(sv)),
            Err(e) => Err(e),
        },
        Exchange::Bitstamp => if !is_data_event(t) {
            Ok(None)
        } else {
            match tree_get(t, "data"@) {
                None => Err(ParseError::MissingField),
                Some(d) => match spec_snapshot(d, ex, true) {
                    Ok(sv) => Ok(Some(sv)),
                    Err(e) => Err(e),
                },
            }
        },
    }
}

/// What parsing a raw text yields: `Syntax` for text that is not JSON,
/// otherwise `spec_parse_tree` of the decoded document.
pub open spec fn spec_parse(t: Option<Json>, ex: Exchange) -> Result<
    Option<SnapshotView>,
    ParseError,
> {
    match t {
        None => Err(ParseError::Syntax),
        Some(tree) => spec_parse_tree(tree, ex),
    }
}

/// The executable outcome agrees with the model outcome.
pub open spec fn parse_matches(
    r: Result<ParseOutcome, ParseError>,
    m: Result<Option<SnapshotView>, ParseError>,
) -> bool {
    match (r, m) {
        (Ok(ParseOutcome::Update(s)), Ok(Some(sv))) => s@ == sv,
        (Ok(ParseOutcome::Skip), Ok(None)) => true,
        (Err(e1), Err(e2)) => e1 == e2,
        _ => false,
    }
}

/// A message whose `event` is absent or anything but the string `"data"` is
/// skipped by the Bitstamp parser: no update and no error.
pub proof fn lemma_non_data_event_skipped(t: Json)
    requires
        !is_data_event(t),
    ensures
        spec_parse_tree(t, Exchange::Bitstamp) == Ok::<Option<SnapshotView>, ParseError>(None),
{
}

/// A Bitstamp `"data"` message without a `bids` array under `data` (or
/// without `data` at all) is a missing field, never anything worse.
pub proof fn lemma_data_without_bids_missing_field(t: Json)
    requires
        is_data_event(t),
        match tree_get(t, "data"@) {
            None => true,
            Some(d) => tree_get(d, "bids"@) matches Some(j) ==> !(j matches Json::Arr(_)),
        },
    ensures
        spec_parse_tree(t, Exchange::Bitstamp) == Err::<Option<SnapshotView>, ParseError>(
            ParseError::MissingField,
        ),
{
}

fn obj_get<'a>(entries: &'a Vec<(String, Json)>, key: &String) -> (r: Option<&'a Json>)
    ensures
        match r {
            Some(j) => spec_obj_get(entries@, key@) == Some(*j),
            None => spec_obj_get(entries@, key@) is None,
        },
{
    let mut i: usize = 0;
    proof {
        assert(entries@.skip(0) =~= entries@);
    }
    while i < entries.len()
        invariant
            i <= entries@.len(),
            spec_obj_get(entries@, key@) == spec_obj_get(entries@.skip(i as int), key@),
        decreases entries@.len() - i,
    {
        let e = &entries[i];
        proof {
            assert(entries@.skip(i as int)[0] == entries@[i as int]);
            assert(entries@.skip(i as int).drop_first() =~= entries@.skip(i + 1));
        }
        if e.0 == *key {
            return Some(&e.1);
        }
        i += 1;
    }
    proof {
        assert(entries@.skip(entries@.len() as int) =~= Seq::<(String, Json)>::empty());
    }
    None
}

fn tree_get_exec<'a>(t: &'a Json, key: &String) -> (r: Option<&'a Json>)
    ensures
        match r {
            Some(j) => tree_get(*t, key@) == Some(*j),
            None => tree_get(*t, key@) is None,
        },
{
    match t {
        Json::Obj(entries) => obj_get(entries, key),
        _ => None,
    }
}

fn cell_value(c: &Json, accept_num: bool) -> (r: Result<i64, ParseError>)
    ensures
        r == spec_cell(*c, accept_num),
{
    match c {
        Json::Str(s) => match parse_decimal(s.as_str()) {
            Some(v) => Ok(v),
            None => Err(ParseError::NumberFormat),
        },
        Json::Num(s) => if accept_num {
            match parse_decimal(s.as_str()) {
                Some(v) => Ok(v),
                None => Err(ParseError::NumberFormat),
            }
        } else {
            Err(ParseError::TypeMismatch)
        },
        _ => Err(ParseError::TypeMismatch),
    }
}

fn parse_level(j: &Json, ex: Exchange, accept_num: bool) -> (r: Result<Level, ParseError>)
    ensures
        r == spec_level(*j, ex, accept_num),
{
    match j {
        Json::Arr(cells) => {
            let p = if cells.len() > 0 {
                cell_value(&cells[0], accept_num)
            } else {
                Err(ParseError::TypeMismatch)
            };
            match p {
                Err(e) => Err(e),
                Ok(price) => {
                    let a = if cells.len() > 1 {
                        cell_value(&cells[1], accept_num)
                    } else {
                        Err(ParseError::TypeMismatch)
                    };
                    match a {
                        Err(e) => Err(e),
                        Ok(amount) => Ok(Level { exchange: ex, price, amount }),
                    }
                },
            }
        },
        _ => Err(ParseError::TypeMismatch),
    }
}

proof fn lemma_spec_levels_err(items: Seq<Json>, j: int, ex: Exchange, accept_num: bool)
    requires
        0 <= j <= items.len(),
        spec_levels(items.take(j), ex, accept_num) is Err,
    ensures
        spec_levels(items, ex, accept_num) == spec_levels(items.take(j), ex, accept_num),
    decreases items.len() - j,
{
    if j < items.len() {
        assert(items.take(j + 1).drop_last() =~= items.take(j));
        lemma_spec_levels_err(items, j + 1, ex, accept_num);
    } else {
        assert(items.take(j) =~= items);
    }
}

fn parse_levels(items: &Vec<Json>, ex: Exchange, accept_num: bool) -> (r: Result<
    Vec<Level>,
    ParseError,
>)
    ensures
        match r {
            Ok(v) => spec_levels(items@, ex, accept_num) == Ok::<Seq<Level>, ParseError>(v@),
            Err(e) => spec_levels(items@, ex, accept_num) == Err::<Seq<Level>, ParseError>(e),
        },
{
    let mut out: Vec<Level> = Vec::new();
    let mut i: usize = 0;
    while i < items.len()
        invariant
            i <= items@.len(),
            spec_levels(items@.take(i as int), ex, accept_num) == Ok::<Seq<Level>, ParseError>(
                out@,
            ),
        decreases items@.len() - i,
    {
        proof {
            assert(items@.take(i + 1).drop_last() =~= items@.take(i as int));
            assert(items@.take(i + 1).last() == items@[i as int]);
        }
        match parse_level(&items[i], ex, accept_num) {
            Err(e) => {
                proof {
                    lemma_spec_levels_err(items@, i + 1, ex, accept_num);
                }
                return Err(e);
            },
            Ok(l) => {
                out.push(l);
            },
        }
        i += 1;
    }
    proof {
        assert(items@.take(items@.len() as int) =~= items@);
    }
    Ok(out)
}

fn parse_side(t: &Json, key: &String, ex: Exchange, accept_num: bool) -> (r: Result<
    Vec<Level>,
    ParseError,
>)
    ensures
        match r {
            Ok(v) => spec_side(*t, key@, ex, accept_num) == Ok::<Seq<Level>, ParseError>(v@),
            Err(e) => spec_side(*t, key@, ex, accept_num) == Err::<Seq<Level>, ParseError>(e),
        },
{
    match tree_get_exec(t, key) {
        Some(j) => match j {
            Json::Arr(items) => parse_levels(items, ex, accept_num),
            _ => Err(ParseError::MissingField),
        },
        None => Err(ParseError::MissingField),
    }
}

fn parse_snapshot(t: &Json, ex: Exchange, accept_num: bool) -> (r: Result<
    FeedSnapshot,
    ParseError,
>)
    ensures
        match r {
            Ok(s) => spec_snapshot(*t, ex, accept_num) == Ok::<SnapshotView, ParseError>(s@),
            Err(e) => spec_snapshot(*t, ex, accept_num) == Err::<SnapshotView, ParseError>(e),
        },
{
    let bids_key: String = "bids".to_owned();
    let asks_key: String = "asks".to_owned();
    match parse_side(t, &bids_key, ex, accept_num) {
        Err(e) => Err(e),
        Ok(bids) => match parse_side(t, &asks_key, ex, accept_num) {
            Err(e) => Err(e),
            Ok(asks) => Ok(FeedSnapshot { bids, asks }),
        },
    }
}

fn data_event(t: &Json) -> (r: bool)
    ensures
        r == is_data_event(*t),
{
    let event_key: String = "event".to_owned();
    match tree_get_exec(t, &event_key) {
        Some(j) => match j {
            Json::Str(s) => {
                let data: String = "data".to_owned();
                *s == data
            },
            _ => false,
        },
        None => false,
    }
}

/// Parse one decoded document for `ex`, with the exact outcome of
/// `spec_parse_tree`.
pub fn parse_tree(t: &Json, ex: Exchange) -> (r: Result<ParseOutcome, ParseError>)
    ensures
        parse_matches(r, spec_parse_tree(*t, ex)),
{
    match ex {
        Exchange::Binance => match parse_snapshot(t, ex, false) {
            Ok(s) => Ok(ParseOutcome::Update(s)),
            Err(e) => Err(e),
        },
        Exchange::Bitstamp => {
            if !data_event(t) {
                return Ok(ParseOutcome::Skip);
            }
            let data_key: String = "data".to_owned();
            match tree_get_exec(t, &data_key) {
                None => Err(ParseError::MissingField),
                Some(d) => match parse_snapshot(d, ex, true) {
                    Ok(s) => Ok(ParseOutcome::Update(s)),
                    Err(e) => Err(e),
                },
            }
        },
    }
}

proof fn lemma_spec_levels_nonneg(items: Seq<Json>, ex: Exchange, accept_num: bool)
    ensures
        spec_levels(items, ex, accept_num) matches Ok(ls) ==> levels_nonneg(ls),
    decreases items.len(),
{
    if items.len() > 0 {
        lemma_spec_levels_nonneg(items.drop_last(), ex, accept_num);
        match items.last() {
            Json::Arr(cells) => {
                let c0 = if cells@.len() > 0 {
                    cells@[0]
                } else {
                    Json::Null
                };
                let c1 = if cells@.len() > 1 {
                    cells@[1]
                } else {
                    Json::Null
                };
                match c0 {
                    Json::Str(s) => lemma_parse_decimal_nonneg(s@),
                    Json::Num(s) => lemma_parse_decimal_nonneg(s@),
                    _ => (),
                }
                match c1 {
                    Json::Str(s) => lemma_parse_decimal_nonneg(s@),
                    Json::Num(s) => lemma_parse_decimal_nonneg(s@),
                    _ => (),
                }
            },
            _ => (),
        }
        if spec_levels(items, ex, accept_num) is Ok {
            let prior = spec_levels(items.drop_last(), ex, accept_num)->Ok_0;
            let l = spec_level(items.last(), ex, accept_num)->Ok_0;
            assert forall|k: int|
                0 <= k < prior.push(l).len() implies prior.push(l)[k].price >= 0 && (
            #[trigger] prior.push(l)[k]).amount >= 0 by {
                if k < prior.len() {
                    assert(prior.push(l)[k] == prior[k]);
                } else {
                    assert(prior.push(l)[k] == l);
                }
            }
        }
    }
}

/// Every level of a parsed update carries a non-negative price and amount:
/// the decimal grammar has no sign.
pub proof fn lemma_parse_update_nonneg(t: Option<Json>, ex: Exchange)
    ensures
        spec_parse(t, ex) matches Ok(Some(sv)) ==> levels_nonneg(sv.bids) && levels_nonneg(
            sv.asks,
        ),
{
    if t is Some {
        let tree = t->0;
        match ex {
            Exchange::Binance => {
                lemma_snapshot_nonneg(tree, ex, false);
            },
            Exchange::Bitstamp => {
                if is_data_event(tree) {
                    match tree_get(tree, "data"@) {
                        Some(d) => lemma_snapshot_nonneg(d, ex, true),
                        None => (),
                    }
                }
            },
        }
    }
}

proof fn lemma_snapshot_nonneg(t: Json, ex: Exchange, accept_num: bool)
    ensures
        spec_snapshot(t, ex, accept_num) matches Ok(sv) ==> levels_nonneg(sv.bids)
            && levels_nonneg(sv.asks),
{
    match tree_get(t, "bids"@) {
        Some(j) => match j {
            Json::Arr(items) => lemma_spec_levels_nonneg(items@, ex, accept_num),
            _ => (),
        },
        None => (),
    }
    match tree_get(t, "asks"@) {
        Some(j) => match j {
            Json::Arr(items) => lemma_spec_levels_nonneg(items@, ex, accept_num),
            _ => (),
        },
        None => (),
    }
}

/// Normalize one raw feed message for `ex`.
///
/// The outcome is exactly `spec_parse` of the decoded text: an update
/// carrying the message's levels tagged with `ex`, the skip outcome for a
/// valid Bitstamp message that is no book update, or the one error the
/// message earns.  Update levels always satisfy the merge precondition.
pub fn parse(raw: &str, ex: Exchange) -> (r: Result<ParseOutcome, ParseError>)
    ensures
        parse_matches(r, spec_parse(json_tree(raw@), ex)),
        r matches Ok(o) ==> (o matches ParseOutcome::Update(s) ==> levels_nonneg(s@.bids)
            && levels_nonneg(s@.asks)),
{
    proof {
        lemma_parse_update_nonneg(json_tree(raw@), ex);
    }
    match parse_json(raw) {
        None => Err(ParseError::Syntax),
        Some(t) => parse_tree(&t, ex),
    }
}

} // verus!
