//! The consolidated order book: two bounded, sorted sides of price levels
//! plus the derived best-bid/best-ask spread.
//!
//! Prices and amounts are fixed-point numbers with eight decimal places
//! (see `crate::decimal`), so every comparison and the spread subtraction
//! are exact integer arithmetic: the price order is total by construction,
//! and no incomparable pair (the float parser's NaN hazard) can exist.

use vstd::prelude::*;

verus! {

/// Greatest number of price levels kept on each side of the consolidated book.
pub const DEPTH: usize = 10;

/// The venues whose level-2 feeds are consolidated into one book.
#[derive(Clone, Copy, PartialEq, Eq, Structural, Debug)]
pub enum Exchange {
    Binance,
    Bitstamp,
}

/// One quoted price level, tagged with the venue that quoted it.
/// `price` and `amount` are fixed-point values with eight decimal places.
#[derive(Clone, Copy, PartialEq, Eq, Structural, Debug)]
pub struct Level {
    pub exchange: Exchange,
    pub price: i64,
    pub amount: i64,
}

/// `a` may stand at or before `b` on a side: by descending price on the bid
/// side (`desc` true), ascending on the ask side (`desc` false).
pub open spec fn level_le(desc: bool, a: Level, b: Level) -> bool {
    if desc {
        a.price >= b.price
    } else {
        a.price <= b.price
    }
}

/// The side is ordered: descending by price when `desc`, else ascending.
pub open spec fn sorted(desc: bool, s: Seq<Level>) -> bool {
    forall|i: int, j: int| 0 <= i < j < s.len() ==> level_le(desc, s[i], s[j])
}

/// Every price and amount on the side is non-negative.
pub open spec fn levels_nonneg(s: Seq<Level>) -> bool {
    forall|i: int| 0 <= i < s.len() ==> s[i].price >= 0 && (#[trigger] s[i]).amount >= 0
}

/// Insert `x` after every element that may stand before it, so that levels
/// with equal prices keep their relative order (stable insertion).
pub open spec fn stable_insert(desc: bool, s: Seq<Level>, x: Level) -> Seq<Level>
    decreases s.len(),
{
    if s.len() > 0 && level_le(desc, s[0], x) {
        seq![s[0]] + stable_insert(desc, s.drop_first(), x)
    } else {
        seq![x] + s
    }
}

/// Stable insertion sort of a side: equal prices retain insertion order.
pub open spec fn stable_sort(desc: bool, s: Seq<Level>) -> Seq<Level>
    decreases s.len(),
{
    if s.len() == 0 {
        Seq::empty()
    } else {
        stable_insert(desc, stable_sort(desc, s.drop_last()), s.last())
    }
}

/// The side clipped to at most `d` levels.
pub open spec fn clipped(s: Seq<Level>, d: int) -> Seq<Level> {
    if s.len() <= d {
        s
    } else {
        s.take(d)
    }
}

/// The side clipped to the book depth.
pub open spec fn truncated(s: Seq<Level>) -> Seq<Level> {
    clipped(s, DEPTH as int)
}

/// What one side of the book holds after a merge: the former side with the
/// fresh levels appended, stably sorted, then clipped to the book depth.
pub open spec fn merged_side(desc: bool, cur: Seq<Level>, new: Seq<Level>) -> Seq<Level> {
    truncated(stable_sort(desc, cur + new))
}

/// Best ask price minus best bid price; zero is the sentinel for a book with
/// an empty side.
pub open spec fn spread_of(bids: Seq<Level>, asks: Seq<Level>) -> int {
    if bids.len() > 0 && asks.len() > 0 {
        asks[0].price - bids[0].price
    } else {
        0
    }
}

/// Mathematical model of the consolidated book.
pub struct BookView {
    pub bids: Seq<Level>,
    pub asks: Seq<Level>,
    pub spread: int,
}

/// Well-formedness of the consolidated book: both sides sorted the right way
/// round, clipped to the depth bound, holding only non-negative prices and
/// amounts, and the spread consistent with the best levels.
pub open spec fn book_wf(v: BookView) -> bool {
    &&& sorted(true, v.bids)
    &&& sorted(false, v.asks)
    &&& v.bids.len() <= DEPTH
    &&& v.asks.len() <= DEPTH
    &&& levels_nonneg(v.bids)
    &&& levels_nonneg(v.asks)
    &&& v.spread == spread_of(v.bids, v.asks)
}

proof fn lemma_stable_insert_len(desc: bool, s: Seq<Level>, x: Level)
    ensures
        stable_insert(desc, s, x).len() == s.len() + 1,
    decreases s.len(),
{
    if s.len() > 0 && level_le(desc, s[0], x) {
        lemma_stable_insert_len(desc, s.drop_first(), x);
    }
}

proof fn lemma_stable_sort_len(desc: bool, s: Seq<Level>)
    ensures
        stable_sort(desc, s).len() == s.len(),
    decreases s.len(),
{
    if s.len() > 0 {
        lemma_stable_sort_len(desc, s.drop_last());
        lemma_stable_insert_len(desc, stable_sort(desc, s.drop_last()), s.last());
    }
}

/// If every element before position `j` may stand before `x` and the element
/// at `j` (if any) may not, then stable insertion puts `x` exactly at `j`.
proof fn lemma_stable_insert_split(desc: bool, s: Seq<Level>, x: Level, j: int)
    requires
        0 <= j <= s.len(),
        forall|k: int| 0 <= k < j ==> level_le(desc, s[k], x),
        j < s.len() ==> !level_le(desc, s[j], x),
    ensures
        stable_insert(desc, s, x) == s.take(j) + seq![x] + s.skip(j),
    decreases j,
{
    if j == 0 {
        assert(stable_insert(desc, s, x) =~= s.take(0) + seq![x] + s.skip(0));
    } else {
        assert(level_le(desc, s[0], x));
        let rest = s.drop_first();
        assert(forall|k: int| 0 <= k < j - 1 ==> level_le(desc, rest[k], x));
        lemma_stable_insert_split(desc, rest, x, j - 1);
        assert(seq![s[0]] + (rest.take(j - 1) + seq![x] + rest.skip(j - 1)) =~= s.take(j)
            + seq![x] + s.skip(j));
    }
}

/// There is always a split point as in `lemma_stable_insert_split`.
proof fn stable_insert_point(desc: bool, s: Seq<Level>, x: Level) -> (j: int)
    ensures
        0 <= j <= s.len(),
        forall|k: int| 0 <= k < j ==> level_le(desc, s[k], x),
        j < s.len() ==> !level_le(desc, s[j], x),
    decreases s.len(),
{
    if s.len() == 0 || !level_le(desc, s[0], x) {
        0
    } else {
        let j2 = stable_insert_point(desc, s.drop_first(), x);
        assert(forall|k: int| 1 <= k < j2 + 1 ==> level_le(desc, s[k], x)) by {
            assert(forall|k: int| 0 <= k < j2 ==> level_le(desc, s.drop_first()[k], x));
            assert(forall|k: int| 1 <= k < j2 + 1 ==> s[k] == s.drop_first()[k - 1]);
        }
        j2 + 1
    }
}

proof fn lemma_stable_insert_sorted(desc: bool, s: Seq<Level>, x: Level)
    requires
        sorted(desc, s),
    ensures
        sorted(desc, stable_insert(desc, s, x)),
{
    let j = stable_insert_point(desc, s, x);
    lemma_stable_insert_split(desc, s, x, j);
    let r = stable_insert(desc, s, x);
    assert forall|a: int, b: int| 0 <= a < b < r.len() implies level_le(desc, r[a], r[b]) by {
        if a < j && b < j {
            assert(r[a] == s[a] && r[b] == s[b]);
        } else if a < j && b == j {
            assert(r[a] == s[a] && r[b] == x);
        } else if a < j && b > j {
            assert(r[a] == s[a] && r[b] == s[b - 1]);
        } else if a == j && b > j {
            assert(r[a] == x && r[b] == s[b - 1]);
            if j < s.len() {
                assert(!level_le(desc, s[j], x));
                assert(b - 1 == j || level_le(desc, s[j], s[b - 1]));
            }
        } else {
            assert(r[a] == s[a - 1] && r[b] == s[b - 1]);
        }
    }
}

proof fn lemma_stable_sort_sorted(desc: bool, s: Seq<Level>)
    ensures
        sorted(desc, stable_sort(desc, s)),
    decreases s.len(),
{
    if s.len() > 0 {
        lemma_stable_sort_sorted(desc, s.drop_last());
        lemma_stable_insert_sorted(desc, stable_sort(desc, s.drop_last()), s.last());
    }
}

proof fn lemma_stable_insert_nonneg(desc: bool, s: Seq<Level>, x: Level)
    requires
        levels_nonneg(s),
        x.price >= 0,
        x.amount >= 0,
    ensures
        levels_nonneg(stable_insert(desc, s, x)),
{
    let j = stable_insert_point(desc, s, x);
    lemma_stable_insert_split(desc, s, x, j);
    let r = stable_insert(desc, s, x);
    assert forall|k: int| 0 <= k < r.len() implies r[k].price >= 0 && (#[trigger] r[k]).amount
        >= 0 by {
        if k < j {
            assert(r[k] == s[k]);
        } else if k == j {
            assert(r[k] == x);
        } else {
            assert(r[k] == s[k - 1]);
        }
    }
}

proof fn lemma_stable_sort_nonneg(desc: bool, s: Seq<Level>)
    requires
        levels_nonneg(s),
    ensures
        levels_nonneg(stable_sort(desc, s)),
    decreases s.len(),
{
    if s.len() > 0 {
        assert(levels_nonneg(s.drop_last()));
        lemma_stable_sort_nonneg(desc, s.drop_last());
        lemma_stable_sort_len(desc, s.drop_last());
        lemma_stable_insert_nonneg(desc, stable_sort(desc, s.drop_last()), s.last());
    }
}

/// A merged side is sorted and never deeper than the depth bound, whatever
/// the book held before and whatever levels arrive: sortedness and the depth
/// bound hold after any sequence of merges.
pub proof fn lemma_merged_side_sorted_bounded(desc: bool, cur: Seq<Level>, new: Seq<Level>)
    ensures
        sorted(desc, merged_side(desc, cur, new)),
        merged_side(desc, cur, new).len() <= DEPTH,
{
    let w = stable_sort(desc, cur + new);
    lemma_stable_sort_sorted(desc, cur + new);
    assert(sorted(desc, truncated(w)));
    lemma_stable_sort_len(desc, cur + new);
}

/// Stable sorting leaves an already-sorted side unchanged.
proof fn lemma_stable_sort_of_sorted(desc: bool, s: Seq<Level>)
    requires
        sorted(desc, s),
    ensures
        stable_sort(desc, s) == s,
    decreases s.len(),
{
    if s.len() > 0 {
        let front = s.drop_last();
        assert(sorted(desc, front));
        lemma_stable_sort_of_sorted(desc, front);
        lemma_stable_insert_split(desc, front, s.last(), front.len() as int);
        assert(front.take(front.len() as int) + seq![s.last()] + front.skip(front.len() as int)
            =~= s);
    }
}

/// Merging with both inputs empty leaves a well-formed book unchanged: the
/// re-sort and re-truncation are the identity on already-consistent state.
pub proof fn lemma_merge_empty_identity(v: BookView)
    requires
        book_wf(v),
    ensures
        merged_side(true, v.bids, Seq::<Level>::empty()) == v.bids,
        merged_side(false, v.asks, Seq::<Level>::empty()) == v.asks,
        spread_of(v.bids, v.asks) == v.spread,
{
    assert(v.bids + Seq::<Level>::empty() =~= v.bids);
    assert(v.asks + Seq::<Level>::empty() =~= v.asks);
    lemma_stable_sort_of_sorted(true, v.bids);
    lemma_stable_sort_of_sorted(false, v.asks);
}

/// `a` may stand at or before `b` on this side (executable counterpart of
/// `level_le`).
fn level_before(desc: bool, a: &Level, b: &Level) -> (r: bool)
    ensures
        r == level_le(desc, *a, *b),
{
    if desc {
        a.price >= b.price
    } else {
        a.price <= b.price
    }
}

/// Stable insertion sort of one side, in place.
fn sort_levels(v: &mut Vec<Level>, desc: bool)
    ensures
        final(v)@ == stable_sort(desc, old(v)@),
{
    let mut out: Vec<Level> = Vec::new();
    let mut i: usize = 0;
    while i < v.len()
        invariant
            i <= v@.len(),
            v@ == old(v)@,
            out@ == stable_sort(desc, v@.take(i as int)),
        decreases v@.len() - i,
    {
        let x = v[i];
        let mut j: usize = 0;
        proof {
            lemma_stable_sort_len(desc, v@.take(i as int));
        }
        while j < out.len() && level_before(desc, &out[j], &x)
            invariant
                j <= out@.len(),
                forall|k: int| 0 <= k < j ==> level_le(desc, out@[k], x),
            decreases out@.len() - j,
        {
            j += 1;
        }
        proof {
            lemma_stable_insert_split(desc, out@, x, j as int);
            assert(out@.insert(j as int, x) =~= out@.take(j as int) + seq![x] + out@.skip(
                j as int,
            ));
            assert(v@.take(i + 1).drop_last() =~= v@.take(i as int));
            assert(v@.take(i + 1).last() == v@[i as int]);
        }
        out.insert(j, x);
        i += 1;
    }
    proof {
        assert(v@.take(v@.len() as int) =~= v@);
    }
    *v = out;
}

/// The consolidated order book shared by the ingestors and the publishers.
/// All mutation goes through `merge_and_sort` and `truncate`, which keep the
/// book well-formed (`book_wf`).
#[derive(Debug)]
pub struct OrderBook {
    bids: Vec<Level>,
    asks: Vec<Level>,
    spread: i64,
}

impl View for OrderBook {
    type V = BookView;

    closed spec fn view(&self) -> BookView {
        BookView { bids: self.bids@, asks: self.asks@, spread: self.spread as int }
    }
}

/// The externally published, read-only projection of the book at one
/// instant: a full snapshot, never a diff.
#[derive(PartialEq, Debug)]
pub struct Summary {
    pub spread: i64,
    pub bids: Vec<Level>,
    pub asks: Vec<Level>,
}

/// Copy of one side, element for element.
fn copy_levels(v: &Vec<Level>) -> (r: Vec<Level>)
    ensures
        r@ == v@,
{
    let mut out: Vec<Level> = Vec::new();
    let mut i: usize = 0;
    while i < v.len()
        invariant
            i <= v@.len(),
            out@ == v@.take(i as int),
        decreases v@.len() - i,
    {
        out.push(v[i]);
        proof {
            assert(v@.take(i + 1) =~= v@.take(i as int).push(v@[i as int]));
        }
        i += 1;
    }
    proof {
        assert(v@.take(v@.len() as int) =~= v@);
    }
    out
}

impl OrderBook {
    /// The empty book: both sides empty, spread at the sentinel zero.
    pub fn new() -> (r: OrderBook)
        ensures
            r@.bids == Seq::<Level>::empty(),
            r@.asks == Seq::<Level>::empty(),
            r@.spread == 0,
            book_wf(r@),
    {
        OrderBook { bids: Vec::new(), asks: Vec::new(), spread: 0 }
    }

    /// Recompute the spread from the current best levels.
    fn refresh_spread(&mut self)
        requires
            levels_nonneg(old(self)@.bids),
            levels_nonneg(old(self)@.asks),
        ensures
            final(self)@.bids == old(self)@.bids,
            final(self)@.asks == old(self)@.asks,
            final(self)@.spread == spread_of(old(self)@.bids, old(self)@.asks),
    {
        let s: i64 = if self.bids.len() > 0 && self.asks.len() > 0 {
            self.asks[0].price - self.bids[0].price
        } else {
            0
        };
        self.spread = s;
    }

    /// Clip both sides to at most `depth` levels and recompute the spread.
    pub fn truncate(&mut self, depth: usize)
        requires
            levels_nonneg(old(self)@.bids),
            levels_nonneg(old(self)@.asks),
        ensures
            final(self)@.bids == clipped(old(self)@.bids, depth as int),
            final(self)@.asks == clipped(old(self)@.asks, depth as int),
            final(self)@.spread == spread_of(final(self)@.bids, final(self)@.asks),
    {
        self.bids.truncate(depth);
        self.asks.truncate(depth);
        proof {
            assert(clipped(old(self)@.bids, depth as int) =~= self.bids@);
            assert(clipped(old(self)@.asks, depth as int) =~= self.asks@);
            assert(levels_nonneg(self.bids@));
            assert(levels_nonneg(self.asks@));
        }
        self.refresh_spread();
    }

    /// The one atomic mutation of the book: append the fresh levels to each
    /// side, stably re-sort (bids descending, asks ascending), clip both
    /// sides to the depth bound, and recompute the spread. Afterwards the
    /// book is well-formed whatever state it held before.
    pub fn merge_and_sort(&mut self, new_bids: Vec<Level>, new_asks: Vec<Level>)
        requires
            levels_nonneg(old(self)@.bids),
            levels_nonneg(old(self)@.asks),
            levels_nonneg(new_bids@),
            levels_nonneg(new_asks@),
        ensures
            final(self)@.bids == merged_side(true, old(self)@.bids, new_bids@),
            final(self)@.asks == merged_side(false, old(self)@.asks, new_asks@),
            final(self)@.spread == spread_of(final(self)@.bids, final(self)@.asks),
            book_wf(final(self)@),
    {
        let mut nb = new_bids;
        let mut na = new_asks;
        self.bids.append(&mut nb);
        self.asks.append(&mut na);
        sort_levels(&mut self.bids, true);
        sort_levels(&mut self.asks, false);
        proof {
            assert(levels_nonneg(old(self)@.bids + new_bids@));
            assert(levels_nonneg(old(self)@.asks + new_asks@));
            lemma_stable_sort_nonneg(true, old(self)@.bids + new_bids@);
            lemma_stable_sort_nonneg(false, old(self)@.asks + new_asks@);
            lemma_merged_side_sorted_bounded(true, old(self)@.bids, new_bids@);
            lemma_merged_side_sorted_bounded(false, old(self)@.asks, new_asks@);
        }
        self.truncate(DEPTH);
        proof {
            assert(levels_nonneg(final(self)@.bids));
            assert(levels_nonneg(final(self)@.asks));
        }
    }

    /// A consistent snapshot of the whole book: the published `Summary`
    /// reproduces the sides and the spread exactly as they stand.
    pub fn summary(&self) -> (s: Summary)
        ensures
            s.spread as int == self@.spread,
            s.bids@ == self@.bids,
            s.asks@ == self@.asks,
    {
        Summary { spread: self.spread, bids: copy_levels(&self.bids), asks: copy_levels(&self.asks) }
    }

    /// The bid side, best (highest) price first.
    pub fn bids(&self) -> (r: &Vec<Level>)
        ensures
            r@ == self@.bids,
    {
        &self.bids
    }

    /// The ask side, best (lowest) price first.
    pub fn asks(&self) -> (r: &Vec<Level>)
        ensures
            r@ == self@.asks,
    {
        &self.asks
    }

    /// The spread as last recomputed by a merge or truncation.
    pub fn spread(&self) -> (r: i64)
        ensures
            r as int == self@.spread,
    {
        self.spread
    }
}

/// Best ask price minus best bid price of the current book, zero when either
/// side is empty.
pub fn calculate_spread(book: &OrderBook) -> (r: i64)
    requires
        levels_nonneg(book@.bids),
        levels_nonneg(book@.asks),
    ensures
        r as int == spread_of(book@.bids, book@.asks),
{
    if book.bids.len() > 0 && book.asks.len() > 0 {
        book.asks[0].price - book.bids[0].price
    } else {
        0
    }
}

} // verus!
