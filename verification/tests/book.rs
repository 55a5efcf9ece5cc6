use orderbook::book::{calculate_spread, Exchange, Level, OrderBook, DEPTH};

fn level(ex: Exchange, price: i64, amount: i64) -> Level {
    Level { exchange: ex, price, amount }
}

fn assert_sides_ok(book: &OrderBook) {
    let bids = book.bids();
    let asks = book.asks();
    assert!(bids.len() <= DEPTH);
    assert!(asks.len() <= DEPTH);
    for w in bids.windows(2) {
        assert!(w[0].price >= w[1].price);
    }
    for w in asks.windows(2) {
        assert!(w[0].price <= w[1].price);
    }
}

#[test]
fn merge_sorts_both_sides() {
    let mut book = OrderBook::new();
    let bids = vec![
        level(Exchange::Binance, 100_0000_0000, 1),
        level(Exchange::Binance, 102_0000_0000, 2),
        level(Exchange::Binance, 101_0000_0000, 3),
    ];
    let asks = vec![
        level(Exchange::Binance, 105_0000_0000, 1),
        level(Exchange::Binance, 103_0000_0000, 2),
        level(Exchange::Binance, 104_0000_0000, 3),
    ];
    book.merge_and_sort(bids, asks);
    let b: Vec<i64> = book.bids().iter().map(|l| l.price).collect();
    let a: Vec<i64> = book.asks().iter().map(|l| l.price).collect();
    assert_eq!(b, vec![102_0000_0000, 101_0000_0000, 100_0000_0000]);
    assert_eq!(a, vec![103_0000_0000, 104_0000_0000, 105_0000_0000]);
    assert_eq!(book.spread(), 103_0000_0000 - 102_0000_0000);
    assert_sides_ok(&book);
}

#[test]
fn merge_truncates_to_depth() {
    let mut book = OrderBook::new();
    let mut bids = Vec::new();
    let mut asks = Vec::new();
    for i in 0..12i64 {
        bids.push(level(Exchange::Binance, (100 + i) * 100_000_000, 1));
        asks.push(level(Exchange::Bitstamp, (200 + i) * 100_000_000, 1));
    }
    book.merge_and_sort(bids, asks);
    assert_eq!(book.bids().len(), DEPTH);
    assert_eq!(book.asks().len(), DEPTH);
    // The best ten prices survive on each side.
    assert_eq!(book.bids()[0].price, 111 * 100_000_000);
    assert_eq!(book.bids()[9].price, 102 * 100_000_000);
    assert_eq!(book.asks()[0].price, 200 * 100_000_000);
    assert_eq!(book.asks()[9].price, 209 * 100_000_000);
    assert_sides_ok(&book);
}

#[test]
fn merge_keeps_equal_prices_in_arrival_order() {
    let mut book = OrderBook::new();
    book.merge_and_sort(
        vec![level(Exchange::Binance, 100_0000_0000, 1)],
        vec![level(Exchange::Binance, 101_0000_0000, 1)],
    );
    book.merge_and_sort(
        vec![level(Exchange::Bitstamp, 100_0000_0000, 2)],
        vec![level(Exchange::Bitstamp, 101_0000_0000, 2)],
    );
    // Equal prices from different exchanges both survive, earlier arrival first.
    assert_eq!(book.bids().len(), 2);
    assert_eq!(book.bids()[0].exchange, Exchange::Binance);
    assert_eq!(book.bids()[1].exchange, Exchange::Bitstamp);
    assert_eq!(book.asks()[0].exchange, Exchange::Binance);
    assert_eq!(book.asks()[1].exchange, Exchange::Bitstamp);
}

#[test]
fn merge_empty_inputs_is_identity() {
    let mut book = OrderBook::new();
    book.merge_and_sort(
        vec![
            level(Exchange::Binance, 100_0000_0000, 1),
            level(Exchange::Bitstamp, 99_0000_0000, 2),
        ],
        vec![level(Exchange::Binance, 101_0000_0000, 1)],
    );
    let before = book.summary();
    book.merge_and_sort(Vec::new(), Vec::new());
    let after = book.summary();
    assert_eq!(before, after);
}

#[test]
fn merge_empty_book_stays_empty() {
    let mut book = OrderBook::new();
    book.merge_and_sort(Vec::new(), Vec::new());
    assert!(book.bids().is_empty());
    assert!(book.asks().is_empty());
    assert_eq!(book.spread(), 0);
}

#[test]
fn spread_zero_when_one_side_empty() {
    let mut book = OrderBook::new();
    book.merge_and_sort(vec![level(Exchange::Binance, 100_0000_0000, 1)], Vec::new());
    assert_eq!(book.spread(), 0);
    assert_eq!(calculate_spread(&book), 0);
    book.merge_and_sort(Vec::new(), vec![level(Exchange::Binance, 104_0000_0000, 1)]);
    assert_eq!(book.spread(), 104_0000_0000 - 100_0000_0000);
    assert_eq!(calculate_spread(&book), book.spread());
}

#[test]
fn truncate_clips_and_recomputes() {
    let mut book = OrderBook::new();
    let mut bids = Vec::new();
    for i in 0..6i64 {
        bids.push(level(Exchange::Binance, (100 + i) * 100_000_000, 1));
    }
    book.merge_and_sort(bids, vec![level(Exchange::Binance, 300 * 100_000_000, 1)]);
    book.truncate(3);
    assert_eq!(book.bids().len(), 3);
    assert_eq!(book.asks().len(), 1);
    assert_eq!(book.bids()[0].price, 105 * 100_000_000);
    book.truncate(0);
    assert!(book.bids().is_empty());
    assert!(book.asks().is_empty());
    assert_eq!(book.spread(), 0);
}

#[test]
fn summary_reproduces_book() {
    let mut book = OrderBook::new();
    book.merge_and_sort(
        vec![level(Exchange::Binance, 100_0000_0000, 7)],
        vec![level(Exchange::Bitstamp, 102_0000_0000, 9)],
    );
    let s = book.summary();
    assert_eq!(s.spread, book.spread());
    assert_eq!(&s.bids, book.bids());
    assert_eq!(&s.asks, book.asks());
    assert_eq!(s.bids[0].amount, 7);
    assert_eq!(s.asks[0].amount, 9);
}
