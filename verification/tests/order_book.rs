use execution_engine::order_book::OrderBook;
use execution_engine::types::{BookUpdate, BookUpdateLevel, Decimal, Exchange, Symbol};

/// Fixed-point value of a whole-unit price or quantity, as the engine's callers write it.
fn dec(v: f64) -> Decimal {
    Decimal((v * 100_000_000.0).round() as u64)
}

#[test]
fn test_order_book_bids() {
    let mut book = OrderBook::new();
    assert_eq!(book.bid_count, 0);

    // Insert first bid
    book.update_bid(dec(100.0), dec(1.0));
    assert_eq!(book.bid_count, 1);
    assert_eq!(book.get_best_bid().unwrap().price, dec(100.0));

    // Insert higher bid (should sort to index 0)
    book.update_bid(dec(101.0), dec(2.0));
    assert_eq!(book.bid_count, 2);
    assert_eq!(book.bids[0].price, dec(101.0));
    assert_eq!(book.bids[1].price, dec(100.0));

    // Insert lower bid (should sort to index 2)
    book.update_bid(dec(99.0), dec(3.0));
    assert_eq!(book.bid_count, 3);
    assert_eq!(book.bids[0].price, dec(101.0));
    assert_eq!(book.bids[1].price, dec(100.0));
    assert_eq!(book.bids[2].price, dec(99.0));

    // Update quantity
    book.update_bid(dec(100.0), dec(1.5));
    assert_eq!(book.bid_count, 3);
    assert_eq!(book.bids[1].quantity, dec(1.5));

    // Delete bid
    book.update_bid(dec(100.0), Decimal(0));
    assert_eq!(book.bid_count, 2);
    assert_eq!(book.bids[0].price, dec(101.0));
    assert_eq!(book.bids[1].price, dec(99.0));
}

#[test]
fn test_order_book_asks() {
    let mut book = OrderBook::new();
    assert_eq!(book.ask_count, 0);

    // Insert asks
    book.update_ask(dec(100.0), dec(1.0));
    book.update_ask(dec(99.0), dec(2.0)); // lower ask (better price)
    book.update_ask(dec(101.0), dec(3.0)); // higher ask

    assert_eq!(book.ask_count, 3);
    // Asks sort ascending (lowest first)
    assert_eq!(book.asks[0].price, dec(99.0));
    assert_eq!(book.asks[1].price, dec(100.0));
    assert_eq!(book.asks[2].price, dec(101.0));
}

fn level(price: u64, quantity: u64) -> BookUpdateLevel {
    BookUpdateLevel { price: Decimal(price), quantity: Decimal(quantity) }
}

#[test]
fn full_side_pushes_out_the_worst_level() {
    let mut book = OrderBook::new();
    for i in 0..20u64 {
        book.update_bid(Decimal(1_000 - i), Decimal(1));
    }
    assert_eq!(book.bid_count, 20);
    assert_eq!(book.bids[19].price, Decimal(981));
    // A better price enters and the worst level drops out.
    book.update_bid(Decimal(2_000), Decimal(7));
    assert_eq!(book.bid_count, 20);
    assert_eq!(book.bids[0], level(2_000, 7));
    assert_eq!(book.bids[19].price, Decimal(982));
    // A worse price than every level of a full side is not taken.
    book.update_bid(Decimal(5), Decimal(7));
    assert_eq!(book.bid_count, 20);
    assert!(book.bids.iter().all(|l| l.price != Decimal(5)));
}

#[test]
fn removing_an_unknown_price_changes_nothing() {
    let mut book = OrderBook::new();
    book.update_ask(Decimal(100), Decimal(3));
    book.update_ask(Decimal(200), Decimal(0));
    assert_eq!(book.ask_count, 1);
    assert_eq!(book.asks[0], level(100, 3));
    assert_eq!(book.asks[1], level(0, 0));
}

#[test]
fn deleting_clears_the_freed_slot() {
    let mut book = OrderBook::new();
    book.update_ask(Decimal(100), Decimal(3));
    book.update_ask(Decimal(101), Decimal(4));
    book.update_ask(Decimal(100), Decimal(0));
    assert_eq!(book.ask_count, 1);
    assert_eq!(book.asks[0], level(101, 4));
    assert_eq!(book.asks[1], level(0, 0));
}

#[test]
fn update_then_quote_reads_back_the_quantity() {
    let mut book = OrderBook::new();
    book.update_bid(Decimal(50), Decimal(5));
    book.update_bid(Decimal(70), Decimal(6));
    book.update_bid(Decimal(60), Decimal(9));
    let quoted: Vec<_> = book.bids[..book.bid_count].iter().filter(|l| l.price == Decimal(60)).collect();
    assert_eq!(quoted.len(), 1);
    assert_eq!(quoted[0].quantity, Decimal(9));
    // The other quotes are untouched.
    assert_eq!(book.bids[0], level(70, 6));
    assert_eq!(book.bids[2], level(50, 5));
}

#[test]
fn best_levels_and_mid_price() {
    let mut book = OrderBook::new();
    assert_eq!(book.get_best_bid(), None);
    assert_eq!(book.get_mid_price(), None);
    book.update_bid(Decimal(99), Decimal(1));
    assert_eq!(book.get_mid_price(), None);
    book.update_ask(Decimal(102), Decimal(1));
    assert_eq!(book.get_best_bid(), Some(level(99, 1)));
    assert_eq!(book.get_best_ask(), Some(level(102, 1)));
    // (99 + 102) / 2, truncated.
    assert_eq!(book.get_mid_price(), Some(Decimal(100)));
}

#[test]
fn snapshot_replaces_levels_and_caps_depth() {
    let mut book = OrderBook::new();
    book.update_bid(Decimal(1), Decimal(1));
    let mut bids = [level(0, 0); 20];
    let mut asks = [level(0, 0); 20];
    for i in 0..20 {
        bids[i] = level(500 - i as u64, 2);
        asks[i] = level(600 + i as u64, 3);
    }
    let update = BookUpdate {
        symbol: Symbol::BTCUSDT,
        exchange: Exchange::Binance,
        bids,
        asks,
        bid_count: 25,
        ask_count: 2,
        timestamp_ns: 0,
    };
    book.apply_update(&update);
    assert_eq!(book.bid_count, 20);
    assert_eq!(book.ask_count, 2);
    assert_eq!(book.bids[19], level(481, 2));
    assert_eq!(book.asks[1], level(601, 3));
    assert_eq!(book.asks[2], level(0, 0));
}

#[test]
fn inserting_then_deleting_a_price_restores_the_side() {
    let mut book = OrderBook::new();
    book.update_bid(dec(100.0), dec(1.0));
    book.update_bid(dec(99.0), dec(2.0));
    book.update_bid(dec(98.0), dec(3.0));
    let before = (book.bids, book.bid_count);
    book.update_bid(dec(99.5), dec(4.0));
    assert_eq!(book.bid_count, 4);
    assert_eq!(book.bids[1], BookUpdateLevel { price: dec(99.5), quantity: dec(4.0) });
    book.update_bid(dec(99.5), Decimal(0));
    assert_eq!((book.bids, book.bid_count), before);
}

#[test]
fn live_levels_are_nonzero_and_the_rest_empty() {
    let mut book = OrderBook::new();
    for (p, q) in [(101.0, 1.0), (103.0, 2.0), (102.0, 0.5), (101.0, 0.0), (104.0, 3.0), (103.0, 1.5)] {
        book.update_ask(dec(p), dec(q));
        for i in 0..book.ask_count {
            assert!(!book.asks[i].quantity.is_zero());
            if i > 0 {
                assert!(book.asks[i - 1].price < book.asks[i].price);
            }
        }
        for i in book.ask_count..20 {
            assert_eq!(book.asks[i], BookUpdateLevel { price: Decimal(0), quantity: Decimal(0) });
        }
    }
    assert_eq!(book.ask_count, 3);
}
