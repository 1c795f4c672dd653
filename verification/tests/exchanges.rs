use std::sync::Arc;
use crossbeam_queue::ArrayQueue;
use execution_engine::exchanges::ExchangeSim;
use execution_engine::types::{Decimal, Exchange, MarketEvent, OrderRequest, OrderStatus, OrderType, Side, Symbol, TimeInForce};

fn dec(v: f64) -> Decimal {
    Decimal((v * 100_000_000.0).round() as u64)
}

fn order(id: u64, side: Side, order_type: OrderType, price: Decimal, quantity: Decimal) -> OrderRequest {
    OrderRequest {
        client_order_id: id,
        symbol: Symbol::BTCUSDT,
        exchange: Exchange::Binance,
        side,
        order_type,
        price,
        quantity,
        time_in_force: TimeInForce::GTC,
    }
}

fn drain(queue: &ArrayQueue<MarketEvent>) -> Vec<MarketEvent> {
    let mut out = Vec::new();
    while let Some(e) = queue.pop() {
        out.push(e);
    }
    out
}

#[test]
fn simulated_book_surrounds_the_price() {
    let sim = ExchangeSim::new(Exchange::Coinbase, Symbol::BTCUSDT, dec(100.2));
    assert_eq!(sim.book.bid_count, 20);
    assert_eq!(sim.book.ask_count, 20);
    // Coinbase quotes 0.0003 either side of the price, in steps of 0.0001.
    assert_eq!(sim.book.bids[0].price, Decimal(dec(100.2).0 - 30_000));
    assert_eq!(sim.book.asks[0].price, Decimal(dec(100.2).0 + 30_000));
    assert_eq!(sim.book.asks[19].price, Decimal(dec(100.2).0 + 30_000 + 190_000));
    for level in sim.book.bids.iter().chain(sim.book.asks.iter()) {
        assert!(dec(0.5) <= level.quantity && level.quantity < dec(5.0));
    }
}

#[test]
fn limit_orders_fill_or_rest_and_can_be_cancelled() {
    let queue = Arc::new(ArrayQueue::new(64));
    let mut sim = ExchangeSim::new(Exchange::Binance, Symbol::BTCUSDT, dec(100.0));
    // A buy above the best ask fills at its own price.
    sim.handle_order_request(order(1, Side::Buy, OrderType::Limit, dec(101.0), dec(1.0)), 5, &queue);
    let events = drain(&queue);
    assert_eq!(events.len(), 2);
    match (events[0], events[1]) {
        (MarketEvent::ExecutionReport(ack), MarketEvent::ExecutionReport(fill)) => {
            assert_eq!(ack.status, OrderStatus::New);
            assert_eq!(ack.exchange_order_id, 1);
            assert_eq!(fill.status, OrderStatus::Filled);
            assert_eq!((fill.last_qty, fill.last_price, fill.leaves_qty), (dec(1.0), dec(101.0), Decimal(0)));
        }
        _ => panic!("expected two reports"),
    }
    // A buy below the best ask rests.
    sim.handle_order_request(order(2, Side::Buy, OrderType::Limit, dec(90.0), dec(1.0)), 6, &queue);
    assert_eq!(drain(&queue).len(), 1);
    assert_eq!(sim.resting_orders.len(), 1);
    // Cancelling it confirms; cancelling again does nothing.
    sim.handle_cancel(2, 7, &queue);
    let events = drain(&queue);
    assert_eq!(events.len(), 1);
    match events[0] {
        MarketEvent::ExecutionReport(r) => {
            assert_eq!((r.client_order_id, r.status, r.exchange_order_id), (2, OrderStatus::Cancelled, 3));
        }
        _ => panic!("expected a report"),
    }
    assert!(sim.resting_orders.is_empty());
    sim.handle_cancel(2, 8, &queue);
    assert!(drain(&queue).is_empty());
    assert_eq!(sim.order_id_counter, 3);
}

#[test]
fn market_orders_sweep_the_book_at_the_average_price() {
    let queue = Arc::new(ArrayQueue::new(64));
    let mut sim = ExchangeSim::new(Exchange::Binance, Symbol::BTCUSDT, dec(100.0));
    let first = sim.book.asks[0];
    let second = sim.book.asks[1];
    let want = first.quantity.0 + second.quantity.0 / 2;
    sim.handle_order_request(order(3, Side::Buy, OrderType::Market, Decimal(0), Decimal(want)), 1, &queue);
    let events = drain(&queue);
    match events[1] {
        MarketEvent::ExecutionReport(fill) => {
            assert_eq!(fill.status, OrderStatus::Filled);
            assert_eq!(fill.last_qty, Decimal(want));
            let cost = first.quantity.0 as u128 * first.price.0 as u128
                + (second.quantity.0 / 2) as u128 * second.price.0 as u128;
            assert_eq!(fill.last_price, Decimal((cost / want as u128) as u64));
        }
        _ => panic!("expected a fill"),
    }
}

#[test]
fn market_order_larger_than_the_book_fills_partly() {
    let queue = Arc::new(ArrayQueue::new(64));
    let mut sim = ExchangeSim::new(Exchange::Coinbase, Symbol::BTCUSDT, dec(100.0));
    let offered: u64 = sim.book.bids.iter().map(|l| l.quantity.0).sum();
    sim.handle_order_request(order(5, Side::Sell, OrderType::Market, Decimal(0), Decimal(offered + 7)), 1, &queue);
    let events = drain(&queue);
    match events[1] {
        MarketEvent::ExecutionReport(r) => {
            assert_eq!(r.status, OrderStatus::PartiallyFilled);
            assert_eq!((r.last_qty, r.leaves_qty), (Decimal(offered), Decimal(7)));
        }
        _ => panic!("expected a partial fill"),
    }
}

#[test]
fn market_order_on_an_empty_side_is_rejected() {
    let queue = Arc::new(ArrayQueue::new(64));
    let mut sim = ExchangeSim::new(Exchange::Binance, Symbol::BTCUSDT, dec(100.0));
    sim.book.bid_count = 0;
    sim.handle_order_request(order(4, Side::Sell, OrderType::Market, Decimal(0), dec(1.0)), 1, &queue);
    let events = drain(&queue);
    match events[1] {
        MarketEvent::ExecutionReport(r) => {
            assert_eq!((r.status, r.last_qty, r.leaves_qty), (OrderStatus::Rejected, Decimal(0), dec(1.0)));
        }
        _ => panic!("expected a rejection"),
    }
}

#[test]
fn ticks_walk_the_price_and_fill_reached_orders() {
    let queue = Arc::new(ArrayQueue::new(256));
    let mut sim = ExchangeSim::new(Exchange::Binance, Symbol::BTCUSDT, dec(100.0));
    // A far-away buy never fills, a buy far above the price always does.
    sim.resting_orders.push(order(10, Side::Buy, OrderType::Limit, dec(50.0), dec(1.0)));
    sim.resting_orders.push(order(11, Side::Buy, OrderType::Limit, dec(200.0), dec(2.0)));
    let before = sim.current_price.0;
    assert!(sim.tick(1_000, &queue).is_none());
    let after = sim.current_price.0;
    // At most 0.02% either way.
    assert!(after.abs_diff(before) <= before / 5_000);
    let events = drain(&queue);
    assert!(matches!(events[0], MarketEvent::BookUpdate(_)));
    let fills: Vec<_> = events
        .iter()
        .filter_map(|e| match e {
            MarketEvent::ExecutionReport(r) => Some(*r),
            _ => None,
        })
        .collect();
    assert_eq!(fills.len(), 1);
    assert_eq!((fills[0].client_order_id, fills[0].last_qty, fills[0].last_price), (11, dec(2.0), dec(200.0)));
    assert_eq!(sim.resting_orders.len(), 1);
    assert_eq!(sim.resting_orders[0].client_order_id, 10);
}

#[test]
fn a_fixed_step_is_deterministic() {
    let mut sim = ExchangeSim::new(Exchange::Binance, Symbol::BTCUSDT, Decimal(100_000_000));
    let bids = [60_000_000u64; 20];
    let asks = [70_000_000u64; 20];
    // +0.02% of 1.0 is 20_000 raw units; -0.02% gives it back.
    let events = sim.step(1, 20, &bids, &asks, Some((Decimal(5), Side::Sell)));
    assert_eq!(sim.current_price, Decimal(100_020_000));
    assert_eq!(events.len(), 2);
    match events[1] {
        MarketEvent::Trade(t) => assert_eq!((t.price, t.quantity), (Decimal(100_010_000), Decimal(5))),
        _ => panic!("expected a trade"),
    }
    sim.step(2, -20, &bids, &asks, None);
    assert_eq!(sim.current_price, Decimal(99_999_996));
    assert_eq!(sim.book.asks[3].quantity, Decimal(70_000_000));
}

#[test]
fn venue_preconditions_are_tested_before_use() {
    assert!(ExchangeSim::price_fits(Exchange::Binance, dec(100.0)));
    assert!(!ExchangeSim::price_fits(Exchange::Binance, Decimal(u64::MAX - 10_000)));
    assert!(!ExchangeSim::price_fits(Exchange::Coinbase, Decimal(u64::MAX - 10_000 - 190_000)));
    assert!(ExchangeSim::price_fits(Exchange::Binance, Decimal(u64::MAX - 10_000 - 190_000)));

    let queue = Arc::new(ArrayQueue::new(64));
    let mut sim = ExchangeSim::new(Exchange::Binance, Symbol::BTCUSDT, dec(100.0));
    let limit = order(1, Side::Buy, OrderType::Limit, dec(90.0), dec(1.0));
    assert!(sim.can_take_order(&limit));
    assert!(sim.can_tick());
    sim.handle_order_request(limit, 1, &queue);
    assert!(sim.can_cancel(1));
    assert!(sim.can_cancel(99));
    // With the id counter exhausted, only requests that number nothing are accepted.
    sim.order_id_counter = u64::MAX;
    assert!(!sim.can_take_order(&limit));
    assert!(!sim.can_cancel(1));
    assert!(sim.can_cancel(99));
    // A resting buy at 90 is out of reach of any step from 100: the tick numbers nothing.
    assert!(sim.can_tick());
    sim.current_price = dec(90.0);
    assert!(!sim.can_tick());
    // A price that overflows the walk is refused.
    sim.order_id_counter = 0;
    sim.current_price = Decimal(u64::MAX / 4);
    assert!(!sim.can_tick());
    // A market order needs a well-formed book.
    sim.book.ask_count = 21;
    assert!(!sim.can_take_order(&order(2, Side::Buy, OrderType::Market, Decimal(0), dec(1.0))));
    assert!(sim.can_take_order(&order(2, Side::Buy, OrderType::Limit, dec(1.0), dec(1.0))));
}
