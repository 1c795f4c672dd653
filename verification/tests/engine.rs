use std::sync::Arc;
use crossbeam_queue::ArrayQueue;
use execution_engine::algos::iceberg::IcebergAlgo;
use execution_engine::algos::twap::TwapAlgo;
use execution_engine::algos::AlgoAction;
use execution_engine::engine::ExecutionEngine;
use execution_engine::types::{
    Decimal, Exchange, ExecutionReport, MarketEvent, OrderRequest, OrderStatus, OrderType, Side, Symbol, TimeInForce,
};

fn dec(v: f64) -> Decimal {
    Decimal((v * 100_000_000.0).round() as u64)
}

fn drain(queue: &ArrayQueue<OrderRequest>) -> Vec<OrderRequest> {
    let mut out = Vec::new();
    while let Some(req) = queue.pop() {
        out.push(req);
    }
    out
}

fn place(id: u64, quantity: Decimal) -> AlgoAction {
    AlgoAction::PlaceOrder { client_order_id: id, exchange: Exchange::Binance, side: Side::Buy, price: dec(100.5), quantity }
}

#[test]
fn placement_without_liquidity_goes_direct_to_binance() {
    let queue = Arc::new(ArrayQueue::new(16));
    let mut engine = ExecutionEngine::new(queue.clone());
    engine.handle_algo_action(place(30001, dec(1.0)), "ICEBERG", 5);
    let sent = drain(&queue);
    assert_eq!(sent.len(), 1);
    assert_eq!(
        sent[0],
        OrderRequest {
            client_order_id: 1_000_001,
            symbol: Symbol::BTCUSDT,
            exchange: Exchange::Binance,
            side: Side::Buy,
            order_type: OrderType::Limit,
            price: dec(100.5),
            quantity: dec(1.0),
            time_in_force: TimeInForce::GTC,
        }
    );
    assert_eq!(engine.child_to_algo_id.get(&1_000_001), Some(&(30001, "ICEBERG".to_string())));
    assert_eq!(engine.tca.order_send_times.get(&1_000_001), Some(&5));
}

#[test]
fn placement_is_split_over_venues_and_cancelled_per_child() {
    let queue = Arc::new(ArrayQueue::new(16));
    let mut engine = ExecutionEngine::new(queue.clone());
    engine.book_binance.update_ask(dec(100.0), dec(1.0));
    engine.book_coinbase.update_ask(dec(100.1), dec(1.0));
    engine.handle_algo_action(place(7, dec(1.5)), "TWAP", 0);
    let sent = drain(&queue);
    assert_eq!(sent.len(), 2);
    assert_eq!((sent[0].client_order_id, sent[0].exchange, sent[0].price, sent[0].quantity), (1_000_001, Exchange::Binance, dec(100.0), dec(1.0)));
    assert_eq!((sent[1].client_order_id, sent[1].exchange, sent[1].price, sent[1].quantity), (1_000_002, Exchange::Coinbase, dec(100.1), dec(0.5)));
    // Cancelling the algorithm's order cancels each child once.
    engine.handle_algo_action(AlgoAction::CancelOrder { client_order_id: 7, exchange: Exchange::Binance }, "TWAP", 1);
    let mut cancelled: Vec<u64> = drain(&queue).iter().map(|r| {
        assert!(r.price.is_zero() && r.quantity.is_zero());
        r.client_order_id
    }).collect();
    cancelled.sort();
    assert_eq!(cancelled, vec![1_000_001, 1_000_002]);
    // Another algorithm's name cancels nothing.
    engine.handle_algo_action(AlgoAction::CancelOrder { client_order_id: 7, exchange: Exchange::Binance }, "POV", 1);
    assert!(drain(&queue).is_empty());
}

#[test]
fn fills_of_routed_children_reach_the_algorithm() {
    let queue = Arc::new(ArrayQueue::new(16));
    let mut engine = ExecutionEngine::new(queue.clone());
    engine.tca.register_parent_order("ICEBERG", Symbol::BTCUSDT, Side::Buy, dec(2.0), dec(100.1), 0);
    let mut iceberg = IcebergAlgo::new(Symbol::BTCUSDT, Side::Buy, dec(2.0), dec(100.5), dec(1.0), 30000);
    let first = iceberg.start().unwrap();
    engine.iceberg = Some(iceberg);
    engine.handle_algo_action(first, "ICEBERG", 0);
    let child = drain(&queue)[0].client_order_id;
    let report = ExecutionReport {
        client_order_id: child,
        exchange_order_id: 1,
        symbol: Symbol::BTCUSDT,
        exchange: Exchange::Binance,
        status: OrderStatus::Filled,
        last_qty: dec(1.0),
        last_price: dec(100.5),
        leaves_qty: Decimal(0),
        cumulative_qty: dec(1.0),
        timestamp_ns: 10,
    };
    engine.on_event(MarketEvent::ExecutionReport(report));
    // The iceberg saw its slice filled and sent the next one.
    let iceberg = engine.iceberg.as_ref().unwrap();
    assert_eq!(iceberg.executed_qty, dec(1.0));
    assert_eq!(iceberg.active_order_id, Some(30002));
    let next = drain(&queue);
    assert_eq!(next.len(), 1);
    assert_eq!(next[0].client_order_id, child + 1);
    assert_eq!(engine.child_to_algo_id.get(&(child + 1)), Some(&(30002, "ICEBERG".to_string())));
    // TCA counted the fill under the child's parent.
    assert_eq!(engine.tca.execution_accumulators[0].filled_qty, dec(1.0));
}

#[test]
fn timer_ticks_drive_the_twap() {
    let queue = Arc::new(ArrayQueue::new(16));
    let mut engine = ExecutionEngine::new(queue.clone());
    engine.twap = Some(TwapAlgo::new(Symbol::BTCUSDT, Side::Buy, dec(10.0), 100, 1_000, 100, 10000));
    engine.on_event(MarketEvent::TimerTick { timestamp_ns: 50 });
    assert!(drain(&queue).is_empty());
    engine.on_event(MarketEvent::TimerTick { timestamp_ns: 100 });
    let sent = drain(&queue);
    assert_eq!(sent.len(), 1);
    // No book yet: the slice goes direct at the fallback price.
    assert_eq!((sent[0].price, sent[0].quantity), (dec(100.0), dec(1.0)));
    assert_eq!(engine.child_to_algo_id.get(&sent[0].client_order_id), Some(&(10001, "TWAP".to_string())));
}

#[test]
fn full_queue_drops_requests() {
    let queue = Arc::new(ArrayQueue::new(1));
    let mut engine = ExecutionEngine::new(queue.clone());
    engine.book_binance.update_ask(dec(100.0), dec(1.0));
    engine.book_coinbase.update_ask(dec(100.1), dec(1.0));
    engine.handle_algo_action(place(1, dec(2.0)), "TWAP", 0);
    assert_eq!(drain(&queue).len(), 1);
    // Both children are still remembered.
    assert_eq!(engine.child_to_algo_id.len(), 2);
    assert_eq!(engine.internal_client_order_id_counter, 1_000_002);
}

fn cancel_confirmation(child: u64) -> MarketEvent {
    MarketEvent::ExecutionReport(ExecutionReport {
        client_order_id: child,
        exchange_order_id: 7,
        symbol: Symbol::BTCUSDT,
        exchange: Exchange::Binance,
        status: OrderStatus::Cancelled,
        last_qty: Decimal(0),
        last_price: Decimal(0),
        leaves_qty: Decimal(0),
        cumulative_qty: Decimal(0),
        timestamp_ns: 250,
    })
}

#[test]
fn twap_cancel_confirmation_sends_the_next_slice() {
    let queue = Arc::new(ArrayQueue::new(16));
    let mut engine = ExecutionEngine::new(queue.clone());
    engine.twap = Some(TwapAlgo::new(Symbol::BTCUSDT, Side::Buy, dec(10.0), 0, 1_000, 100, 10000));
    let first = MarketEvent::TimerTick { timestamp_ns: 0 };
    assert!(engine.can_process(&first));
    engine.on_event(first);
    let sent = drain(&queue);
    assert_eq!(sent.len(), 1);
    let child = sent[0].client_order_id;
    // Half an interval later nothing is sent.
    engine.on_event(MarketEvent::TimerTick { timestamp_ns: 50 });
    assert!(drain(&queue).is_empty());
    // The next interval cancels the live child.
    engine.on_event(MarketEvent::TimerTick { timestamp_ns: 100 });
    let cancels = drain(&queue);
    assert_eq!(cancels.len(), 1);
    assert_eq!((cancels[0].client_order_id, cancels[0].quantity), (child, Decimal(0)));
    // The venue's confirmation of that cancel sends the next slice.
    let confirmation = cancel_confirmation(child);
    assert!(engine.can_process(&confirmation));
    engine.on_event(confirmation);
    let next = drain(&queue);
    assert_eq!(next.len(), 1);
    assert_eq!(engine.child_to_algo_id.get(&next[0].client_order_id), Some(&(10002, "TWAP".to_string())));
    assert_eq!(next[0].quantity, dec(1.0));
}

#[test]
fn engine_preconditions_are_tested_before_use() {
    let queue = Arc::new(ArrayQueue::new(16));
    let mut engine = ExecutionEngine::new(queue.clone());
    assert!(engine.can_act(place(1, dec(1.0))));
    assert!(engine.can_act(AlgoAction::CancelOrder { client_order_id: 1, exchange: Exchange::Binance }));
    // No id left for a child order.
    engine.internal_client_order_id_counter = u64::MAX;
    assert!(!engine.can_act(place(1, dec(1.0))));
    assert!(engine.can_act(AlgoAction::CancelOrder { client_order_id: 1, exchange: Exchange::Binance }));
    // A TWAP tick that would send a slice needs an id too.
    engine.twap = Some(TwapAlgo::new(Symbol::BTCUSDT, Side::Buy, dec(10.0), 0, 1_000, 100, 0));
    assert!(!engine.can_process(&MarketEvent::TimerTick { timestamp_ns: 0 }));
    // Before its window the tick does nothing and is fine.
    engine.twap = Some(TwapAlgo::new(Symbol::BTCUSDT, Side::Buy, dec(10.0), 500, 1_000, 100, 0));
    assert!(engine.can_process(&MarketEvent::TimerTick { timestamp_ns: 0 }));
    // A mid price that overflows is refused.
    engine.internal_client_order_id_counter = 0;
    engine.book_binance.update_bid(Decimal(u64::MAX - 1), dec(1.0));
    engine.book_binance.update_ask(Decimal(u64::MAX), dec(1.0));
    assert!(!engine.can_process(&MarketEvent::TimerTick { timestamp_ns: 0 }));
}
