use execution_engine::tca::TcaTracker;
use execution_engine::types::{Decimal, Exchange, ExecutionReport, OrderRequest, OrderStatus, OrderType, Side, Symbol, TimeInForce};

fn dec(v: f64) -> Decimal {
    Decimal((v * 100_000_000.0).round() as u64)
}

fn request(id: u64) -> OrderRequest {
    OrderRequest {
        client_order_id: id,
        symbol: Symbol::BTCUSDT,
        exchange: Exchange::Binance,
        side: Side::Buy,
        order_type: OrderType::Limit,
        price: dec(100.0),
        quantity: dec(2.0),
        time_in_force: TimeInForce::GTC,
    }
}

fn fill(id: u64, exchange: Exchange, qty: Decimal, price: Decimal, ts: u64) -> ExecutionReport {
    ExecutionReport {
        client_order_id: id,
        exchange_order_id: 9,
        symbol: Symbol::BTCUSDT,
        exchange,
        status: OrderStatus::Filled,
        last_qty: qty,
        last_price: price,
        leaves_qty: Decimal(0),
        cumulative_qty: qty,
        timestamp_ns: ts,
    }
}

#[test]
fn fills_accumulate_cost_fees_and_latency() {
    let mut tca = TcaTracker::new();
    tca.register_parent_order("TWAP", Symbol::BTCUSDT, Side::Buy, dec(10.0), dec(100.1), 0);
    tca.record_order_request(&request(1), "TWAP", 1_000);
    tca.record_order_request(&request(2), "TWAP", 5_000);
    tca.record_execution_report(&fill(1, Exchange::Binance, dec(2.0), dec(100.0), 3_000));
    // Coinbase charges 0.4%; the report predates the send time, so no latency.
    tca.record_execution_report(&fill(2, Exchange::Coinbase, dec(2.0), dec(102.0), 4_000));
    let acc = &tca.execution_accumulators[0];
    assert_eq!(acc.filled_qty, dec(4.0));
    // 0.1% of 200 plus 0.4% of 204.
    assert_eq!(acc.total_fees, dec(0.2).0 + dec(0.816).0);
    assert_eq!(acc.latencies, vec![2_000]);
    let summaries = tca.generate_summaries();
    assert_eq!(summaries.len(), 1);
    assert_eq!(summaries[0].algo_name, "TWAP");
    assert_eq!(summaries[0].executed_qty, dec(4.0));
    assert_eq!(summaries[0].avg_execution_price, dec(101.0));
    assert_eq!(summaries[0].total_fees, dec(1.016));
    assert_eq!(summaries[0].benchmark_price, dec(100.1));
}

#[test]
fn untracked_and_empty_reports_change_nothing() {
    let mut tca = TcaTracker::new();
    tca.register_parent_order("POV", Symbol::BTCUSDT, Side::Sell, dec(5.0), dec(100.0), 0);
    tca.record_execution_report(&fill(77, Exchange::Binance, dec(1.0), dec(100.0), 10));
    tca.record_order_request(&request(3), "POV", 0);
    tca.record_execution_report(&fill(3, Exchange::Binance, Decimal(0), dec(100.0), 10));
    assert_eq!(tca.execution_accumulators[0].filled_qty, Decimal(0));
    // A parent without fills is left out of the summaries.
    assert!(tca.generate_summaries().is_empty());
}

#[test]
fn registering_again_resets_the_totals() {
    let mut tca = TcaTracker::new();
    tca.register_parent_order("ICEBERG", Symbol::BTCUSDT, Side::Buy, dec(8.0), dec(100.1), 0);
    tca.record_order_request(&request(5), "ICEBERG", 0);
    tca.record_execution_report(&fill(5, Exchange::Binance, dec(1.0), dec(100.0), 10));
    tca.register_parent_order("ICEBERG", Symbol::BTCUSDT, Side::Sell, dec(3.0), dec(99.0), 7);
    assert_eq!(tca.parent_orders.len(), 1);
    assert_eq!(tca.execution_accumulators.len(), 1);
    assert_eq!(tca.parent_orders[0].side, Side::Sell);
    assert_eq!(tca.execution_accumulators[0].filled_qty, Decimal(0));
    assert_eq!(tca.order_to_parent.get(&5).map(|s| s.as_str()), Some("ICEBERG"));
}
