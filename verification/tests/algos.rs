use execution_engine::algos::iceberg::IcebergAlgo;
use execution_engine::algos::pov::PovAlgo;
use execution_engine::algos::twap::TwapAlgo;
use execution_engine::algos::AlgoAction;
use execution_engine::types::{Decimal, Exchange, ExecutionReport, OrderStatus, Side, Symbol};

fn dec(v: f64) -> Decimal {
    Decimal((v * 100_000_000.0).round() as u64)
}

fn report(id: u64, status: OrderStatus, qty: Decimal) -> ExecutionReport {
    ExecutionReport {
        client_order_id: id,
        exchange_order_id: 1,
        symbol: Symbol::BTCUSDT,
        exchange: Exchange::Binance,
        status,
        last_qty: qty,
        last_price: dec(100.0),
        leaves_qty: Decimal(0),
        cumulative_qty: qty,
        timestamp_ns: 0,
    }
}

fn place(id: u64, side: Side, price: Decimal, quantity: Decimal) -> Option<AlgoAction> {
    Some(AlgoAction::PlaceOrder { client_order_id: id, exchange: Exchange::Binance, side, price, quantity })
}

#[test]
fn iceberg_shows_one_slice_at_a_time() {
    let mut ice = IcebergAlgo::new(Symbol::BTCUSDT, Side::Buy, dec(2.5), dec(100.5), dec(1.0), 30000);
    assert_eq!(ice.start(), place(30001, Side::Buy, dec(100.5), dec(1.0)));
    // A live slice blocks a second start.
    assert_eq!(ice.start(), None);
    // A partial fill sends nothing new.
    assert_eq!(ice.on_execution_report(&report(30001, OrderStatus::PartiallyFilled, dec(0.4))), None);
    assert_eq!(ice.executed_qty, dec(0.4));
    // The full fill sends the next slice.
    assert_eq!(ice.on_execution_report(&report(30001, OrderStatus::Filled, dec(0.6))), place(30002, Side::Buy, dec(100.5), dec(1.0)));
    // The last slice is only what remains.
    assert_eq!(ice.on_execution_report(&report(30002, OrderStatus::Filled, dec(1.0))), place(30003, Side::Buy, dec(100.5), dec(0.5)));
    assert_eq!(ice.on_execution_report(&report(30003, OrderStatus::Filled, dec(0.5))), None);
    assert!(ice.is_finished);
    assert_eq!(ice.executed_qty, dec(2.5));
}

#[test]
fn iceberg_ignores_other_orders_and_stops_on_cancel() {
    let mut ice = IcebergAlgo::new(Symbol::BTCUSDT, Side::Sell, dec(5.0), dec(99.0), dec(2.0), 7);
    ice.start();
    assert_eq!(ice.on_execution_report(&report(99, OrderStatus::Filled, dec(2.0))), None);
    assert_eq!(ice.executed_qty, Decimal(0));
    assert_eq!(ice.on_execution_report(&report(8, OrderStatus::Cancelled, Decimal(0))), None);
    assert!(ice.is_finished);
    assert_eq!(ice.active_order_id, None);
    // Finished is final.
    assert_eq!(ice.start(), None);
    assert_eq!(ice.on_execution_report(&report(8, OrderStatus::Filled, dec(1.0))), None);
    assert_eq!(ice.executed_qty, Decimal(0));
}

#[test]
fn iceberg_with_nothing_to_do_finishes_at_start() {
    let mut ice = IcebergAlgo::new(Symbol::BTCUSDT, Side::Buy, Decimal(0), dec(100.0), dec(1.0), 0);
    assert_eq!(ice.start(), None);
    assert!(ice.is_finished);
}

#[test]
fn pov_targets_its_share_of_the_volume() {
    let mut pov = PovAlgo::new(Symbol::BTCUSDT, Side::Sell, dec(5.0), dec(0.20), 20000);
    // 1.0 traded at 20% participation: 1.0 * 0.2 / 0.8 = 0.25.
    assert_eq!(pov.on_market_trade(dec(1.0), Some(dec(101.0))), place(20001, Side::Sell, dec(101.0), dec(0.25)));
    assert_eq!(pov.accumulated_target_qty, dec(0.25));
    // With an order live the target grows but no new order goes out.
    assert_eq!(pov.on_market_trade(dec(2.0), None), None);
    assert_eq!(pov.accumulated_target_qty, dec(0.75));
    assert_eq!(pov.on_execution_report(&report(20001, OrderStatus::Filled, dec(0.25))), None);
    assert_eq!(pov.executed_qty, dec(0.25));
    // Catching up uses the fallback price of 100.0 when the market has none.
    assert_eq!(pov.on_market_trade(Decimal(0), None), place(20002, Side::Sell, dec(100.0), dec(0.5)));
}

#[test]
fn pov_target_is_capped_by_the_order_size() {
    let mut pov = PovAlgo::new(Symbol::BTCUSDT, Side::Buy, dec(1.0), dec(0.5), 0);
    assert_eq!(pov.on_market_trade(dec(10.0), Some(dec(100.0))), place(1, Side::Buy, dec(100.0), dec(1.0)));
    assert_eq!(pov.accumulated_target_qty, dec(1.0));
    assert_eq!(pov.on_execution_report(&report(1, OrderStatus::Filled, dec(1.0))), None);
    assert!(pov.is_finished);
    assert_eq!(pov.on_market_trade(dec(10.0), Some(dec(100.0))), None);
}

#[test]
fn pov_with_full_participation_never_trades() {
    let mut pov = PovAlgo::new(Symbol::BTCUSDT, Side::Buy, dec(1.0), dec(1.0), 0);
    assert_eq!(pov.on_market_trade(dec(10.0), Some(dec(100.0))), None);
    assert_eq!(pov.accumulated_target_qty, Decimal(0));
}

#[test]
fn twap_slices_evenly_over_the_window() {
    let mut twap = TwapAlgo::new(Symbol::BTCUSDT, Side::Buy, dec(10.0), 100, 1_000, 100, 10000);
    assert_eq!(twap.total_slices, 10);
    assert_eq!(twap.slice_qty, dec(1.0));
    assert_eq!(twap.end_time_ns, 1_100);
    // Before the window nothing happens.
    assert_eq!(twap.on_tick(50, Some(dec(100.0))), None);
    // The first tick in the window sends a slice.
    assert_eq!(twap.on_tick(100, Some(dec(100.1))), place(10001, Side::Buy, dec(100.1), dec(1.0)));
    // Within the interval nothing more.
    assert_eq!(twap.on_tick(150, None), None);
    // The next interval first cancels the live order.
    assert_eq!(twap.on_tick(200, None), Some(AlgoAction::CancelOrder { client_order_id: 10001, exchange: Exchange::Binance }));
    assert_eq!(twap.current_slice_idx, 1);
    assert_eq!(twap.cancelling_order_id, Some(10001));
    // Its cancel confirmation sends the next slice, at the fallback price of that tick.
    assert_eq!(
        twap.on_execution_report(&report(10001, OrderStatus::Cancelled, Decimal(0))),
        place(10002, Side::Buy, dec(100.0), dec(1.0))
    );
    assert_eq!(twap.cancelling_order_id, None);
    assert_eq!(twap.on_execution_report(&report(10002, OrderStatus::Filled, dec(1.0))), None);
    assert_eq!(twap.executed_qty, dec(1.0));
    assert_eq!(twap.active_order_id, None);
    // With nothing live, the next interval sends its slice at once.
    assert_eq!(twap.on_tick(300, Some(dec(99.5))), place(10003, Side::Buy, dec(99.5), dec(1.0)));
    // At the end of the window the live slice is cancelled, then the algorithm finishes.
    assert_eq!(twap.on_tick(1_100, None), Some(AlgoAction::CancelOrder { client_order_id: 10003, exchange: Exchange::Binance }));
    assert_eq!(twap.on_tick(1_101, None), None);
    assert!(twap.is_finished);
}

#[test]
fn twap_starting_at_time_zero_opens_its_first_interval_once() {
    let mut twap = TwapAlgo::new(Symbol::BTCUSDT, Side::Buy, dec(10.0), 0, 1_000, 100, 0);
    assert_eq!(twap.on_tick(0, Some(dec(100.0))), place(1, Side::Buy, dec(100.0), dec(1.0)));
    assert_eq!(twap.last_interval_start_ns, Some(0));
    // Only half an interval has passed.
    assert_eq!(twap.on_tick(50, Some(dec(100.0))), None);
    assert_eq!(twap.active_order_id, Some(1));
    assert_eq!(twap.client_order_id_counter, 1);
}

#[test]
fn twap_cancels_its_last_slice_when_the_schedule_ends_early() {
    // 250 ns with 100 ns intervals: two slices, the schedule ends before the window.
    let mut twap = TwapAlgo::new(Symbol::BTCUSDT, Side::Buy, dec(2.0), 0, 250, 100, 0);
    assert_eq!(twap.total_slices, 2);
    assert_eq!(twap.on_tick(0, Some(dec(100.0))), place(1, Side::Buy, dec(100.0), dec(1.0)));
    assert_eq!(twap.on_tick(100, Some(dec(101.0))), Some(AlgoAction::CancelOrder { client_order_id: 1, exchange: Exchange::Binance }));
    assert_eq!(
        twap.on_execution_report(&report(1, OrderStatus::Cancelled, Decimal(0))),
        place(2, Side::Buy, dec(101.0), dec(1.0))
    );
    // The last boundary cancels the live slice and finishes.
    assert_eq!(twap.on_tick(200, None), Some(AlgoAction::CancelOrder { client_order_id: 2, exchange: Exchange::Binance }));
    assert!(twap.is_finished);
    assert_eq!(twap.active_order_id, None);
    // A fill of the cancelled slice that arrives late still counts.
    assert_eq!(twap.on_execution_report(&report(2, OrderStatus::Filled, dec(0.4))), None);
    assert_eq!(twap.executed_qty, dec(0.4));
    assert_eq!(twap.cancelling_order_id, None);
    assert_eq!(twap.client_order_id_counter, 2);
}

#[test]
fn twap_counts_a_fill_racing_its_cancel_and_then_resumes() {
    let mut twap = TwapAlgo::new(Symbol::BTCUSDT, Side::Sell, dec(3.0), 0, 300, 100, 7);
    assert_eq!(twap.on_tick(1, Some(dec(100.0))), place(8, Side::Sell, dec(100.0), dec(1.0)));
    assert_eq!(twap.on_tick(101, Some(dec(99.0))), Some(AlgoAction::CancelOrder { client_order_id: 8, exchange: Exchange::Binance }));
    // A partial fill before the cancel took effect is counted; the slice is not done yet.
    assert_eq!(twap.on_execution_report(&report(8, OrderStatus::PartiallyFilled, dec(0.25))), None);
    assert_eq!(twap.executed_qty, dec(0.25));
    // The fill that completes it ends the cancellation and sends the next slice.
    assert_eq!(
        twap.on_execution_report(&report(8, OrderStatus::Filled, dec(0.75))),
        place(9, Side::Sell, dec(99.0), dec(1.0))
    );
    assert_eq!(twap.executed_qty, dec(1.0));
    // A second confirmation for the same order changes nothing.
    assert_eq!(twap.on_execution_report(&report(8, OrderStatus::Cancelled, Decimal(0))), None);
    assert_eq!(twap.active_order_id, Some(9));
}

#[test]
fn twap_cancels_the_live_order_at_the_end() {
    let mut twap = TwapAlgo::new(Symbol::BTCUSDT, Side::Sell, dec(3.0), 0, 90, 100, 5);
    // Shorter than one interval: a single slice.
    assert_eq!(twap.total_slices, 1);
    assert_eq!(twap.on_tick(10, Some(dec(99.0))), place(6, Side::Sell, dec(99.0), dec(3.0)));
    assert_eq!(twap.on_tick(90, None), Some(AlgoAction::CancelOrder { client_order_id: 6, exchange: Exchange::Binance }));
    assert!(!twap.is_finished);
    assert_eq!(twap.on_tick(91, None), None);
    assert!(twap.is_finished);
    // The cancelled slice's partial fill still counts after the end.
    assert_eq!(twap.on_execution_report(&report(6, OrderStatus::Cancelled, dec(0.5))), None);
    assert_eq!(twap.executed_qty, dec(0.5));
    // A finished TWAP stays silent.
    assert_eq!(twap.on_tick(92, Some(dec(99.0))), None);
    assert_eq!(twap.client_order_id_counter, 6);
}

#[test]
fn twap_slices_never_add_up_to_more_than_the_order() {
    let twap = TwapAlgo::new(Symbol::BTCUSDT, Side::Buy, Decimal(10), 0, 300, 100, 0);
    assert_eq!(twap.total_slices, 3);
    assert_eq!(twap.slice_qty, Decimal(3));
    assert!(twap.slice_qty.0 * twap.total_slices <= twap.total_qty.0);
}

#[test]
fn twap_finishes_after_the_last_slice() {
    let mut twap = TwapAlgo::new(Symbol::BTCUSDT, Side::Buy, dec(2.0), 10, 1_200, 500, 0);
    assert_eq!(twap.total_slices, 2);
    twap.on_tick(10, Some(dec(100.0)));
    twap.on_execution_report(&report(1, OrderStatus::Filled, dec(1.0)));
    assert_eq!(twap.on_tick(510, Some(dec(100.0))), place(2, Side::Buy, dec(100.0), dec(1.0)));
    twap.on_execution_report(&report(2, OrderStatus::Filled, dec(1.0)));
    assert_eq!(twap.on_tick(1_009, None), None);
    assert!(!twap.is_finished);
    assert_eq!(twap.on_tick(1_010, None), None);
    assert!(twap.is_finished);
    assert_eq!(twap.current_slice_idx, 2);
    assert_eq!(twap.executed_qty, dec(2.0));
}

#[test]
fn algorithm_preconditions_are_tested_before_use() {
    let mut twap = TwapAlgo::new(Symbol::BTCUSDT, Side::Buy, dec(2.0), 10, 1_000, 100, u64::MAX);
    // The first slice would need an id past the counter's end.
    assert!(!twap.tick_fits(10));
    assert!(twap.tick_fits(5));
    twap.client_order_id_counter = 0;
    assert!(twap.tick_fits(10));
    twap.on_tick(10, None);
    // A clock running back before the current interval is refused.
    twap.last_interval_start_ns = Some(500);
    assert!(!twap.tick_fits(400));
    assert!(twap.report_fits(&report(1, OrderStatus::Filled, dec(1.0))));
    twap.executed_qty = dec(1.0);
    assert!(!twap.report_fits(&report(1, OrderStatus::Filled, Decimal(u64::MAX))));

    let mut pov = PovAlgo::new(Symbol::BTCUSDT, Side::Buy, dec(5.0), dec(0.2), u64::MAX);
    // A trade that would send an order needs an id.
    assert!(!pov.trade_fits(dec(1.0), None));
    pov.client_order_id_counter = 0;
    assert!(pov.trade_fits(dec(1.0), None));
    assert!(pov.report_fits(&report(3, OrderStatus::Filled, Decimal(u64::MAX))));

    let mut ice = IcebergAlgo::new(Symbol::BTCUSDT, Side::Buy, dec(3.0), dec(100.0), dec(1.0), u64::MAX);
    assert!(!ice.can_start());
    ice.client_order_id_counter = 0;
    assert!(ice.can_start());
    ice.start();
    assert!(ice.report_fits(&report(1, OrderStatus::Filled, dec(1.0))));
    ice.executed_qty = dec(0.5);
    assert!(!ice.report_fits(&report(1, OrderStatus::Filled, Decimal(u64::MAX))));
    // A fill that leaves something to do needs an id for the next slice.
    ice.client_order_id_counter = u64::MAX;
    assert!(!ice.report_fits(&report(1, OrderStatus::Filled, dec(1.0))));
    assert!(ice.report_fits(&report(1, OrderStatus::Filled, dec(2.5))));
}
