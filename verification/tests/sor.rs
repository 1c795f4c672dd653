use execution_engine::order_book::OrderBook;
use execution_engine::sor::route_order;
use execution_engine::types::{Decimal, Exchange, Side};

fn dec(v: f64) -> Decimal {
    Decimal((v * 100_000_000.0).round() as u64)
}

#[test]
fn test_sor_buying_split() {
    let mut binance = OrderBook::new();
    binance.update_ask(dec(100.0), dec(1.0));
    binance.update_ask(dec(101.0), dec(2.0));

    let mut coinbase = OrderBook::new();
    coinbase.update_ask(dec(100.1), dec(1.0));
    coinbase.update_ask(dec(100.5), dec(2.0));

    let (routes, route_count) = route_order(&binance, &coinbase, Side::Buy, dec(2.5));

    assert_eq!(route_count, 3);

    // First route should be Binance at 100.0 (effective price is cheapest = 100.10)
    assert_eq!(routes[0].exchange, Exchange::Binance);
    assert_eq!(routes[0].price, dec(100.0));
    assert_eq!(routes[0].quantity, dec(1.0));

    // Second route should be Coinbase at 100.1 (effective price = 100.5004)
    assert_eq!(routes[1].exchange, Exchange::Coinbase);
    assert_eq!(routes[1].price, dec(100.1));
    assert_eq!(routes[1].quantity, dec(1.0));

    // Third route should be Coinbase at 100.5 (effective price = 100.902)
    assert_eq!(routes[2].exchange, Exchange::Coinbase);
    assert_eq!(routes[2].price, dec(100.5));
    assert_eq!(routes[2].quantity, dec(0.5));
}

#[test]
fn selling_takes_the_best_bid_after_fees() {
    let mut binance = OrderBook::new();
    binance.update_bid(Decimal(10_000), Decimal(5));
    let mut coinbase = OrderBook::new();
    // Higher quote, but the 0.4% fee makes it worth less: 10_020 - 40 = 9_980 < 10_000 - 10.
    coinbase.update_bid(Decimal(10_020), Decimal(5));
    let (routes, count) = route_order(&binance, &coinbase, Side::Sell, Decimal(7));
    assert_eq!(count, 2);
    assert_eq!((routes[0].exchange, routes[0].price, routes[0].quantity), (Exchange::Binance, Decimal(10_000), Decimal(5)));
    assert_eq!((routes[1].exchange, routes[1].price, routes[1].quantity), (Exchange::Coinbase, Decimal(10_020), Decimal(2)));
}

#[test]
fn routing_stops_at_the_available_liquidity() {
    let mut binance = OrderBook::new();
    binance.update_ask(Decimal(100), Decimal(3));
    let coinbase = OrderBook::new();
    let (routes, count) = route_order(&binance, &coinbase, Side::Buy, Decimal(10));
    assert_eq!(count, 1);
    assert_eq!(routes[0].quantity, Decimal(3));
    assert_eq!(routes[1].quantity, Decimal(0));
}

#[test]
fn nothing_to_route_gives_no_legs() {
    let mut binance = OrderBook::new();
    binance.update_ask(Decimal(100), Decimal(3));
    let coinbase = OrderBook::new();
    let (_, count) = route_order(&binance, &coinbase, Side::Buy, Decimal(0));
    assert_eq!(count, 0);
    let (_, count) = route_order(&binance, &coinbase, Side::Sell, Decimal(5));
    assert_eq!(count, 0);
}

#[test]
fn equal_fee_adjusted_prices_keep_book_order() {
    // Binance 10_030 + 10 = 10_040 and Coinbase 10_000 + 40 = 10_040 tie; Binance came first.
    let mut binance = OrderBook::new();
    binance.update_ask(Decimal(10_030), Decimal(1));
    let mut coinbase = OrderBook::new();
    coinbase.update_ask(Decimal(10_000), Decimal(1));
    let (routes, count) = route_order(&binance, &coinbase, Side::Buy, Decimal(2));
    assert_eq!(count, 2);
    assert_eq!(routes[0].exchange, Exchange::Binance);
    assert_eq!(routes[1].exchange, Exchange::Coinbase);
}

#[test]
fn legs_come_best_fee_adjusted_price_first() {
    let mut binance = OrderBook::new();
    let mut coinbase = OrderBook::new();
    for p in [10_000u64, 10_050, 10_100] {
        binance.update_ask(Decimal(p), Decimal(2));
        coinbase.update_ask(Decimal(p - 20), Decimal(2));
    }
    let (routes, count) = route_order(&binance, &coinbase, Side::Buy, Decimal(12));
    assert_eq!(count, 6);
    let fee = |e: Exchange| if e == Exchange::Binance { 10 } else { 40 };
    let eff: Vec<u64> = routes[..count].iter().map(|r| r.price.0 + r.price.0 * fee(r.exchange) / 10_000).collect();
    assert!(eff.windows(2).all(|w| w[0] <= w[1]));
    let total: u64 = routes[..count].iter().map(|r| r.quantity.0).sum();
    assert_eq!(total, 12);
}
