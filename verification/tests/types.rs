use execution_engine::types::{Decimal, Exchange, Side, Symbol};

#[test]
fn decimal_arithmetic() {
    assert_eq!(Decimal(150) + Decimal(50), Decimal(200));
    // Subtraction saturates at zero.
    assert_eq!(Decimal(150) - Decimal(50), Decimal(100));
    assert_eq!(Decimal(50) - Decimal(150), Decimal(0));
    assert_eq!(Decimal(7) * 3u64, Decimal(21));
    assert_eq!(Decimal(7) / 2u64, Decimal(3));
    // Fixed-point product and quotient: 1.5 * 2.0 = 3.0, 3.0 / 2.0 = 1.5.
    assert_eq!(Decimal(150_000_000) * Decimal(200_000_000), Decimal(300_000_000));
    assert_eq!(Decimal(300_000_000) / Decimal(200_000_000), Decimal(150_000_000));
    // Truncated toward zero: 1e-8 * 0.5 = 0.
    assert_eq!(Decimal(1) * Decimal(50_000_000), Decimal(0));
    // Division by zero gives zero.
    assert_eq!(Decimal(5) / Decimal(0), Decimal(0));
    assert!(Decimal(0).is_zero());
    assert!(!Decimal(1).is_zero());
    assert_eq!(Decimal(3).min(Decimal(2)), Decimal(2));
    // Subtraction undoes addition, division undoes scaling.
    assert_eq!((Decimal(123) + Decimal(77)) - Decimal(77), Decimal(123));
    assert_eq!((Decimal(123) * 9u64) / 9u64, Decimal(123));
}

#[test]
fn decimal_in_place_arithmetic() {
    let mut d = Decimal(100);
    d += Decimal(25);
    assert_eq!(d, Decimal(125));
    d -= Decimal(5);
    assert_eq!(d, Decimal(120));
    // In-place subtraction saturates at zero too.
    d -= Decimal(1_000);
    assert_eq!(d, Decimal(0));
}

#[test]
fn sides_and_names() {
    assert_eq!(Side::Buy.opposite(), Side::Sell);
    assert_eq!(Side::Sell.opposite(), Side::Buy);
    assert_eq!(Side::Buy.opposite().opposite(), Side::Buy);
    assert_eq!(Exchange::Binance.to_string(), "Binance");
    assert_eq!(Exchange::Coinbase.to_string(), "Coinbase");
    assert_eq!(Symbol::BTCUSDT.to_string(), "BTCUSDT");
    assert_eq!(Symbol::ETHUSDT.to_string(), "ETHUSDT");
}
