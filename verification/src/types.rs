use vstd::prelude::*;
use vstd::std_specs::ops::AddSpecImpl;
use vstd::std_specs::ops::SubSpecImpl;
use vstd::std_specs::ops::MulSpecImpl;
use vstd::std_specs::ops::DivSpecImpl;
use std::ops::{Add, AddAssign, Div, Mul, Sub, SubAssign};

verus! {

/// Number of fixed-point units in one whole unit (10^8).
pub const SCALE: u64 = 100_000_000;

/// A non-negative fixed-point number with eight decimal places, stored as raw units.
#[derive(Debug, Clone, Copy, PartialEq, Eq, Structural, PartialOrd, Ord, Default)]
pub struct Decimal(pub u64);

impl Decimal {
    pub fn is_zero(self) -> (r: bool)
        ensures
            r == (self.0 == 0),
    {
        self.0 == 0
    }

    /// The smaller of two values, compared by their raw units.
    pub fn min(self, other: Decimal) -> (r: Decimal)
        ensures
            r.0 == if self.0 <= other.0 { self.0 } else { other.0 },
    {
        if self.0 <= other.0 { self } else { other }
    }
}

/// Sum of two decimals (within `u64`).
pub open spec fn decimal_add(a: Decimal, b: Decimal) -> Decimal {
    Decimal((a.0 + b.0) as u64)
}

/// Difference of two decimals, floored at zero.
pub open spec fn decimal_sub(a: Decimal, b: Decimal) -> Decimal {
    Decimal(if a.0 >= b.0 { (a.0 - b.0) as u64 } else { 0 })
}

/// A decimal scaled by a whole number (within `u64`).
pub open spec fn decimal_scale(a: Decimal, k: u64) -> Decimal {
    Decimal((a.0 * k) as u64)
}

/// A decimal divided by a whole number, truncated.
pub open spec fn decimal_shrink(a: Decimal, k: u64) -> Decimal {
    Decimal(a.0 / k)
}

/// Exact sum; the caller keeps it within `u64`.
impl Add for Decimal {
    type Output = Self;

    fn add(self, other: Self) -> (r: Self) {
        Decimal(self.0 + other.0)
    }
}

impl AddSpecImpl for Decimal {
    open spec fn obeys_add_spec() -> bool {
        true
    }

    open spec fn add_req(self, other: Self) -> bool {
        self.0 + other.0 <= u64::MAX
    }

    open spec fn add_spec(self, other: Self) -> Self {
        decimal_add(self, other)
    }
}

/// Saturating difference: never below zero.
impl Sub for Decimal {
    type Output = Self;

    fn sub(self, other: Self) -> (r: Self) {
        Decimal(self.0.saturating_sub(other.0))
    }
}

impl SubSpecImpl for Decimal {
    open spec fn obeys_sub_spec() -> bool {
        true
    }

    open spec fn sub_req(self, other: Self) -> bool {
        true
    }

    open spec fn sub_spec(self, other: Self) -> Self {
        decimal_sub(self, other)
    }
}

/// In-place sum; the caller keeps it within `u64`.
impl AddAssign for Decimal {
    fn add_assign(&mut self, other: Self)
        requires
            old(self).0 + other.0 <= u64::MAX,
        ensures
            *final(self) == decimal_add(*old(self), other),
    {
        self.0 = self.0 + other.0;
    }
}

/// In-place saturating difference.
impl SubAssign for Decimal {
    fn sub_assign(&mut self, other: Self)
        ensures
            *final(self) == decimal_sub(*old(self), other),
    {
        self.0 = self.0.saturating_sub(other.0);
    }
}

/// Scaling by a whole number; the caller keeps the product within `u64`.
impl Mul<u64> for Decimal {
    type Output = Self;

    fn mul(self, scalar: u64) -> (r: Self) {
        Decimal(self.0 * scalar)
    }
}

impl MulSpecImpl<u64> for Decimal {
    open spec fn obeys_mul_spec() -> bool {
        true
    }

    open spec fn mul_req(self, scalar: u64) -> bool {
        self.0 * scalar <= u64::MAX
    }

    open spec fn mul_spec(self, scalar: u64) -> Self {
        decimal_scale(self, scalar)
    }
}

/// Truncating division by a non-zero whole number.
impl Div<u64> for Decimal {
    type Output = Self;

    fn div(self, scalar: u64) -> (r: Self) {
        Decimal(self.0 / scalar)
    }
}

impl DivSpecImpl<u64> for Decimal {
    open spec fn obeys_div_spec() -> bool {
        true
    }

    open spec fn div_req(self, scalar: u64) -> bool {
        scalar != 0
    }

    open spec fn div_spec(self, scalar: u64) -> Self {
        decimal_shrink(self, scalar)
    }
}

/// Fixed-point product of two decimals, truncated toward zero and then to 64 bits.
pub open spec fn decimal_mul(a: Decimal, b: Decimal) -> Decimal {
    Decimal(((a.0 * b.0) / (SCALE as int)) as u64)
}

/// Fixed-point quotient of two decimals; zero when the divisor is zero.
pub open spec fn decimal_div(a: Decimal, b: Decimal) -> Decimal {
    if b.0 == 0 {
        Decimal(0)
    } else {
        Decimal(((a.0 * SCALE) / (b.0 as int)) as u64)
    }
}

impl Mul for Decimal {
    type Output = Self;

    fn mul(self, other: Self) -> (r: Self) {
        let a: u128 = self.0 as u128;
        let b: u128 = other.0 as u128;
        assert(a * b <= u128::MAX) by (nonlinear_arith)
            requires
                a <= u64::MAX,
                b <= u64::MAX,
        ;
        let prod: u128 = a * b;
        Decimal(#[verifier::truncate] ((prod / (SCALE as u128)) as u64))
    }
}

impl MulSpecImpl for Decimal {
    open spec fn obeys_mul_spec() -> bool {
        true
    }

    open spec fn mul_req(self, other: Self) -> bool {
        true
    }

    open spec fn mul_spec(self, other: Self) -> Self {
        decimal_mul(self, other)
    }
}

impl Div for Decimal {
    type Output = Self;

    fn div(self, other: Self) -> (r: Self) {
        if other.0 == 0 {
            Decimal(0)
        } else {
            let a: u128 = self.0 as u128;
            assert(a * (SCALE as u128) <= u128::MAX) by (nonlinear_arith)
                requires
                    a <= u64::MAX,
            ;
            let num: u128 = a * (SCALE as u128);
            Decimal(#[verifier::truncate] ((num / (other.0 as u128)) as u64))
        }
    }
}

impl DivSpecImpl for Decimal {
    open spec fn obeys_div_spec() -> bool {
        true
    }

    open spec fn div_req(self, other: Self) -> bool {
        true
    }

    open spec fn div_spec(self, other: Self) -> Self {
        decimal_div(self, other)
    }
}

#[derive(Debug, Clone, Copy, PartialEq, Eq, Structural, Default)]
pub enum Side {
    #[default]
    Buy,
    Sell,
}

/// The other side of the market.
pub open spec fn opposite_side(side: Side) -> Side {
    match side {
        Side::Buy => Side::Sell,
        Side::Sell => Side::Buy,
    }
}

/// Taking the opposite side twice gives the side back, and never the side itself once.
pub proof fn lemma_opposite_involution(side: Side)
    ensures
        opposite_side(opposite_side(side)) == side,
        opposite_side(side) != side,
{
}

/// Adding a value and then subtracting it gives the value back.
pub proof fn lemma_sub_undoes_add(a: Decimal, b: Decimal)
    requires
        a.0 + b.0 <= u64::MAX,
    ensures
        decimal_sub(decimal_add(a, b), b) == a,
{
}

/// Scaling by a non-zero whole number and dividing by it gives the value back.
pub proof fn lemma_div_undoes_mul(a: Decimal, k: u64)
    requires
        k != 0,
        a.0 * k <= u64::MAX,
    ensures
        decimal_shrink(decimal_scale(a, k), k) == a,
{
    assert((a.0 * k) / (k as int) == a.0) by (nonlinear_arith)
        requires
            k != 0,
    ;
}

impl Side {
    pub fn opposite(self) -> (r: Side)
        ensures
            r == opposite_side(self),
    {
        match self {
            Side::Buy => Side::Sell,
            Side::Sell => Side::Buy,
        }
    }
}

#[derive(Debug, Clone, Copy, PartialEq, Eq, Structural)]
pub enum OrderType {
    Limit,
    Market,
}

#[derive(Debug, Clone, Copy, PartialEq, Eq, Structural)]
pub enum TimeInForce {
    GTC,
    IOC,
    FOK,
}

#[derive(Debug, Clone, Copy, PartialEq, Eq, Structural)]
pub enum OrderStatus {
    PendingNew,
    New,
    PartiallyFilled,
    Filled,
    Cancelled,
    Rejected,
}

#[derive(Debug, Clone, Copy, PartialEq, Eq, Structural, Hash)]
pub enum Exchange {
    Binance,
    Coinbase,
}

impl Exchange {
    /// The venue's display name.
    pub fn to_string(&self) -> (s: String)
        ensures
            s@ == (match *self {
                Exchange::Binance => "Binance"@,
                Exchange::Coinbase => "Coinbase"@,
            }),
    {
        match self {
            Exchange::Binance => "Binance".to_owned(),
            Exchange::Coinbase => "Coinbase".to_owned(),
        }
    }
}

#[derive(Debug, Clone, Copy, PartialEq, Eq, Structural, Hash, Default)]
pub enum Symbol {
    #[default]
    BTCUSDT,
    ETHUSDT,
}

impl Symbol {
    /// The instrument's display name.
    pub fn to_string(&self) -> (s: String)
        ensures
            s@ == (match *self {
                Symbol::BTCUSDT => "BTCUSDT"@,
                Symbol::ETHUSDT => "ETHUSDT"@,
            }),
    {
        match self {
            Symbol::BTCUSDT => "BTCUSDT".to_owned(),
            Symbol::ETHUSDT => "ETHUSDT".to_owned(),
        }
    }
}

#[derive(Debug, Clone, Copy, PartialEq, Eq, Structural)]
pub struct OrderRequest {
    pub client_order_id: u64,
    pub symbol: Symbol,
    pub exchange: Exchange,
    pub side: Side,
    pub order_type: OrderType,
    pub price: Decimal,
    pub quantity: Decimal,
    pub time_in_force: TimeInForce,
}

#[derive(Debug, Clone, Copy, PartialEq, Eq, Structural)]
pub struct ExecutionReport {
    pub client_order_id: u64,
    pub exchange_order_id: u64,
    pub symbol: Symbol,
    pub exchange: Exchange,
    pub status: OrderStatus,
    pub last_qty: Decimal,
    pub last_price: Decimal,
    pub leaves_qty: Decimal,
    pub cumulative_qty: Decimal,
    pub timestamp_ns: u64,
}

#[derive(Debug, Clone, Copy, PartialEq, Eq, Structural)]
pub struct MarketTrade {
    pub symbol: Symbol,
    pub exchange: Exchange,
    pub price: Decimal,
    pub quantity: Decimal,
    pub side: Side,
    pub timestamp_ns: u64,
}

#[derive(Debug, Clone, Copy, PartialEq, Eq, Structural)]
pub struct BookUpdateLevel {
    pub price: Decimal,
    pub quantity: Decimal,
}

#[derive(Debug, Clone, Copy)]
pub struct BookUpdate {
    pub symbol: Symbol,
    pub exchange: Exchange,
    pub bids: [BookUpdateLevel; 20],
    pub asks: [BookUpdateLevel; 20],
    pub bid_count: usize,
    pub ask_count: usize,
    pub timestamp_ns: u64,
}

#[derive(Debug, Clone, Copy)]
pub enum MarketEvent {
    BookUpdate(BookUpdate),
    Trade(MarketTrade),
    ExecutionReport(ExecutionReport),
    TimerTick { timestamp_ns: u64 },
}

/// One (10^8 raw units) is the unit of the fixed-point product and quotient, and a
/// zero divisor gives zero.
pub proof fn lemma_decimal_one_is_unit(a: Decimal)
    ensures
        decimal_mul(a, Decimal(100_000_000)) == a,
        decimal_mul(Decimal(100_000_000), a) == a,
        decimal_div(a, Decimal(100_000_000)) == a,
        decimal_div(a, Decimal(0)) == Decimal(0),
{
    assert((a.0 * 100_000_000int) / 100_000_000int == a.0) by (nonlinear_arith);
    assert((100_000_000int * a.0) / 100_000_000int == a.0) by (nonlinear_arith);
}

} // verus!
