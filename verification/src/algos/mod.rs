pub mod iceberg;
pub mod pov;
pub mod twap;

use vstd::prelude::*;
use crate::types::{Decimal, Exchange, Side};

verus! {

/// What an execution algorithm asks the engine to do.
#[derive(Debug, Clone, Copy, PartialEq, Eq, Structural)]
pub enum AlgoAction {
    PlaceOrder { client_order_id: u64, exchange: Exchange, side: Side, price: Decimal, quantity: Decimal },
    CancelOrder { client_order_id: u64, exchange: Exchange },
}

#[derive(Debug, Clone, Copy, PartialEq, Eq, Structural)]
pub enum AlgoType {
    Twap,
    Pov,
    Iceberg,
}

/// The price an algorithm quotes when the market gives none: 100 whole units.
pub const FALLBACK_PRICE_RAW: u64 = 10_000_000_000;

} // verus!
