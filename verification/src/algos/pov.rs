use vstd::prelude::*;
use crate::algos::{AlgoAction, FALLBACK_PRICE_RAW};
use crate::types::{decimal_div, decimal_mul, Decimal, Exchange, ExecutionReport, OrderStatus, Side, Symbol, SCALE};

verus! {

/// Percentage-of-volume: trades a fixed share of the market's traded volume.
#[derive(Debug, Clone)]
pub struct PovAlgo {
    pub symbol: Symbol,
    pub side: Side,
    pub total_qty: Decimal,
    pub executed_qty: Decimal,
    /// Share of the volume to take, e.g. 0.10 for 10%.
    pub participation_rate: Decimal,
    // Internal tracking
    pub accumulated_target_qty: Decimal,
    pub active_order_id: Option<u64>,
    pub active_order_qty: Decimal,
    pub active_order_filled: Decimal,
    pub client_order_id_counter: u64,
    pub is_finished: bool,
}

/// `1 - p`, never below zero.
pub open spec fn pov_complement(s: PovAlgo) -> u64 {
    if SCALE >= s.participation_rate.0 { (SCALE - s.participation_rate.0) as u64 } else { 0 }
}

/// Our share of a trade of `trade_qty` so that we make up a fraction `p` of the
/// combined volume: `trade_qty * p / (1 - p)`.
pub open spec fn pov_target_delta(s: PovAlgo, trade_qty: Decimal) -> Decimal {
    decimal_div(decimal_mul(trade_qty, s.participation_rate), Decimal(pov_complement(s)))
}

/// The accumulated target after a trade, clipped to the order size.
pub open spec fn pov_new_target(s: PovAlgo, trade_qty: Decimal) -> u64 {
    let t = s.accumulated_target_qty.0 + pov_target_delta(s, trade_qty).0;
    if t > s.total_qty.0 { s.total_qty.0 } else { t as u64 }
}

/// The size of the catch-up order: what the target is ahead of the executed
/// quantity, capped by what remains of the order.
pub open spec fn pov_order_qty(s: PovAlgo) -> u64 {
    let to_fill = s.accumulated_target_qty.0 - s.executed_qty.0;
    let left = if s.total_qty.0 >= s.executed_qty.0 { s.total_qty.0 - s.executed_qty.0 } else { 0 };
    (if to_fill <= left { to_fill } else { left }) as u64
}

/// The order sent to catch up, if one is due.
pub open spec fn pov_catch_up(s: PovAlgo, best_price: Option<Decimal>) -> (PovAlgo, Option<AlgoAction>) {
    if s.active_order_id is None && s.executed_qty.0 < s.accumulated_target_qty.0 && pov_order_qty(s) > 0 {
        let id = (s.client_order_id_counter + 1) as u64;
        let price = match best_price {
            Some(p) => p,
            None => Decimal(FALLBACK_PRICE_RAW),
        };
        (
            PovAlgo {
                client_order_id_counter: id,
                active_order_id: Some(id),
                active_order_qty: Decimal(pov_order_qty(s)),
                active_order_filled: Decimal(0),
                ..s
            },
            Some(
                AlgoAction::PlaceOrder {
                    client_order_id: id,
                    exchange: Exchange::Binance,
                    side: s.side,
                    price,
                    quantity: Decimal(pov_order_qty(s)),
                },
            ),
        )
    } else {
        (s, None)
    }
}

/// Reaction to a market trade: accumulate the participation target and send a
/// catch-up order when there is none live.
pub open spec fn pov_after_trade(s: PovAlgo, trade_qty: Decimal, best_price: Option<Decimal>) -> (PovAlgo, Option<AlgoAction>) {
    if s.is_finished || pov_complement(s) == 0 {
        (s, None)
    } else {
        pov_catch_up(PovAlgo { accumulated_target_qty: Decimal(pov_new_target(s, trade_qty)), ..s }, best_price)
    }
}

/// A trade's arithmetic stays within `u64`: the accumulated target and, when an
/// order is sent, the id counter.
pub open spec fn pov_trade_fits(s: PovAlgo, trade_qty: Decimal, best_price: Option<Decimal>) -> bool {
    &&& !s.is_finished && pov_complement(s) != 0 ==> s.accumulated_target_qty.0 + pov_target_delta(s, trade_qty).0
        <= u64::MAX
    &&& pov_after_trade(s, trade_qty, best_price).1 is Some ==> s.client_order_id_counter < u64::MAX
}

/// A report's fill fits the executed and filled totals it is added to.
pub open spec fn pov_report_fits(s: PovAlgo, report: ExecutionReport) -> bool {
    !s.is_finished && s.active_order_id == Some(report.client_order_id) ==> {
        &&& s.executed_qty.0 + report.last_qty.0 <= u64::MAX
        &&& s.active_order_filled.0 + report.last_qty.0 <= u64::MAX
    }
}

/// Reaction to a report on the live order: record the fill, free the order slot
/// once it is done, and finish when the whole quantity is executed.
pub open spec fn pov_after_report(s: PovAlgo, report: ExecutionReport) -> PovAlgo {
    if !s.is_finished && s.active_order_id == Some(report.client_order_id) {
        let executed = (s.executed_qty.0 + report.last_qty.0) as u64;
        let done = match report.status {
            OrderStatus::Filled | OrderStatus::Cancelled | OrderStatus::Rejected => true,
            _ => false,
        };
        PovAlgo {
            active_order_filled: Decimal((s.active_order_filled.0 + report.last_qty.0) as u64),
            executed_qty: Decimal(executed),
            active_order_id: if done { None } else { s.active_order_id },
            is_finished: executed >= s.total_qty.0,
            ..s
        }
    } else {
        s
    }
}

impl PovAlgo {
    pub fn new(
        symbol: Symbol,
        side: Side,
        total_qty: Decimal,
        participation_rate: Decimal,
        base_client_id: u64,
    ) -> (a: PovAlgo)
        ensures
            a == (PovAlgo {
                symbol,
                side,
                total_qty,
                executed_qty: Decimal(0),
                participation_rate,
                accumulated_target_qty: Decimal(0),
                active_order_id: None,
                active_order_qty: Decimal(0),
                active_order_filled: Decimal(0),
                client_order_id_counter: base_client_id,
                is_finished: false,
            }),
    {
        PovAlgo {
            symbol,
            side,
            total_qty,
            executed_qty: Decimal(0),
            participation_rate,
            accumulated_target_qty: Decimal(0),
            active_order_id: None,
            active_order_qty: Decimal(0),
            active_order_filled: Decimal(0),
            client_order_id_counter: base_client_id,
            is_finished: false,
        }
    }

    /// Handles market trades to calculate trade volume and accumulate participation target.
    pub fn on_market_trade(&mut self, trade_qty: Decimal, best_price: Option<Decimal>) -> (r: Option<AlgoAction>)
        requires
            pov_trade_fits(*old(self), trade_qty, best_price),
        ensures
            (*final(self), r) == pov_after_trade(*old(self), trade_qty, best_price),
            // The target never runs past the order size once a trade is counted.
            !old(self).is_finished && pov_complement(*old(self)) != 0 ==> final(self).accumulated_target_qty.0
                <= final(self).total_qty.0,
            // A catch-up order never asks for more than what remains.
            r matches Some(AlgoAction::PlaceOrder { quantity, .. }) ==> 0 < quantity.0 <= final(self).total_qty.0
                - final(self).executed_qty.0,
            // A finished POV stays silent.
            old(self).is_finished ==> *final(self) == *old(self) && r is None,
    {
        if self.is_finished {
            return None;
        }
        let p = self.participation_rate;
        let one_minus_p = Decimal(SCALE) - p;
        if one_minus_p.is_zero() {
            return None;
        }
        let target_delta = (trade_qty * p) / one_minus_p;
        self.accumulated_target_qty = self.accumulated_target_qty + target_delta;
        if self.accumulated_target_qty.0 > self.total_qty.0 {
            self.accumulated_target_qty = self.total_qty;
        }
        if self.active_order_id.is_none() && self.executed_qty.0 < self.accumulated_target_qty.0 {
            let to_fill = self.accumulated_target_qty - self.executed_qty;
            let order_qty = to_fill.min(self.total_qty - self.executed_qty);
            if order_qty.0 > 0 {
                self.client_order_id_counter = self.client_order_id_counter + 1;
                let order_id = self.client_order_id_counter;
                self.active_order_id = Some(order_id);
                self.active_order_qty = order_qty;
                self.active_order_filled = Decimal(0);
                let price = match best_price {
                    Some(p) => p,
                    None => Decimal(FALLBACK_PRICE_RAW),
                };
                return Some(
                    AlgoAction::PlaceOrder {
                        client_order_id: order_id,
                        exchange: Exchange::Binance,
                        side: self.side,
                        price,
                        quantity: order_qty,
                    },
                );
            }
        }
        None
    }

    /// Processes execution reports to track filled quantities.
    pub fn on_execution_report(&mut self, report: &ExecutionReport) -> (r: Option<AlgoAction>)
        requires
            pov_report_fits(*old(self), *report),
        ensures
            *final(self) == pov_after_report(*old(self), *report),
            r is None,
            old(self).is_finished ==> *final(self) == *old(self),
    {
        if self.is_finished {
            return None;
        }
        if Some(report.client_order_id) == self.active_order_id {
            let fill_qty = report.last_qty;
            self.active_order_filled = self.active_order_filled + fill_qty;
            self.executed_qty = self.executed_qty + fill_qty;
            match report.status {
                OrderStatus::Filled => {
                    self.active_order_id = None;
                },
                OrderStatus::Cancelled | OrderStatus::Rejected => {
                    self.active_order_id = None;
                },
                _ => {},
            }
            if self.executed_qty.0 >= self.total_qty.0 {
                self.is_finished = true;
            }
        }
        None
    }
}

impl PovAlgo {
    /// Whether `on_market_trade` can take a trade of `trade_qty`.
    pub fn trade_fits(&self, trade_qty: Decimal, best_price: Option<Decimal>) -> (b: bool)
        ensures
            b == pov_trade_fits(*self, trade_qty, best_price),
    {
        if self.is_finished {
            return true;
        }
        let p = self.participation_rate;
        let one_minus_p = Decimal(SCALE) - p;
        if one_minus_p.is_zero() {
            return true;
        }
        let target_delta = (trade_qty * p) / one_minus_p;
        if target_delta.0 > u64::MAX - self.accumulated_target_qty.0 {
            return false;
        }
        if self.client_order_id_counter < u64::MAX {
            return true;
        }
        // Whether an order would go out does not depend on the id counter.
        let mut probe = PovAlgo { client_order_id_counter: 0, ..*self };
        let r = probe.on_market_trade(trade_qty, best_price);
        r.is_none()
    }

    /// Whether `on_execution_report` can take `report`.
    pub fn report_fits(&self, report: &ExecutionReport) -> (b: bool)
        ensures
            b == pov_report_fits(*self, *report),
    {
        let q = report.last_qty.0;
        let applies = !self.is_finished && Some(report.client_order_id) == self.active_order_id;
        !applies || (q <= u64::MAX - self.executed_qty.0 && q <= u64::MAX - self.active_order_filled.0)
    }
}

/// A report on the POV's live order adds its fill to the executed and filled
/// quantities; only a final status (filled, cancelled or rejected) frees the order
/// slot, so a partial fill or an acknowledgement keeps the order live and no second
/// order can go out beside it. The POV finishes once the whole quantity is executed.
/// Any other report, or any report to a finished POV, changes nothing.
pub proof fn lemma_pov_report_keeps_one_order_live(s: PovAlgo, report: ExecutionReport)
    requires
        pov_report_fits(s, report),
    ensures
        ({
            let t = pov_after_report(s, report);
            let final_status = report.status == OrderStatus::Filled || report.status == OrderStatus::Cancelled
                || report.status == OrderStatus::Rejected;
            if !s.is_finished && s.active_order_id == Some(report.client_order_id) {
                &&& t.executed_qty.0 == s.executed_qty.0 + report.last_qty.0
                &&& t.active_order_filled.0 == s.active_order_filled.0 + report.last_qty.0
                &&& (t.active_order_id is None) == final_status
                &&& !final_status ==> t.active_order_id == s.active_order_id
                &&& t.is_finished == (s.executed_qty.0 + report.last_qty.0 >= s.total_qty.0)
                &&& t.accumulated_target_qty == s.accumulated_target_qty
                &&& t.client_order_id_counter == s.client_order_id_counter
            } else {
                t == s
            }
        }),
{
}

/// While an order is live the POV sends nothing on a trade: at most one order of its
/// own works at a time.
pub proof fn lemma_pov_no_second_order(s: PovAlgo, trade_qty: Decimal, best_price: Option<Decimal>)
    requires
        s.active_order_id is Some,
    ensures
        pov_after_trade(s, trade_qty, best_price).1 is None,
        pov_after_trade(s, trade_qty, best_price).0.active_order_id == s.active_order_id,
{
}

/// A trade of `trade_qty` raises a running POV's target by its share of the combined
/// volume, `trade_qty * p / (1 - p)` in fixed point (each step truncated), capped at
/// the order size. With no order live and the target ahead of the executed quantity,
/// one order goes out on the POV's side under the next id for the shortfall, capped by
/// what remains, at the best price or the fallback price. A participation rate of
/// 100% or more, or a finished POV, ignores trades.
pub proof fn lemma_pov_trade(s: PovAlgo, trade_qty: Decimal, best_price: Option<Decimal>)
    requires
        pov_trade_fits(s, trade_qty, best_price),
    ensures
        ({
            let (t, r) = pov_after_trade(s, trade_qty, best_price);
            let p = s.participation_rate.0;
            let share = ((trade_qty.0 * p) / 100_000_000int) as u64;
            let delta = ((share * 100_000_000int) / (100_000_000 - p)) as u64;
            let target = if s.accumulated_target_qty.0 + delta > s.total_qty.0 {
                s.total_qty.0 as int
            } else {
                s.accumulated_target_qty.0 + delta
            };
            let left = if s.total_qty.0 >= s.executed_qty.0 { s.total_qty.0 - s.executed_qty.0 } else { 0 };
            let shortfall = target - s.executed_qty.0;
            let qty = if shortfall <= left { shortfall } else { left };
            if s.is_finished || p >= 100_000_000 {
                t == s && r is None
            } else {
                &&& t.accumulated_target_qty.0 == target
                &&& target <= s.total_qty.0
                &&& if s.active_order_id is None && s.executed_qty.0 < target && qty > 0 {
                    &&& r == Some(
                        AlgoAction::PlaceOrder {
                            client_order_id: (s.client_order_id_counter + 1) as u64,
                            exchange: Exchange::Binance,
                            side: s.side,
                            price: match best_price {
                                Some(bp) => bp,
                                None => Decimal(FALLBACK_PRICE_RAW),
                            },
                            quantity: Decimal(qty as u64),
                        },
                    )
                    &&& t.active_order_id == Some((s.client_order_id_counter + 1) as u64)
                } else {
                    r is None && t.active_order_id == s.active_order_id
                }
            }
        }),
{
}

} // verus!
