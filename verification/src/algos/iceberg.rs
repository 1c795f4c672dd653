use vstd::prelude::*;
use crate::algos::AlgoAction;
use crate::types::{Decimal, Exchange, ExecutionReport, OrderStatus, Side, Symbol};

verus! {

/// Works a large order by showing only `visible_qty` at a time: the next slice goes
/// out when the current one is completely filled.
#[derive(Debug, Clone)]
pub struct IcebergAlgo {
    pub symbol: Symbol,
    pub side: Side,
    pub total_qty: Decimal,
    pub limit_price: Decimal,
    pub visible_qty: Decimal,
    pub executed_qty: Decimal,
    // Internal tracking
    pub active_order_id: Option<u64>,
    pub active_order_qty: Decimal,
    pub active_order_filled: Decimal,
    pub client_order_id_counter: u64,
    pub is_finished: bool,
}

/// What is still to be executed, never below zero.
pub open spec fn iceberg_remaining(s: IcebergAlgo) -> u64 {
    if s.total_qty.0 >= s.executed_qty.0 { (s.total_qty.0 - s.executed_qty.0) as u64 } else { 0 }
}

/// Size of the next visible slice: the visible size, or less when less remains.
pub open spec fn iceberg_slice_size(s: IcebergAlgo) -> u64 {
    if s.visible_qty.0 <= iceberg_remaining(s) { s.visible_qty.0 } else { iceberg_remaining(s) }
}

/// Sending the next slice: finished when nothing remains, else a new order for the
/// slice size at the limit price under the next client order id.
pub open spec fn iceberg_next_slice(s: IcebergAlgo) -> (IcebergAlgo, Option<AlgoAction>) {
    if iceberg_remaining(s) == 0 {
        (IcebergAlgo { is_finished: true, ..s }, None)
    } else {
        let id = (s.client_order_id_counter + 1) as u64;
        (
            IcebergAlgo {
                client_order_id_counter: id,
                active_order_id: Some(id),
                active_order_qty: Decimal(iceberg_slice_size(s)),
                active_order_filled: Decimal(0),
                ..s
            },
            Some(
                AlgoAction::PlaceOrder {
                    client_order_id: id,
                    exchange: Exchange::Binance,
                    side: s.side,
                    price: s.limit_price,
                    quantity: Decimal(iceberg_slice_size(s)),
                },
            ),
        )
    }
}

/// A new slice can be numbered without overflowing the id counter.
pub open spec fn iceberg_can_number_slice(s: IcebergAlgo) -> bool {
    iceberg_remaining(s) != 0 ==> s.client_order_id_counter < u64::MAX
}

/// The report is for the live slice of a running algorithm.
pub open spec fn iceberg_report_applies(s: IcebergAlgo, report: ExecutionReport) -> bool {
    !s.is_finished && s.active_order_id == Some(report.client_order_id)
}

/// The algorithm after a fill of `qty` on its live slice.
pub open spec fn iceberg_with_fill(s: IcebergAlgo, qty: Decimal) -> IcebergAlgo {
    IcebergAlgo {
        active_order_filled: Decimal((s.active_order_filled.0 + qty.0) as u64),
        executed_qty: Decimal((s.executed_qty.0 + qty.0) as u64),
        ..s
    }
}

/// Reaction to a report on the live slice: record the fill; a filled slice either
/// completes the order or sends the next slice; a cancelled or rejected slice ends it.
pub open spec fn iceberg_after_report(s: IcebergAlgo, report: ExecutionReport) -> (IcebergAlgo, Option<AlgoAction>) {
    let f = iceberg_with_fill(s, report.last_qty);
    match report.status {
        OrderStatus::Filled => {
            let g = IcebergAlgo { active_order_id: None, ..f };
            if g.executed_qty.0 >= g.total_qty.0 {
                (IcebergAlgo { is_finished: true, ..g }, None)
            } else {
                iceberg_next_slice(g)
            }
        },
        OrderStatus::Cancelled | OrderStatus::Rejected => (
            IcebergAlgo { active_order_id: None, is_finished: true, ..f },
            None,
        ),
        _ => (f, None),
    }
}

/// A report's fill fits the totals it is added to, and a next slice can be numbered.
pub open spec fn iceberg_report_fits(s: IcebergAlgo, report: ExecutionReport) -> bool {
    iceberg_report_applies(s, report) ==> {
        &&& s.executed_qty.0 + report.last_qty.0 <= u64::MAX
        &&& s.active_order_filled.0 + report.last_qty.0 <= u64::MAX
        &&& report.status == OrderStatus::Filled ==> iceberg_can_number_slice(
            IcebergAlgo { active_order_id: None, ..iceberg_with_fill(s, report.last_qty) },
        )
    }
}

/// The counter, and hence every issued client order id, only grows, and a placed
/// order carries the newly issued id.
pub open spec fn iceberg_ids_advance(before: IcebergAlgo, after: IcebergAlgo, r: Option<AlgoAction>) -> bool {
    &&& after.client_order_id_counter >= before.client_order_id_counter
    &&& r matches Some(AlgoAction::PlaceOrder { client_order_id, .. }) ==> client_order_id
        == after.client_order_id_counter && client_order_id > before.client_order_id_counter
}

/// A slice never shows more than the visible size, nor more than what remains to be
/// executed.
pub open spec fn iceberg_slice_bounded(after: IcebergAlgo, r: Option<AlgoAction>) -> bool {
    r matches Some(AlgoAction::PlaceOrder { quantity, .. }) ==> quantity.0 <= after.visible_qty.0
        && quantity.0 <= after.total_qty.0 - after.executed_qty.0
}

impl IcebergAlgo {
    pub fn new(
        symbol: Symbol,
        side: Side,
        total_qty: Decimal,
        limit_price: Decimal,
        visible_qty: Decimal,
        base_client_id: u64,
    ) -> (a: IcebergAlgo)
        ensures
            a == (IcebergAlgo {
                symbol,
                side,
                total_qty,
                limit_price,
                visible_qty,
                executed_qty: Decimal(0),
                active_order_id: None,
                active_order_qty: Decimal(0),
                active_order_filled: Decimal(0),
                client_order_id_counter: base_client_id,
                is_finished: false,
            }),
    {
        IcebergAlgo {
            symbol,
            side,
            total_qty,
            limit_price,
            visible_qty,
            executed_qty: Decimal(0),
            active_order_id: None,
            active_order_qty: Decimal(0),
            active_order_filled: Decimal(0),
            client_order_id_counter: base_client_id,
            is_finished: false,
        }
    }

    /// Triggers the initial visible order slice.
    pub fn start(&mut self) -> (r: Option<AlgoAction>)
        requires
            !old(self).is_finished && old(self).active_order_id is None ==> iceberg_can_number_slice(*old(self)),
        ensures
            (*final(self), r) == if old(self).is_finished || old(self).active_order_id is Some {
                (*old(self), None::<AlgoAction>)
            } else {
                iceberg_next_slice(*old(self))
            },
            iceberg_ids_advance(*old(self), *final(self), r),
            iceberg_slice_bounded(*final(self), r),
    {
        if self.is_finished || self.active_order_id.is_some() {
            return None;
        }
        self.submit_next_slice()
    }

    fn submit_next_slice(&mut self) -> (r: Option<AlgoAction>)
        requires
            iceberg_can_number_slice(*old(self)),
        ensures
            (*final(self), r) == iceberg_next_slice(*old(self)),
    {
        let remaining = self.total_qty - self.executed_qty;
        if remaining.is_zero() {
            self.is_finished = true;
            return None;
        }
        let slice_size = self.visible_qty.min(remaining);
        self.client_order_id_counter = self.client_order_id_counter + 1;
        let order_id = self.client_order_id_counter;
        self.active_order_id = Some(order_id);
        self.active_order_qty = slice_size;
        self.active_order_filled = Decimal(0);
        Some(
            AlgoAction::PlaceOrder {
                client_order_id: order_id,
                exchange: Exchange::Binance,
                side: self.side,
                price: self.limit_price,
                quantity: slice_size,
            },
        )
    }

    /// Processes execution reports and triggers the next slice upon full fill of the active slice.
    pub fn on_execution_report(&mut self, report: &ExecutionReport) -> (r: Option<AlgoAction>)
        requires
            iceberg_report_fits(*old(self), *report),
        ensures
            (*final(self), r) == if iceberg_report_applies(*old(self), *report) {
                iceberg_after_report(*old(self), *report)
            } else {
                (*old(self), None::<AlgoAction>)
            },
            iceberg_ids_advance(*old(self), *final(self), r),
            iceberg_slice_bounded(*final(self), r),
            old(self).is_finished ==> *final(self) == *old(self) && r is None,
    {
        if self.is_finished {
            return None;
        }
        if Some(report.client_order_id) == self.active_order_id {
            let fill_qty = report.last_qty;
            self.active_order_filled = self.active_order_filled + fill_qty;
            self.executed_qty = self.executed_qty + fill_qty;
            match report.status {
                OrderStatus::Filled => {
                    self.active_order_id = None;
                    if self.executed_qty.0 >= self.total_qty.0 {
                        self.is_finished = true;
                        return None;
                    } else {
                        return self.submit_next_slice();
                    }
                },
                OrderStatus::Cancelled | OrderStatus::Rejected => {
                    self.active_order_id = None;
                    self.is_finished = true;
                },
                _ => {},
            }
        }
        None
    }
}

impl IcebergAlgo {
    /// Whether `start` can be called.
    pub fn can_start(&self) -> (b: bool)
        ensures
            b == (!self.is_finished && self.active_order_id is None ==> iceberg_can_number_slice(*self)),
    {
        let remaining = if self.total_qty.0 >= self.executed_qty.0 { self.total_qty.0 - self.executed_qty.0 } else { 0 };
        self.is_finished || self.active_order_id.is_some() || remaining == 0 || self.client_order_id_counter < u64::MAX
    }

    /// Whether `on_execution_report` can take `report`.
    pub fn report_fits(&self, report: &ExecutionReport) -> (b: bool)
        ensures
            b == iceberg_report_fits(*self, *report),
    {
        let q = report.last_qty.0;
        let applies = !self.is_finished && Some(report.client_order_id) == self.active_order_id;
        if !applies {
            return true;
        }
        if q > u64::MAX - self.executed_qty.0 || q > u64::MAX - self.active_order_filled.0 {
            return false;
        }
        let executed = self.executed_qty.0 + q;
        let remaining = if self.total_qty.0 >= executed { self.total_qty.0 - executed } else { 0 };
        report.status != OrderStatus::Filled || remaining == 0 || self.client_order_id_counter < u64::MAX
    }
}

/// An iceberg shows one slice at a time: starting an iceberg with something to do and
/// no live slice sends exactly one slice of the visible size (or what remains) under
/// the next id and leaves that slice live, so a second `start` before any report
/// changes nothing.
pub proof fn lemma_iceberg_start_once(s: IcebergAlgo)
    requires
        !s.is_finished,
        s.active_order_id is None,
        s.executed_qty.0 < s.total_qty.0,
    ensures
        ({
            let (t, r) = iceberg_next_slice(s);
            &&& r == Some(
                AlgoAction::PlaceOrder {
                    client_order_id: (s.client_order_id_counter + 1) as u64,
                    exchange: Exchange::Binance,
                    side: s.side,
                    price: s.limit_price,
                    quantity: Decimal(
                        if s.visible_qty.0 <= s.total_qty.0 - s.executed_qty.0 {
                            s.visible_qty.0
                        } else {
                            (s.total_qty.0 - s.executed_qty.0) as u64
                        },
                    ),
                },
            )
            &&& t.active_order_id == Some((s.client_order_id_counter + 1) as u64)
            &&& !t.is_finished
        }),
{
}

/// A report on the iceberg's live slice adds its fill; a filled slice sends the next
/// slice while something remains and finishes the order otherwise; a cancelled or
/// rejected slice ends the order; a partial fill or an acknowledgement keeps the
/// slice live and sends nothing.
pub proof fn lemma_iceberg_report(s: IcebergAlgo, report: ExecutionReport)
    requires
        iceberg_report_fits(s, report),
        iceberg_report_applies(s, report),
    ensures
        ({
            let (t, r) = iceberg_after_report(s, report);
            let executed = s.executed_qty.0 + report.last_qty.0;
            &&& t.executed_qty.0 == executed
            &&& report.status == OrderStatus::Filled ==> {
                &&& executed >= s.total_qty.0 ==> t.is_finished && r is None && t.active_order_id is None
                &&& executed < s.total_qty.0 ==> !t.is_finished && r == Some(
                    AlgoAction::PlaceOrder {
                        client_order_id: (s.client_order_id_counter + 1) as u64,
                        exchange: Exchange::Binance,
                        side: s.side,
                        price: s.limit_price,
                        quantity: Decimal(
                            if s.visible_qty.0 <= s.total_qty.0 - executed {
                                s.visible_qty.0
                            } else {
                                (s.total_qty.0 - executed) as u64
                            },
                        ),
                    },
                )
            }
            &&& (report.status == OrderStatus::Cancelled || report.status == OrderStatus::Rejected) ==> t.is_finished
                && t.active_order_id is None && r is None
            &&& !(report.status == OrderStatus::Filled || report.status == OrderStatus::Cancelled || report.status
                == OrderStatus::Rejected) ==> !t.is_finished && t.active_order_id == s.active_order_id && r is None
        }),
{
}

} // verus!
