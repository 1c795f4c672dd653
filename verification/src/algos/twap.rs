use vstd::prelude::*;
use crate::algos::{AlgoAction, FALLBACK_PRICE_RAW};
use crate::types::{Decimal, Exchange, ExecutionReport, OrderStatus, Side, Symbol};

verus! {

/// Time-weighted average price: equal slices, one per interval, over a fixed window.
#[derive(Debug, Clone)]
pub struct TwapAlgo {
    pub symbol: Symbol,
    pub side: Side,
    pub total_qty: Decimal,
    pub executed_qty: Decimal,
    pub start_time_ns: u64,
    pub end_time_ns: u64,
    pub interval_ns: u64,
    pub slice_qty: Decimal,
    // Internal state
    pub current_slice_idx: u64,
    pub total_slices: u64,
    pub active_order_id: Option<u64>,
    pub active_order_qty: Decimal,
    pub active_order_filled: Decimal,
    /// When the current interval opened; `None` until the first interval opens.
    pub last_interval_start_ns: Option<u64>,
    pub is_finished: bool,
    pub client_order_id_counter: u64,
    /// A slice cancelled by the algorithm whose final report has not come yet; its
    /// fills still count.
    pub cancelling_order_id: Option<u64>,
    /// The price for the slice that follows the pending cancellation, when its final
    /// report is to send the next slice.
    pub resume_price: Option<Decimal>,
}

/// Number of slices for a window: one per whole interval, at least one.
pub open spec fn twap_slice_count(duration_ns: u64, interval_ns: u64) -> u64 {
    if duration_ns / interval_ns >= 1 { duration_ns / interval_ns } else { 1 }
}

/// The price a slice is sent at: the best price, or the fallback price without one.
pub open spec fn twap_slice_price(best_price: Option<Decimal>) -> Decimal {
    match best_price {
        Some(p) => p,
        None => Decimal(FALLBACK_PRICE_RAW),
    }
}

/// Sending the next slice at the best price (or the fallback price).
pub open spec fn twap_next_slice(s: TwapAlgo, best_price: Option<Decimal>) -> (TwapAlgo, Option<AlgoAction>) {
    let id = (s.client_order_id_counter + 1) as u64;
    (
        TwapAlgo {
            client_order_id_counter: id,
            active_order_id: Some(id),
            active_order_qty: s.slice_qty,
            active_order_filled: Decimal(0),
            ..s
        },
        Some(
            AlgoAction::PlaceOrder {
                client_order_id: id,
                exchange: Exchange::Binance,
                side: s.side,
                price: twap_slice_price(best_price),
                quantity: s.slice_qty,
            },
        ),
    )
}

/// Cancelling the live order (on Binance, the venue the slices are sent to). The
/// order is remembered until its final report; `resume` is the price of the slice
/// that report sends, if any.
pub open spec fn twap_cancel_live(s: TwapAlgo, resume: Option<Decimal>) -> (TwapAlgo, Option<AlgoAction>) {
    (
        TwapAlgo { active_order_id: None, cancelling_order_id: s.active_order_id, resume_price: resume, ..s },
        Some(AlgoAction::CancelOrder { client_order_id: s.active_order_id->0, exchange: Exchange::Binance }),
    )
}

/// Reaction to a clock tick. Before the window nothing happens. At or past its end
/// the live order is cancelled, or the algorithm finishes when there is none. The
/// first tick in the window opens the first interval with a slice. A tick at least
/// one interval after the current one opens the next interval: after the last slice
/// the algorithm cancels the live order, if any, and finishes; otherwise it cancels
/// the live order, whose final report then sends the next slice, or sends a slice
/// itself when none is live.
pub open spec fn twap_after_tick(s: TwapAlgo, timestamp_ns: u64, best_price: Option<Decimal>) -> (TwapAlgo, Option<AlgoAction>) {
    if s.is_finished || timestamp_ns < s.start_time_ns {
        (s, None)
    } else if timestamp_ns >= s.end_time_ns {
        if s.active_order_id is Some {
            twap_cancel_live(s, None)
        } else {
            (TwapAlgo { is_finished: true, ..s }, None)
        }
    } else {
        match s.last_interval_start_ns {
            None => twap_next_slice(TwapAlgo { last_interval_start_ns: Some(timestamp_ns), ..s }, best_price),
            Some(last) => {
                if timestamp_ns - last >= s.interval_ns {
                    let t = TwapAlgo {
                        last_interval_start_ns: Some(timestamp_ns),
                        current_slice_idx: (s.current_slice_idx + 1) as u64,
                        resume_price: None,
                        ..s
                    };
                    if t.current_slice_idx >= t.total_slices {
                        if t.active_order_id is Some {
                            twap_cancel_live(TwapAlgo { is_finished: true, ..t }, None)
                        } else {
                            (TwapAlgo { is_finished: true, ..t }, None)
                        }
                    } else if t.active_order_id is Some {
                        twap_cancel_live(t, Some(twap_slice_price(best_price)))
                    } else {
                        twap_next_slice(t, best_price)
                    }
                } else {
                    (s, None)
                }
            },
        }
    }
}

/// The tick needs the elapsed time since the current interval opened.
pub open spec fn twap_measures_interval(s: TwapAlgo, timestamp_ns: u64) -> bool {
    !s.is_finished && s.start_time_ns <= timestamp_ns < s.end_time_ns && s.last_interval_start_ns is Some
}

/// The tick sends a new slice.
pub open spec fn twap_tick_places_slice(s: TwapAlgo, timestamp_ns: u64) -> bool {
    &&& !s.is_finished
    &&& s.start_time_ns <= timestamp_ns < s.end_time_ns
    &&& (s.last_interval_start_ns is None || (timestamp_ns - s.last_interval_start_ns->0 >= s.interval_ns
        && s.current_slice_idx + 1 < s.total_slices && s.active_order_id is None))
}

/// A tick's arithmetic stays within `u64`: the clock does not run back past the
/// current interval, and the slice index and the id counter have room to grow.
pub open spec fn twap_tick_fits(s: TwapAlgo, timestamp_ns: u64) -> bool {
    &&& twap_measures_interval(s, timestamp_ns) ==> timestamp_ns >= s.last_interval_start_ns->0
        && s.current_slice_idx < u64::MAX
    &&& twap_tick_places_slice(s, timestamp_ns) ==> s.client_order_id_counter < u64::MAX
}

/// A report status after which the order is no longer working.
pub open spec fn is_final_status(status: OrderStatus) -> bool {
    match status {
        OrderStatus::Filled | OrderStatus::Cancelled | OrderStatus::Rejected => true,
        _ => false,
    }
}

/// The report is on the live order of a running algorithm.
pub open spec fn twap_report_on_live(s: TwapAlgo, report: ExecutionReport) -> bool {
    !s.is_finished && s.active_order_id == Some(report.client_order_id)
}

/// The report is on the order the algorithm is cancelling.
pub open spec fn twap_report_on_cancelling(s: TwapAlgo, report: ExecutionReport) -> bool {
    !twap_report_on_live(s, report) && s.cancelling_order_id == Some(report.client_order_id)
}

/// The final report of the cancelled order sends the next slice: the algorithm is
/// running, no order is live and a resumption was asked for.
pub open spec fn twap_report_resumes(s: TwapAlgo, report: ExecutionReport) -> bool {
    &&& twap_report_on_cancelling(s, report)
    &&& is_final_status(report.status)
    &&& !s.is_finished
    &&& s.active_order_id is None
    &&& s.resume_price is Some
}

/// A report's fill fits the executed and filled totals it is added to, and a slice
/// it sends has an id left.
pub open spec fn twap_report_fits(s: TwapAlgo, report: ExecutionReport) -> bool {
    &&& twap_report_on_live(s, report) ==> {
        &&& s.executed_qty.0 + report.last_qty.0 <= u64::MAX
        &&& s.active_order_filled.0 + report.last_qty.0 <= u64::MAX
    }
    &&& twap_report_on_cancelling(s, report) ==> s.executed_qty.0 + report.last_qty.0 <= u64::MAX
    &&& twap_report_resumes(s, report) ==> s.client_order_id_counter < u64::MAX
}

/// Reaction to a report. On the live order: record the fill and free the order slot
/// once it is filled, cancelled or rejected. On the order being cancelled, even after
/// the algorithm finished: record the fill, and on its final report forget it and,
/// when a resumption was asked for, send the next slice.
pub open spec fn twap_after_report(s: TwapAlgo, report: ExecutionReport) -> (TwapAlgo, Option<AlgoAction>) {
    let done = is_final_status(report.status);
    if twap_report_on_live(s, report) {
        (
            TwapAlgo {
                active_order_filled: Decimal((s.active_order_filled.0 + report.last_qty.0) as u64),
                executed_qty: Decimal((s.executed_qty.0 + report.last_qty.0) as u64),
                active_order_id: if done { None } else { s.active_order_id },
                ..s
            },
            None,
        )
    } else if twap_report_on_cancelling(s, report) {
        let t = TwapAlgo {
            executed_qty: Decimal((s.executed_qty.0 + report.last_qty.0) as u64),
            cancelling_order_id: if done { None } else { s.cancelling_order_id },
            resume_price: if done { None } else { s.resume_price },
            ..s
        };
        if twap_report_resumes(s, report) {
            twap_next_slice(t, s.resume_price)
        } else {
            (t, None)
        }
    } else {
        (s, None)
    }
}

/// A running TWAP is still within its slices: the slice index stays below the slice
/// count until the algorithm finishes.
pub open spec fn twap_slices_bounded(s: TwapAlgo) -> bool {
    s.is_finished || s.current_slice_idx < s.total_slices
}

/// A finished TWAP leaves no order of its own live.
pub open spec fn twap_none_live_when_finished(s: TwapAlgo) -> bool {
    s.is_finished ==> s.active_order_id is None
}

/// A tick that opens a new interval of a running TWAP: within the window, at least
/// one interval after the current one opened.
pub open spec fn twap_at_boundary(s: TwapAlgo, timestamp_ns: u64) -> bool {
    &&& !s.is_finished
    &&& s.start_time_ns <= timestamp_ns < s.end_time_ns
    &&& s.last_interval_start_ns is Some
    &&& timestamp_ns - s.last_interval_start_ns->0 >= s.interval_ns
    &&& s.current_slice_idx < u64::MAX
}

/// The schedule never ends with a slice of its own live: when the last slice's
/// interval is over, the live slice is cancelled as the TWAP finishes.
pub proof fn lemma_twap_last_boundary_cancels(s: TwapAlgo, timestamp_ns: u64, best_price: Option<Decimal>)
    requires
        twap_at_boundary(s, timestamp_ns),
        s.current_slice_idx + 1 >= s.total_slices,
        s.active_order_id is Some,
    ensures
        ({
            let (t, r) = twap_after_tick(s, timestamp_ns, best_price);
            &&& r == Some(AlgoAction::CancelOrder { client_order_id: s.active_order_id->0, exchange: Exchange::Binance })
            &&& t.is_finished
            &&& t.active_order_id is None
            &&& t.cancelling_order_id == s.active_order_id
        }),
{
}

/// The slice cancelled at an interval boundary is remembered: every fill reported on
/// it still counts, and its final report sends the next slice at the price of the
/// tick that cancelled it, under the next client order id.
pub proof fn lemma_twap_cancel_confirmation_resumes(
    s: TwapAlgo,
    timestamp_ns: u64,
    best_price: Option<Decimal>,
    report: ExecutionReport,
)
    requires
        twap_at_boundary(s, timestamp_ns),
        s.current_slice_idx + 1 < s.total_slices,
        s.active_order_id == Some(report.client_order_id),
        s.executed_qty.0 + report.last_qty.0 <= u64::MAX,
    ensures
        ({
            let (t, c) = twap_after_tick(s, timestamp_ns, best_price);
            let (u, r) = twap_after_report(t, report);
            &&& c == Some(AlgoAction::CancelOrder { client_order_id: report.client_order_id, exchange: Exchange::Binance })
            &&& u.executed_qty.0 == s.executed_qty.0 + report.last_qty.0
            &&& is_final_status(report.status) ==> r == Some(
                AlgoAction::PlaceOrder {
                    client_order_id: (s.client_order_id_counter + 1) as u64,
                    exchange: Exchange::Binance,
                    side: s.side,
                    price: twap_slice_price(best_price),
                    quantity: s.slice_qty,
                },
            )
            &&& !is_final_status(report.status) ==> r is None && u.cancelling_order_id == s.active_order_id
        }),
{
}

impl TwapAlgo {
    pub fn new(
        symbol: Symbol,
        side: Side,
        total_qty: Decimal,
        start_time_ns: u64,
        duration_ns: u64,
        interval_ns: u64,
        base_client_id: u64,
    ) -> (a: TwapAlgo)
        requires
            interval_ns > 0,
            start_time_ns + duration_ns <= u64::MAX,
        ensures
            a == (TwapAlgo {
                symbol,
                side,
                total_qty,
                executed_qty: Decimal(0),
                start_time_ns,
                end_time_ns: (start_time_ns + duration_ns) as u64,
                interval_ns,
                slice_qty: Decimal(total_qty.0 / twap_slice_count(duration_ns, interval_ns)),
                current_slice_idx: 0,
                total_slices: twap_slice_count(duration_ns, interval_ns),
                active_order_id: None,
                active_order_qty: Decimal(0),
                active_order_filled: Decimal(0),
                last_interval_start_ns: None,
                is_finished: false,
                client_order_id_counter: base_client_id,
                cancelling_order_id: None,
                resume_price: None,
            }),
            // All the slices together never exceed the order.
            a.slice_qty.0 * a.total_slices <= a.total_qty.0,
            twap_slices_bounded(a),
            twap_none_live_when_finished(a),
    {
        let q = duration_ns / interval_ns;
        let total_slices = if q >= 1 { q } else { 1 };
        let slice_qty = total_qty / total_slices;
        assert(slice_qty.0 * total_slices <= total_qty.0) by (nonlinear_arith)
            requires
                slice_qty.0 == total_qty.0 / total_slices,
                total_slices >= 1,
        ;
        TwapAlgo {
            symbol,
            side,
            total_qty,
            executed_qty: Decimal(0),
            start_time_ns,
            end_time_ns: start_time_ns + duration_ns,
            interval_ns,
            slice_qty,
            current_slice_idx: 0,
            total_slices,
            active_order_id: None,
            active_order_qty: Decimal(0),
            active_order_filled: Decimal(0),
            last_interval_start_ns: None,
            is_finished: false,
            client_order_id_counter: base_client_id,
            cancelling_order_id: None,
            resume_price: None,
        }
    }

    /// Handles timer ticks to decide when to submit new child orders or cancel existing ones.
    pub fn on_tick(&mut self, timestamp_ns: u64, best_price: Option<Decimal>) -> (r: Option<AlgoAction>)
        requires
            twap_tick_fits(*old(self), timestamp_ns),
        ensures
            (*final(self), r) == twap_after_tick(*old(self), timestamp_ns, best_price),
            final(self).client_order_id_counter >= old(self).client_order_id_counter,
            r matches Some(AlgoAction::PlaceOrder { client_order_id, quantity, .. }) ==> client_order_id
                == final(self).client_order_id_counter && client_order_id > old(self).client_order_id_counter
                && quantity == final(self).slice_qty,
            twap_slices_bounded(*old(self)) ==> twap_slices_bounded(*final(self)),
            twap_none_live_when_finished(*old(self)) ==> twap_none_live_when_finished(*final(self)),
            // The first interval opens once.
            old(self).last_interval_start_ns is Some ==> final(self).last_interval_start_ns is Some,
            old(self).is_finished ==> *final(self) == *old(self) && r is None,
    {
        if self.is_finished || timestamp_ns < self.start_time_ns {
            return None;
        }
        if timestamp_ns >= self.end_time_ns {
            // Clean up the last order, if any.
            if self.active_order_id.is_some() {
                return self.cancel_live(None);
            }
            self.is_finished = true;
            return None;
        }
        match self.last_interval_start_ns {
            None => {
                // Open the first interval.
                self.last_interval_start_ns = Some(timestamp_ns);
                self.submit_next_slice(best_price)
            },
            Some(last) => {
                if timestamp_ns - last >= self.interval_ns {
                    self.last_interval_start_ns = Some(timestamp_ns);
                    self.current_slice_idx = self.current_slice_idx + 1;
                    self.resume_price = None;
                    if self.current_slice_idx >= self.total_slices {
                        // The schedule is over: cancel the last slice if it is still live.
                        self.is_finished = true;
                        if self.active_order_id.is_some() {
                            return self.cancel_live(None);
                        }
                        return None;
                    }
                    // Cancel any live order from the previous interval first; its final
                    // report sends the next slice at this tick's price.
                    if self.active_order_id.is_some() {
                        let price = match best_price {
                            Some(p) => p,
                            None => Decimal(FALLBACK_PRICE_RAW),
                        };
                        return self.cancel_live(Some(price));
                    }
                    self.submit_next_slice(best_price)
                } else {
                    None
                }
            },
        }
    }

    /// Cancels the live order and remembers it until its final report.
    fn cancel_live(&mut self, resume: Option<Decimal>) -> (r: Option<AlgoAction>)
        requires
            old(self).active_order_id is Some,
        ensures
            (*final(self), r) == twap_cancel_live(*old(self), resume),
    {
        let order_id = self.active_order_id.take().unwrap();
        self.cancelling_order_id = Some(order_id);
        self.resume_price = resume;
        Some(AlgoAction::CancelOrder { client_order_id: order_id, exchange: Exchange::Binance })
    }

    fn submit_next_slice(&mut self, best_price: Option<Decimal>) -> (r: Option<AlgoAction>)
        requires
            old(self).client_order_id_counter < u64::MAX,
        ensures
            (*final(self), r) == twap_next_slice(*old(self), best_price),
    {
        let price = match best_price {
            Some(p) => p,
            None => Decimal(FALLBACK_PRICE_RAW),
        };
        self.client_order_id_counter = self.client_order_id_counter + 1;
        let order_id = self.client_order_id_counter;
        self.active_order_id = Some(order_id);
        self.active_order_qty = self.slice_qty;
        self.active_order_filled = Decimal(0);
        Some(
            AlgoAction::PlaceOrder {
                client_order_id: order_id,
                exchange: Exchange::Binance,
                side: self.side,
                price,
                quantity: self.slice_qty,
            },
        )
    }

    /// Processes execution reports to track filled quantities, those of a slice being
    /// cancelled included; the final report of a slice cancelled at an interval
    /// boundary sends the next slice.
    pub fn on_execution_report(&mut self, report: &ExecutionReport) -> (r: Option<AlgoAction>)
        requires
            twap_report_fits(*old(self), *report),
        ensures
            (*final(self), r) == twap_after_report(*old(self), *report),
            final(self).client_order_id_counter >= old(self).client_order_id_counter,
            r matches Some(AlgoAction::PlaceOrder { client_order_id, quantity, .. }) ==> client_order_id
                == final(self).client_order_id_counter && client_order_id > old(self).client_order_id_counter
                && quantity == final(self).slice_qty,
            twap_slices_bounded(*old(self)) ==> twap_slices_bounded(*final(self)),
            twap_none_live_when_finished(*old(self)) ==> twap_none_live_when_finished(*final(self)),
    {
        let done = match report.status {
            OrderStatus::Filled | OrderStatus::Cancelled | OrderStatus::Rejected => true,
            _ => false,
        };
        let fill_qty = report.last_qty;
        if !self.is_finished && Some(report.client_order_id) == self.active_order_id {
            self.active_order_filled = self.active_order_filled + fill_qty;
            self.executed_qty = self.executed_qty + fill_qty;
            if done {
                self.active_order_id = None;
            }
            return None;
        }
        if Some(report.client_order_id) == self.cancelling_order_id {
            self.executed_qty = self.executed_qty + fill_qty;
            if done {
                let resume = self.resume_price;
                self.cancelling_order_id = None;
                self.resume_price = None;
                if !self.is_finished && self.active_order_id.is_none() && resume.is_some() {
                    return self.submit_next_slice(resume);
                }
            }
        }
        None
    }
}

impl TwapAlgo {
    /// Whether `on_tick` can take a tick at `timestamp_ns`.
    pub fn tick_fits(&self, timestamp_ns: u64) -> (b: bool)
        ensures
            b == twap_tick_fits(*self, timestamp_ns),
    {
        let in_window = !self.is_finished && self.start_time_ns <= timestamp_ns && timestamp_ns < self.end_time_ns;
        match self.last_interval_start_ns {
            None => !in_window || self.client_order_id_counter < u64::MAX,
            Some(last) => {
                if !in_window {
                    true
                } else if timestamp_ns < last || self.current_slice_idx == u64::MAX {
                    false
                } else {
                    let places = timestamp_ns - last >= self.interval_ns && self.current_slice_idx + 1
                        < self.total_slices && self.active_order_id.is_none();
                    !places || self.client_order_id_counter < u64::MAX
                }
            },
        }
    }

    /// Whether `on_execution_report` can take `report`.
    pub fn report_fits(&self, report: &ExecutionReport) -> (b: bool)
        ensures
            b == twap_report_fits(*self, *report),
    {
        let q = report.last_qty.0;
        let on_live = !self.is_finished && Some(report.client_order_id) == self.active_order_id;
        let on_cancelling = !on_live && Some(report.client_order_id) == self.cancelling_order_id;
        let done = match report.status {
            OrderStatus::Filled | OrderStatus::Cancelled | OrderStatus::Rejected => true,
            _ => false,
        };
        let resumes = on_cancelling && done && !self.is_finished && self.active_order_id.is_none()
            && self.resume_price.is_some();
        let executed_fits = q <= u64::MAX - self.executed_qty.0;
        let filled_fits = q <= u64::MAX - self.active_order_filled.0;
        (!on_live || (executed_fits && filled_fits)) && (!on_cancelling || executed_fits) && (!resumes
            || self.client_order_id_counter < u64::MAX)
    }
}

/// A report on the TWAP's live slice adds its fill to the executed and filled
/// quantities and frees the slot exactly on a final status (filled, cancelled or
/// rejected); a partial fill or an acknowledgement keeps the slice live. Such a
/// report sends nothing.
pub proof fn lemma_twap_live_report(s: TwapAlgo, report: ExecutionReport)
    requires
        twap_report_fits(s, report),
        !s.is_finished,
        s.active_order_id == Some(report.client_order_id),
    ensures
        ({
            let (t, r) = twap_after_report(s, report);
            let final_status = report.status == OrderStatus::Filled || report.status == OrderStatus::Cancelled
                || report.status == OrderStatus::Rejected;
            &&& t.executed_qty.0 == s.executed_qty.0 + report.last_qty.0
            &&& t.active_order_filled.0 == s.active_order_filled.0 + report.last_qty.0
            &&& (t.active_order_id is None) == final_status
            &&& !final_status ==> t.active_order_id == s.active_order_id
            &&& r is None
            &&& t.client_order_id_counter == s.client_order_id_counter
            &&& t.cancelling_order_id == s.cancelling_order_id
        }),
{
}

/// With no slice live, the tick that opens the next interval (not the last) sends the
/// next slice at once: a slice of `slice_qty` on the TWAP's side under the next id,
/// at the best price or the fallback price.
pub proof fn lemma_twap_free_boundary_sends_slice(s: TwapAlgo, timestamp_ns: u64, best_price: Option<Decimal>)
    requires
        twap_at_boundary(s, timestamp_ns),
        s.current_slice_idx + 1 < s.total_slices,
        s.active_order_id is None,
    ensures
        ({
            let (t, r) = twap_after_tick(s, timestamp_ns, best_price);
            &&& r == Some(
                AlgoAction::PlaceOrder {
                    client_order_id: (s.client_order_id_counter + 1) as u64,
                    exchange: Exchange::Binance,
                    side: s.side,
                    price: match best_price {
                        Some(p) => p,
                        None => Decimal(FALLBACK_PRICE_RAW),
                    },
                    quantity: s.slice_qty,
                },
            )
            &&& t.active_order_id == Some((s.client_order_id_counter + 1) as u64)
            &&& t.current_slice_idx == s.current_slice_idx + 1
            &&& t.last_interval_start_ns == Some(timestamp_ns)
        }),
{
}

/// Outside its window a TWAP sends nothing new: before the start a tick changes
/// nothing; at or past the end it cancels its live slice, or finishes when none is live.
pub proof fn lemma_twap_window_edges(s: TwapAlgo, timestamp_ns: u64, best_price: Option<Decimal>)
    requires
        !s.is_finished,
    ensures
        ({
            let (t, r) = twap_after_tick(s, timestamp_ns, best_price);
            &&& timestamp_ns < s.start_time_ns ==> t == s && r is None
            &&& timestamp_ns >= s.start_time_ns && timestamp_ns >= s.end_time_ns ==> {
                &&& s.active_order_id is Some ==> r == Some(
                    AlgoAction::CancelOrder { client_order_id: s.active_order_id->0, exchange: Exchange::Binance },
                ) && t.active_order_id is None
                &&& s.active_order_id is None ==> r is None && t.is_finished
            }
        }),
{
}

/// The first tick in the window opens the first interval at that time and sends a
/// slice of `slice_qty` on the TWAP's side under the next id.
pub proof fn lemma_twap_first_tick_sends_slice(s: TwapAlgo, timestamp_ns: u64, best_price: Option<Decimal>)
    requires
        !s.is_finished,
        s.start_time_ns <= timestamp_ns < s.end_time_ns,
        s.last_interval_start_ns is None,
        s.client_order_id_counter < u64::MAX,
    ensures
        ({
            let (t, r) = twap_after_tick(s, timestamp_ns, best_price);
            &&& r matches Some(AlgoAction::PlaceOrder { client_order_id, side, quantity, .. }) && client_order_id
                == s.client_order_id_counter + 1 && side == s.side && quantity == s.slice_qty
            &&& t.last_interval_start_ns == Some(timestamp_ns)
            &&& t.active_order_id == Some((s.client_order_id_counter + 1) as u64)
        }),
{
}

/// A window is cut into one slice per whole interval, and into one slice when it is
/// shorter than an interval: the slices' intervals fit in the window and one more
/// would not.
pub proof fn lemma_twap_slice_count(duration_ns: u64, interval_ns: u64)
    requires
        interval_ns > 0,
    ensures
        twap_slice_count(duration_ns, interval_ns) >= 1,
        duration_ns >= interval_ns ==> twap_slice_count(duration_ns, interval_ns) * interval_ns <= duration_ns
            < (twap_slice_count(duration_ns, interval_ns) + 1) * interval_ns,
        duration_ns < interval_ns ==> twap_slice_count(duration_ns, interval_ns) == 1,
{
    let q = duration_ns / interval_ns;
    assert(q * interval_ns <= duration_ns < (q + 1) * interval_ns) by (nonlinear_arith)
        requires
            q == duration_ns / interval_ns,
            interval_ns > 0,
    ;
    if duration_ns >= interval_ns {
        assert(q >= 1) by (nonlinear_arith)
            requires
                q == duration_ns / interval_ns,
                duration_ns >= interval_ns,
                interval_ns > 0,
        ;
    } else {
        assert(q == 0) by (nonlinear_arith)
            requires
                q == duration_ns / interval_ns,
                duration_ns < interval_ns,
                interval_ns > 0,
        ;
    }
}

} // verus!
