use vstd::prelude::*;
use std::sync::Arc;
use crossbeam_queue::ArrayQueue;
use crate::order_book::{OrderBook, MAX_DEPTH};
use crate::queue::queue_push;
use crate::random::{random_in_range, random_ratio};
use crate::types::{
    BookUpdate, BookUpdateLevel, Decimal, Exchange, ExecutionReport, MarketEvent, MarketTrade, OrderRequest,
    OrderStatus, OrderType, Side, Symbol,
};

verus! {

/// Smallest and one past the largest level quantity the simulator quotes (0.5 to 5.0).
pub const MIN_LEVEL_QTY: u64 = 50_000_000;
pub const MAX_LEVEL_QTY: u64 = 500_000_000;
/// Price step between simulated levels (0.0001).
pub const LEVEL_STEP: u64 = 10_000;

/// A simulated venue: a random-walk price, a synthetic book around it, and limit
/// orders resting until the price reaches them.
pub struct ExchangeSim {
    pub exchange: Exchange,
    pub symbol: Symbol,
    pub current_price: Decimal,
    pub book: OrderBook,
    /// Orders resting on the venue.
    pub resting_orders: Vec<OrderRequest>,
    pub order_id_counter: u64,
}

/// Half-spread of a venue in raw units: Binance quotes tighter than Coinbase.
pub open spec fn half_spread(exchange: Exchange) -> u64 {
    match exchange {
        Exchange::Binance => 10_000,
        Exchange::Coinbase => 30_000,
    }
}

/// Price of the `i`-th simulated bid: below the price by the half-spread and `i` steps, floored at zero.
pub open spec fn sim_bid_price(price: u64, exchange: Exchange, i: int) -> u64 {
    let off = half_spread(exchange) + i * 10_000;
    if price >= off { (price - off) as u64 } else { 0 }
}

/// Price of the `i`-th simulated ask: above the price by the half-spread and `i` steps.
pub open spec fn sim_ask_price(price: u64, exchange: Exchange, i: int) -> u64 {
    (price + half_spread(exchange) + i * 10_000) as u64
}

/// The simulated book around `price` can be priced within `u64`.
pub open spec fn sim_price_fits(price: u64, exchange: Exchange) -> bool {
    price + half_spread(exchange) + 19 * 10_000 <= u64::MAX
}

/// `book` is the full simulated book around `price` with the given level quantities.
pub open spec fn sim_book_is(book: OrderBook, price: u64, exchange: Exchange, bid_qtys: Seq<u64>, ask_qtys: Seq<u64>) -> bool {
    &&& book.bid_count == MAX_DEPTH
    &&& book.ask_count == MAX_DEPTH
    &&& forall|i: int| 0 <= i < MAX_DEPTH ==> #[trigger] book.bids@[i] == BookUpdateLevel {
        price: Decimal(sim_bid_price(price, exchange, i)),
        quantity: Decimal(bid_qtys[i]),
    }
    &&& forall|i: int| 0 <= i < MAX_DEPTH ==> #[trigger] book.asks@[i] == BookUpdateLevel {
        price: Decimal(sim_ask_price(price, exchange, i)),
        quantity: Decimal(ask_qtys[i]),
    }
}

/// Every quantity lies in the simulator's quoting range.
pub open spec fn quantities_in_range(qtys: Seq<u64>) -> bool {
    forall|i: int| 0 <= i < qtys.len() ==> MIN_LEVEL_QTY <= #[trigger] qtys[i] < MAX_LEVEL_QTY
}

impl ExchangeSim {
    pub fn new(exchange: Exchange, symbol: Symbol, initial_price: Decimal) -> (sim: ExchangeSim)
        requires
            sim_price_fits(initial_price.0, exchange),
        ensures
            sim.exchange == exchange,
            sim.symbol == symbol,
            sim.current_price == initial_price,
            sim.resting_orders@.len() == 0,
            sim.order_id_counter == 0,
            exists|bid_qtys: Seq<u64>, ask_qtys: Seq<u64>|
                quantities_in_range(bid_qtys) && quantities_in_range(ask_qtys) && sim_book_is(
                    sim.book,
                    initial_price.0,
                    exchange,
                    bid_qtys,
                    ask_qtys,
                ),
    {
        let mut sim = ExchangeSim {
            exchange,
            symbol,
            current_price: initial_price,
            book: OrderBook::new(),
            resting_orders: Vec::with_capacity(100),
            order_id_counter: 0,
        };
        sim.regenerate_book();
        sim
    }

    /// Rebuilds the book around the current price with the given level quantities.
    pub fn set_book_levels(&mut self, bid_qtys: &[u64; 20], ask_qtys: &[u64; 20])
        requires
            sim_price_fits(old(self).current_price.0, old(self).exchange),
        ensures
            sim_book_is(final(self).book, old(self).current_price.0, old(self).exchange, bid_qtys@, ask_qtys@),
            final(self).exchange == old(self).exchange,
            final(self).symbol == old(self).symbol,
            final(self).current_price == old(self).current_price,
            final(self).resting_orders == old(self).resting_orders,
            final(self).order_id_counter == old(self).order_id_counter,
    {
        let price_raw = self.current_price.0;
        let empty = BookUpdateLevel { price: Decimal(0), quantity: Decimal(0) };
        let mut bids: [BookUpdateLevel; 20] = [empty; 20];
        let mut asks: [BookUpdateLevel; 20] = [empty; 20];
        // Binance has the tighter spread, Coinbase the wider one.
        let spread_offset: u64 = match self.exchange {
            Exchange::Binance => 10_000,
            Exchange::Coinbase => 30_000,
        };
        let mut i: usize = 0;
        while i < 20
            invariant
                i <= 20,
                price_raw == self.current_price.0,
                spread_offset == half_spread(self.exchange),
                sim_price_fits(price_raw, self.exchange),
                bids@.len() == 20,
                asks@.len() == 20,
                forall|t: int| 0 <= t < i ==> #[trigger] bids@[t] == (BookUpdateLevel {
                    price: Decimal(sim_bid_price(price_raw, self.exchange, t)),
                    quantity: Decimal(bid_qtys@[t]),
                }),
                forall|t: int| 0 <= t < i ==> #[trigger] asks@[t] == (BookUpdateLevel {
                    price: Decimal(sim_ask_price(price_raw, self.exchange, t)),
                    quantity: Decimal(ask_qtys@[t]),
                }),
            decreases 20 - i,
        {
            // Bids descend from the price less the half-spread, asks ascend from the
            // price plus the half-spread.
            let bid_price = price_raw.saturating_sub(spread_offset + (i as u64) * LEVEL_STEP);
            bids[i] = BookUpdateLevel { price: Decimal(bid_price), quantity: Decimal(bid_qtys[i]) };
            let ask_price = price_raw + spread_offset + (i as u64) * LEVEL_STEP;
            asks[i] = BookUpdateLevel { price: Decimal(ask_price), quantity: Decimal(ask_qtys[i]) };
            i = i + 1;
        }
        let update = BookUpdate {
            symbol: self.symbol,
            exchange: self.exchange,
            bids,
            asks,
            bid_count: 20,
            ask_count: 20,
            timestamp_ns: 0,
        };
        self.book.apply_update(&update);
    }

    /// Regenerates the book levels around the current price, each with a random
    /// quantity from 0.5 to 5.0.
    pub fn regenerate_book(&mut self)
        requires
            sim_price_fits(old(self).current_price.0, old(self).exchange),
        ensures
            exists|bid_qtys: Seq<u64>, ask_qtys: Seq<u64>|
                quantities_in_range(bid_qtys) && quantities_in_range(ask_qtys) && sim_book_is(
                    final(self).book,
                    old(self).current_price.0,
                    old(self).exchange,
                    bid_qtys,
                    ask_qtys,
                ),
            final(self).exchange == old(self).exchange,
            final(self).symbol == old(self).symbol,
            final(self).current_price == old(self).current_price,
            final(self).resting_orders == old(self).resting_orders,
            final(self).order_id_counter == old(self).order_id_counter,
    {
        let mut bid_qtys: [u64; 20] = [0; 20];
        let mut ask_qtys: [u64; 20] = [0; 20];
        let mut i: usize = 0;
        while i < 20
            invariant
                i <= 20,
                bid_qtys@.len() == 20,
                ask_qtys@.len() == 20,
                forall|t: int| 0 <= t < i ==> MIN_LEVEL_QTY <= #[trigger] bid_qtys@[t] < MAX_LEVEL_QTY,
                forall|t: int| 0 <= t < i ==> MIN_LEVEL_QTY <= #[trigger] ask_qtys@[t] < MAX_LEVEL_QTY,
            decreases 20 - i,
        {
            bid_qtys[i] = random_in_range(MIN_LEVEL_QTY, MAX_LEVEL_QTY);
            ask_qtys[i] = random_in_range(MIN_LEVEL_QTY, MAX_LEVEL_QTY);
            i = i + 1;
        }
        self.set_book_levels(&bid_qtys, &ask_qtys);
        assert(quantities_in_range(bid_qtys@));
        assert(quantities_in_range(ask_qtys@));
    }
}

/// Filling `qty` against `levels` in order: each level gives what is still needed
/// up to its quantity. Returns the filled quantity, its cost (quantity times price,
/// summed) and the quantity left unfilled.
pub open spec fn market_fill(levels: Seq<BookUpdateLevel>, qty: u64) -> (u64, int, u64)
    decreases levels.len(),
{
    if levels.len() == 0 {
        (0, 0, qty)
    } else {
        let (filled, cost, remaining) = market_fill(levels.drop_last(), qty);
        if remaining == 0 {
            (filled, cost, remaining)
        } else {
            let level = levels.last();
            let fill: u64 = if level.quantity.0 <= remaining { level.quantity.0 } else { remaining };
            ((filled + fill) as u64, cost + fill * level.price.0, (remaining - fill) as u64)
        }
    }
}

/// The acknowledgement sent for every incoming order.
pub open spec fn new_report(sim: ExchangeSim, req: OrderRequest, ex_id: u64, ts: u64) -> ExecutionReport {
    ExecutionReport {
        client_order_id: req.client_order_id,
        exchange_order_id: ex_id,
        symbol: req.symbol,
        exchange: sim.exchange,
        status: OrderStatus::New,
        last_qty: Decimal(0),
        last_price: Decimal(0),
        leaves_qty: req.quantity,
        cumulative_qty: Decimal(0),
        timestamp_ns: ts,
    }
}

/// The levels an order on `side` trades against: asks for a buy, bids for a sell.
pub open spec fn contra_levels(book: OrderBook, side: Side) -> Seq<BookUpdateLevel> {
    match side {
        Side::Buy => book.ask_levels(),
        Side::Sell => book.bid_levels(),
    }
}

/// The report on a market order: its fill at the average price (filled or partly
/// filled), or a rejection when the book has nothing on the other side.
pub open spec fn market_report(sim: ExchangeSim, req: OrderRequest, ex_id: u64, ts: u64) -> ExecutionReport {
    let (filled, cost, remaining) = market_fill(contra_levels(sim.book, req.side), req.quantity.0);
    if filled > 0 {
        ExecutionReport {
            client_order_id: req.client_order_id,
            exchange_order_id: ex_id,
            symbol: req.symbol,
            exchange: sim.exchange,
            status: if remaining == 0 { OrderStatus::Filled } else { OrderStatus::PartiallyFilled },
            last_qty: Decimal(filled),
            last_price: Decimal((cost / (filled as int)) as u64),
            leaves_qty: Decimal(remaining),
            cumulative_qty: Decimal(filled),
            timestamp_ns: ts,
        }
    } else {
        ExecutionReport {
            client_order_id: req.client_order_id,
            exchange_order_id: ex_id,
            symbol: req.symbol,
            exchange: sim.exchange,
            status: OrderStatus::Rejected,
            last_qty: Decimal(0),
            last_price: Decimal(0),
            leaves_qty: req.quantity,
            cumulative_qty: Decimal(0),
            timestamp_ns: ts,
        }
    }
}

/// A limit order crosses the book: a buy at or above the best ask, a sell at or
/// below the best bid.
pub open spec fn limit_crosses(book: OrderBook, req: OrderRequest) -> bool {
    match req.side {
        Side::Buy => book.ask_count > 0 && req.price.0 >= book.asks@[0].price.0,
        Side::Sell => book.bid_count > 0 && req.price.0 <= book.bids@[0].price.0,
    }
}

/// A complete fill of `order` at its own price.
pub open spec fn full_fill_report(order: OrderRequest, exchange: Exchange, ex_id: u64, ts: u64) -> ExecutionReport {
    ExecutionReport {
        client_order_id: order.client_order_id,
        exchange_order_id: ex_id,
        symbol: order.symbol,
        exchange,
        status: OrderStatus::Filled,
        last_qty: order.quantity,
        last_price: order.price,
        leaves_qty: Decimal(0),
        cumulative_qty: order.quantity,
        timestamp_ns: ts,
    }
}

/// The venue's reports on an incoming order, and whether it rests on the book: an
/// acknowledgement, then for a market order its fill or rejection, and for a limit
/// order an immediate full fill when it crosses the book; otherwise it rests.
pub open spec fn order_outcome(sim: ExchangeSim, req: OrderRequest, ts: u64) -> (Seq<ExecutionReport>, bool) {
    let ex_id = (sim.order_id_counter + 1) as u64;
    let ack = new_report(sim, req, ex_id, ts);
    match req.order_type {
        OrderType::Market => (seq![ack, market_report(sim, req, ex_id, ts)], false),
        OrderType::Limit => if limit_crosses(sim.book, req) {
            (seq![ack, full_fill_report(req, sim.exchange, ex_id, ts)], false)
        } else {
            (seq![ack], true)
        },
    }
}

impl ExchangeSim {
    /// Decides the venue's reaction to an incoming order: the reports it sends, in
    /// order, and the order resting on the venue when it neither fills nor crosses.
    pub fn order_reports(&mut self, req: OrderRequest, timestamp_ns: u64) -> (reports: Vec<ExecutionReport>)
        requires
            req.order_type == OrderType::Market ==> old(self).book.wf(),
            old(self).order_id_counter < u64::MAX,
        ensures
            reports@ == order_outcome(*old(self), req, timestamp_ns).0,
            final(self).resting_orders@ == if order_outcome(*old(self), req, timestamp_ns).1 {
                old(self).resting_orders@.push(req)
            } else {
                old(self).resting_orders@
            },
            final(self).order_id_counter == old(self).order_id_counter + 1,
            final(self).book == old(self).book,
            final(self).current_price == old(self).current_price,
            final(self).exchange == old(self).exchange,
            final(self).symbol == old(self).symbol,
    {
        self.order_id_counter = self.order_id_counter + 1;
        let ex_id = self.order_id_counter;
        let mut reports: Vec<ExecutionReport> = Vec::new();
        // The order is acknowledged at once.
        let report_new = ExecutionReport {
            client_order_id: req.client_order_id,
            exchange_order_id: ex_id,
            symbol: req.symbol,
            exchange: self.exchange,
            status: OrderStatus::New,
            last_qty: Decimal(0),
            last_price: Decimal(0),
            leaves_qty: req.quantity,
            cumulative_qty: Decimal(0),
            timestamp_ns,
        };
        reports.push(report_new);
        match req.order_type {
            OrderType::Market => {
                // Fill immediately against the book.
                let (filled_qty, total_cost, remaining) = self.sweep_book(req.side, req.quantity);
                if filled_qty.0 > 0 {
                    let avg_price = Decimal((total_cost / (filled_qty.0 as u128)) as u64);
                    let report_fill = ExecutionReport {
                        client_order_id: req.client_order_id,
                        exchange_order_id: ex_id,
                        symbol: req.symbol,
                        exchange: self.exchange,
                        status: if remaining.is_zero() { OrderStatus::Filled } else { OrderStatus::PartiallyFilled },
                        last_qty: filled_qty,
                        last_price: avg_price,
                        leaves_qty: remaining,
                        cumulative_qty: filled_qty,
                        timestamp_ns,
                    };
                    reports.push(report_fill);
                } else {
                    // No liquidity: the order is rejected.
                    let report_reject = ExecutionReport {
                        client_order_id: req.client_order_id,
                        exchange_order_id: ex_id,
                        symbol: req.symbol,
                        exchange: self.exchange,
                        status: OrderStatus::Rejected,
                        last_qty: Decimal(0),
                        last_price: Decimal(0),
                        leaves_qty: req.quantity,
                        cumulative_qty: Decimal(0),
                        timestamp_ns,
                    };
                    reports.push(report_reject);
                }
            },
            OrderType::Limit => {
                // A limit order that crosses the book fills at once.
                let mut can_fill = false;
                match req.side {
                    Side::Buy => {
                        if let Some(best_ask) = self.book.get_best_ask() {
                            if req.price.0 >= best_ask.price.0 {
                                can_fill = true;
                            }
                        }
                    },
                    Side::Sell => {
                        if let Some(best_bid) = self.book.get_best_bid() {
                            if req.price.0 <= best_bid.price.0 {
                                can_fill = true;
                            }
                        }
                    },
                }
                if can_fill {
                    let report_fill = ExecutionReport {
                        client_order_id: req.client_order_id,
                        exchange_order_id: ex_id,
                        symbol: req.symbol,
                        exchange: self.exchange,
                        status: OrderStatus::Filled,
                        last_qty: req.quantity,
                        last_price: req.price,
                        leaves_qty: Decimal(0),
                        cumulative_qty: req.quantity,
                        timestamp_ns,
                    };
                    reports.push(report_fill);
                } else {
                    // The order rests on the venue.
                    self.resting_orders.push(req);
                }
            },
        }
        reports
    }

    /// Sweeps the levels on the other side of the book for `quantity`.
    fn sweep_book(&self, side: Side, quantity: Decimal) -> (r: (Decimal, u128, Decimal))
        requires
            self.book.wf(),
        ensures
            ({
                let (filled, cost, remaining) = market_fill(contra_levels(self.book, side), quantity.0);
                &&& r.0.0 == filled
                &&& r.1 == cost
                &&& r.2.0 == remaining
                &&& filled > 0 ==> cost / (filled as int) <= u64::MAX
            }),
    {
        let ghost levels = contra_levels(self.book, side);
        let n = match side {
            Side::Buy => self.book.ask_count,
            Side::Sell => self.book.bid_count,
        };
        assert(self.book.bids@.len() == 20 && self.book.asks@.len() == 20);
        assert(levels.len() == n);
        let mut filled_qty = Decimal(0);
        let mut total_cost: u128 = 0;
        let mut remaining = quantity;
        let mut i: usize = 0;
        assert(levels.take(0) =~= Seq::<BookUpdateLevel>::empty());
        assert(levels.take(n as int) =~= levels);
        while i < n
            invariant
                i <= n <= 20,
                self.book.wf(),
                levels == contra_levels(self.book, side),
                levels.len() == n,
                levels.take(n as int) == levels,
                n == match side {
                    Side::Buy => self.book.ask_count,
                    Side::Sell => self.book.bid_count,
                },
                (filled_qty.0, total_cost as int, remaining.0) == market_fill(levels.take(i as int), quantity.0),
                filled_qty.0 + remaining.0 == quantity.0,
                total_cost <= filled_qty.0 * (u64::MAX as int),
            ensures
                (filled_qty.0, total_cost as int, remaining.0) == market_fill(levels, quantity.0),
                total_cost <= filled_qty.0 * (u64::MAX as int),
            decreases n - i,
        {
            assert(levels.take(i + 1).drop_last() =~= levels.take(i as int));
            if remaining.is_zero() {
                proof {
                    lemma_market_fill_settled(levels, quantity.0, i as int, n as int);
                }
                break;
            }
            let level = match side {
                Side::Buy => self.book.asks[i],
                Side::Sell => self.book.bids[i],
            };
            assert(level == levels[i as int]);
            let fill = level.quantity.min(remaining);
            assert(fill.0 * level.price.0 <= fill.0 * (u64::MAX as int)) by (nonlinear_arith)
                requires
                    level.price.0 <= u64::MAX,
            ;
            filled_qty = filled_qty + fill;
            total_cost = total_cost + (fill.0 as u128) * (level.price.0 as u128);
            remaining = remaining - fill;
            i = i + 1;
        }
        proof {
            let (filled, cost, rem) = market_fill(levels, quantity.0);
            if filled > 0 {
                assert(cost / (filled as int) <= u64::MAX) by (nonlinear_arith)
                    requires
                        cost <= filled * (u64::MAX as int),
                        filled > 0,
                ;
            }
        }
        (filled_qty, total_cost, remaining)
    }
}

proof fn lemma_market_fill_settled(levels: Seq<BookUpdateLevel>, qty: u64, i: int, j: int)
    requires
        0 <= i <= j <= levels.len(),
        market_fill(levels.take(i), qty).2 == 0,
    ensures
        market_fill(levels.take(j), qty) == market_fill(levels.take(i), qty),
    decreases j - i,
{
    if j > i {
        lemma_market_fill_settled(levels, qty, i, j - 1);
        assert(levels.take(j).drop_last() =~= levels.take(j - 1));
    }
}

/// A resting order is reached by the price: a buy at or above it, a sell at or below it.
pub open spec fn price_reaches(order: OrderRequest, price: u64) -> bool {
    match order.side {
        Side::Buy => price <= order.price.0,
        Side::Sell => price >= order.price.0,
    }
}

/// Scanning the resting orders from position `i`: a reached order is filled and the
/// last order takes its place (and is looked at next); any other is kept. Returns
/// the orders left resting and the filled ones in the order they were filled.
pub open spec fn scan_resting(orders: Seq<OrderRequest>, i: int, price: u64) -> (Seq<OrderRequest>, Seq<OrderRequest>)
    decreases orders.len() - i,
    when 0 <= i
{
    if i >= orders.len() {
        (orders, Seq::empty())
    } else if price_reaches(orders[i], price) {
        let (rest, filled) = scan_resting(orders.update(i, orders.last()).drop_last(), i, price);
        (rest, seq![orders[i]] + filled)
    } else {
        scan_resting(orders, i + 1, price)
    }
}

impl ExchangeSim {
    /// Fills every resting order the current price reaches, at the order's own price.
    pub fn match_resting_orders(&mut self, timestamp_ns: u64) -> (reports: Vec<ExecutionReport>)
        requires
            old(self).order_id_counter + scan_resting(old(self).resting_orders@, 0, old(self).current_price.0).1.len()
                <= u64::MAX,
        ensures
            ({
                let (rest, filled) = scan_resting(old(self).resting_orders@, 0, old(self).current_price.0);
                let c0 = old(self).order_id_counter;
                &&& final(self).resting_orders@ == rest
                &&& reports@.len() == filled.len()
                &&& forall|k: int| 0 <= k < filled.len() ==> #[trigger] reports@[k] == full_fill_report(
                    filled[k],
                    filled[k].exchange,
                    (c0 + k + 1) as u64,
                    timestamp_ns,
                )
                &&& final(self).order_id_counter == c0 + filled.len()
            }),
            final(self).book == old(self).book,
            final(self).current_price == old(self).current_price,
            final(self).exchange == old(self).exchange,
            final(self).symbol == old(self).symbol,
    {
        let ghost c0 = self.order_id_counter;
        let price = self.current_price.0;
        let filled = take_filled(&mut self.resting_orders, price);
        let mut reports: Vec<ExecutionReport> = Vec::new();
        let mut k: usize = 0;
        while k < filled.len()
            invariant
                k <= filled@.len(),
                c0 == old(self).order_id_counter,
                self.resting_orders@ == scan_resting(old(self).resting_orders@, 0, old(self).current_price.0).0,
                filled@ == scan_resting(old(self).resting_orders@, 0, old(self).current_price.0).1,
                self.book == old(self).book,
                self.current_price == old(self).current_price,
                self.exchange == old(self).exchange,
                self.symbol == old(self).symbol,
                c0 + filled@.len() <= u64::MAX,
                self.order_id_counter == c0 + k,
                reports@.len() == k,
                forall|t: int| 0 <= t < k ==> #[trigger] reports@[t] == full_fill_report(
                    filled@[t],
                    filled@[t].exchange,
                    (c0 + t + 1) as u64,
                    timestamp_ns,
                ),
            decreases filled@.len() - k,
        {
            let order = filled[k];
            self.order_id_counter = self.order_id_counter + 1;
            let report = ExecutionReport {
                client_order_id: order.client_order_id,
                exchange_order_id: self.order_id_counter,
                symbol: order.symbol,
                exchange: order.exchange,
                status: OrderStatus::Filled,
                last_qty: order.quantity,
                last_price: order.price,
                leaves_qty: Decimal(0),
                cumulative_qty: order.quantity,
                timestamp_ns,
            };
            reports.push(report);
            k = k + 1;
        }
        reports
    }
}

/// `i` is the first resting order with client order id `id`.
pub open spec fn is_first_order_with_id(orders: Seq<OrderRequest>, id: u64, i: int) -> bool {
    &&& 0 <= i < orders.len()
    &&& orders[i].client_order_id == id
    &&& forall|j: int| 0 <= j < i ==> orders[j].client_order_id != id
}

/// Position of the first resting order with id `id`, or the number of orders when none has it.
pub open spec fn order_index(orders: Seq<OrderRequest>, id: u64) -> int {
    if exists|i: int| is_first_order_with_id(orders, id, i) {
        choose|i: int| is_first_order_with_id(orders, id, i)
    } else {
        orders.len() as int
    }
}

/// The confirmation of a cancelled resting order.
pub open spec fn cancel_confirmation(order: OrderRequest, exchange: Exchange, ex_id: u64, ts: u64) -> ExecutionReport {
    ExecutionReport {
        client_order_id: order.client_order_id,
        exchange_order_id: ex_id,
        symbol: order.symbol,
        exchange,
        status: OrderStatus::Cancelled,
        last_qty: Decimal(0),
        last_price: Decimal(0),
        leaves_qty: Decimal(0),
        cumulative_qty: Decimal(0),  // nothing is assumed filled while resting
        timestamp_ns: ts,
    }
}

/// The price after one random-walk step of `pct` thousandths of a percent: the
/// change is truncated toward zero and the price never drops below one raw unit.
pub open spec fn walked_price(price: u64, pct: int) -> u64 {
    let x = (price as i64) as int;
    let prod = x * pct;
    let delta = if prod >= 0 { prod / 100_000 } else { -((-prod) / 100_000) };
    if x + delta >= 1 { (x + delta) as u64 } else { 1 }
}

/// A random-walk step cannot overflow: the price, read as a signed number, can be
/// scaled by the largest step in either direction.
pub open spec fn walk_fits(price: u64) -> bool {
    -(i64::MAX as int) <= ((price as i64) as int) * 20 <= i64::MAX
}

impl ExchangeSim {
    /// Decides the reaction to a cancellation: the first resting order with the id is
    /// removed (the last order takes its place) and confirmed; an unknown id changes nothing.
    pub fn cancel_report(&mut self, client_order_id: u64, timestamp_ns: u64) -> (r: Option<ExecutionReport>)
        requires
            order_index(old(self).resting_orders@, client_order_id) < old(self).resting_orders@.len()
                ==> old(self).order_id_counter < u64::MAX,
        ensures
            ({
                let orders = old(self).resting_orders@;
                let i = order_index(orders, client_order_id);
                if i < orders.len() {
                    &&& final(self).resting_orders@ == orders.update(i, orders.last()).drop_last()
                    &&& final(self).order_id_counter == old(self).order_id_counter + 1
                    &&& r == Some(cancel_confirmation(orders[i], old(self).exchange, (old(self).order_id_counter + 1) as u64, timestamp_ns))
                } else {
                    &&& final(self).resting_orders == old(self).resting_orders
                    &&& final(self).order_id_counter == old(self).order_id_counter
                    &&& r is None
                }
            }),
            final(self).book == old(self).book,
            final(self).current_price == old(self).current_price,
            final(self).exchange == old(self).exchange,
            final(self).symbol == old(self).symbol,
    {
        let idx = find_order(&self.resting_orders, client_order_id);
        if idx < self.resting_orders.len() {
            let req = self.resting_orders.swap_remove(idx);
            self.order_id_counter = self.order_id_counter + 1;
            Some(
                ExecutionReport {
                    client_order_id,
                    exchange_order_id: self.order_id_counter,
                    symbol: req.symbol,
                    exchange: self.exchange,
                    status: OrderStatus::Cancelled,
                    last_qty: Decimal(0),
                    last_price: Decimal(0),
                    leaves_qty: Decimal(0),
                    cumulative_qty: Decimal(0),
                    timestamp_ns,
                },
            )
        } else {
            None
        }
    }

    /// Handles a cancellation request: the confirmation, if any, goes to the input
    /// queue (and is dropped when the queue is full).
    pub fn handle_cancel(&mut self, client_order_id: u64, timestamp_ns: u64, input_queue: &Arc<ArrayQueue<MarketEvent>>)
        requires
            order_index(old(self).resting_orders@, client_order_id) < old(self).resting_orders@.len()
                ==> old(self).order_id_counter < u64::MAX,
        ensures
            ({
                let orders = old(self).resting_orders@;
                let i = order_index(orders, client_order_id);
                if i < orders.len() {
                    &&& final(self).resting_orders@ == orders.update(i, orders.last()).drop_last()
                    &&& final(self).order_id_counter == old(self).order_id_counter + 1
                } else {
                    &&& final(self).resting_orders == old(self).resting_orders
                    &&& final(self).order_id_counter == old(self).order_id_counter
                }
            }),
            final(self).book == old(self).book,
            final(self).current_price == old(self).current_price,
            final(self).exchange == old(self).exchange,
            final(self).symbol == old(self).symbol,
    {
        if let Some(report) = self.cancel_report(client_order_id, timestamp_ns) {
            let _ = queue_push(input_queue, MarketEvent::ExecutionReport(report));
        }
    }

    /// Handles an incoming order request from the execution loop: the reports go to
    /// the input queue (any the full queue refuses are dropped).
    pub fn handle_order_request(&mut self, req: OrderRequest, timestamp_ns: u64, input_queue: &Arc<ArrayQueue<MarketEvent>>)
        requires
            req.order_type == OrderType::Market ==> old(self).book.wf(),
            old(self).order_id_counter < u64::MAX,
        ensures
            final(self).resting_orders@ == if order_outcome(*old(self), req, timestamp_ns).1 {
                old(self).resting_orders@.push(req)
            } else {
                old(self).resting_orders@
            },
            final(self).order_id_counter == old(self).order_id_counter + 1,
            final(self).book == old(self).book,
            final(self).current_price == old(self).current_price,
            final(self).exchange == old(self).exchange,
            final(self).symbol == old(self).symbol,
    {
        let reports = self.order_reports(req, timestamp_ns);
        let mut i: usize = 0;
        while i < reports.len()
            invariant
                i <= reports@.len(),
            decreases reports@.len() - i,
        {
            let _ = queue_push(input_queue, MarketEvent::ExecutionReport(reports[i]));
            i = i + 1;
        }
    }
}

/// The market data the simulator publishes on a tick, in order: the new book, the
/// drawn public trade (if any) at the best ask for a buy or the best bid for a sell,
/// then the fills of the resting orders the new price reached.
pub open spec fn tick_events(
    before: ExchangeSim,
    after: ExchangeSim,
    timestamp_ns: u64,
    trade: Option<(Decimal, Side)>,
    reports: Seq<ExecutionReport>,
) -> Seq<MarketEvent> {
    let book_event = MarketEvent::BookUpdate(
        BookUpdate {
            symbol: before.symbol,
            exchange: before.exchange,
            bids: after.book.bids,
            asks: after.book.asks,
            bid_count: after.book.bid_count,
            ask_count: after.book.ask_count,
            timestamp_ns,
        },
    );
    let trades = match trade {
        Some((quantity, side)) => seq![
            MarketEvent::Trade(
                MarketTrade {
                    symbol: before.symbol,
                    exchange: before.exchange,
                    price: match side {
                        Side::Buy => after.book.asks@[0].price,
                        Side::Sell => after.book.bids@[0].price,
                    },
                    quantity,
                    side,
                    timestamp_ns,
                },
            )
        ],
        None => Seq::empty(),
    };
    seq![book_event] + trades + reports.map_values(|r: ExecutionReport| MarketEvent::ExecutionReport(r))
}

impl ExchangeSim {
    /// One simulation step with its random draws given: the price walks by `pct`,
    /// the book is rebuilt with the drawn quantities, and the resting orders the new
    /// price reaches are filled. Returns the events to publish.
    pub fn step(
        &mut self,
        timestamp_ns: u64,
        pct: i64,
        bid_qtys: &[u64; 20],
        ask_qtys: &[u64; 20],
        trade: Option<(Decimal, Side)>,
    ) -> (events: Vec<MarketEvent>)
        requires
            -20 <= pct <= 20,
            walk_fits(old(self).current_price.0),
            old(self).order_id_counter + scan_resting(
                old(self).resting_orders@,
                0,
                walked_price(old(self).current_price.0, pct as int),
            ).1.len() <= u64::MAX,
        ensures
            ({
                let price = walked_price(old(self).current_price.0, pct as int);
                let (rest, filled) = scan_resting(old(self).resting_orders@, 0, price);
                let c0 = old(self).order_id_counter;
                &&& final(self).current_price == Decimal(price)
                &&& sim_book_is(final(self).book, price, old(self).exchange, bid_qtys@, ask_qtys@)
                &&& final(self).resting_orders@ == rest
                &&& final(self).order_id_counter == c0 + filled.len()
                &&& exists|reports: Seq<ExecutionReport>| {
                    &&& reports.len() == filled.len()
                    &&& (forall|k: int| 0 <= k < filled.len() ==> #[trigger] reports[k] == full_fill_report(
                        filled[k],
                        filled[k].exchange,
                        (c0 + k + 1) as u64,
                        timestamp_ns,
                    ))
                    &&& events@ == tick_events(*old(self), *final(self), timestamp_ns, trade, reports)
                }
            }),
            final(self).exchange == old(self).exchange,
            final(self).symbol == old(self).symbol,
    {
        // Random walk of the price.
        self.current_price = Decimal(walk_price(self.current_price.0, pct));
        assert(self.current_price.0 == walked_price(old(self).current_price.0, pct as int));
        let mut events: Vec<MarketEvent> = Vec::new();
        self.set_book_levels(bid_qtys, ask_qtys);
        // 1. The new book.
        let book_event = MarketEvent::BookUpdate(
            BookUpdate {
                symbol: self.symbol,
                exchange: self.exchange,
                bids: self.book.bids,
                asks: self.book.asks,
                bid_count: self.book.bid_count,
                ask_count: self.book.ask_count,
                timestamp_ns,
            },
        );
        events.push(book_event);
        // 2. The public trade, if one was drawn.
        if let Some((quantity, side)) = trade {
            let trade_price = match side {
                Side::Buy => self.book.asks[0].price,
                Side::Sell => self.book.bids[0].price,
            };
            events.push(
                MarketEvent::Trade(
                    MarketTrade {
                        symbol: self.symbol,
                        exchange: self.exchange,
                        price: trade_price,
                        quantity,
                        side,
                        timestamp_ns,
                    },
                ),
            );
        }
        let ghost head = events@;
        // 3. Fills of the resting orders the price reached.
        let reports = self.match_resting_orders(timestamp_ns);
        let mut i: usize = 0;
        while i < reports.len()
            invariant
                i <= reports@.len(),
                events@ == head + reports@.take(i as int).map_values(|r: ExecutionReport| MarketEvent::ExecutionReport(r)),
            decreases reports@.len() - i,
        {
            events.push(MarketEvent::ExecutionReport(reports[i]));
            proof {
                assert(reports@.take(i + 1).map_values(|r: ExecutionReport| MarketEvent::ExecutionReport(r))
                    =~= reports@.take(i as int).map_values(|r: ExecutionReport| MarketEvent::ExecutionReport(r)).push(
                    MarketEvent::ExecutionReport(reports@[i as int]),
                ));
            }
            i = i + 1;
        }
        proof {
            assert(reports@.take(reports@.len() as int) =~= reports@);
            assert(events@ =~= tick_events(*old(self), *self, timestamp_ns, trade, reports@));
        }
        events
    }
}

/// Smallest and one past the largest public trade the simulator draws (0.1 to 1.5).
pub const MIN_TRADE_QTY: u64 = 10_000_000;
pub const MAX_TRADE_QTY: u64 = 150_000_000;

/// `after` is `before` after a tick with the walk step `pct` and the level
/// quantities drawn: the new price and book, and the resting orders it reached filled.
pub open spec fn ticked_with(before: ExchangeSim, after: ExchangeSim, pct: int, bid_qtys: Seq<u64>, ask_qtys: Seq<u64>) -> bool {
    let price = walked_price(before.current_price.0, pct);
    let (rest, filled) = scan_resting(before.resting_orders@, 0, price);
    &&& -20 <= pct <= 20
    &&& quantities_in_range(bid_qtys)
    &&& quantities_in_range(ask_qtys)
    &&& after.current_price == Decimal(price)
    &&& sim_book_is(after.book, price, before.exchange, bid_qtys, ask_qtys)
    &&& after.resting_orders@ == rest
    &&& after.order_id_counter == before.order_id_counter + filled.len()
}

impl ExchangeSim {
    /// Ticks the simulated price by a random walk of at most 0.02% either way,
    /// rebuilds the book, sometimes (30% of ticks) draws a public trade, fills the
    /// resting orders the new price reaches, and publishes all of it on the input
    /// queue (events the full queue refuses are dropped).
    pub fn tick(&mut self, timestamp_ns: u64, input_queue: &Arc<ArrayQueue<MarketEvent>>) -> (r: Option<MarketEvent>)
        requires
            walk_fits(old(self).current_price.0),
            forall|pct: int|
                -20 <= pct <= 20 ==> old(self).order_id_counter + (#[trigger] scan_resting(
                    old(self).resting_orders@,
                    0,
                    walked_price(old(self).current_price.0, pct),
                )).1.len() <= u64::MAX,
        ensures
            r is None,
            exists|pct: int, bid_qtys: Seq<u64>, ask_qtys: Seq<u64>|
                #[trigger] ticked_with(*old(self), *final(self), pct, bid_qtys, ask_qtys),
            final(self).exchange == old(self).exchange,
            final(self).symbol == old(self).symbol,
    {
        // Price change: a random walk of -0.02% to +0.02%.
        let pct: i64 = (random_in_range(0, 41) as i64) - 20;
        let mut bid_qtys: [u64; 20] = [0; 20];
        let mut ask_qtys: [u64; 20] = [0; 20];
        let mut i: usize = 0;
        while i < 20
            invariant
                i <= 20,
                bid_qtys@.len() == 20,
                ask_qtys@.len() == 20,
                forall|t: int| 0 <= t < i ==> MIN_LEVEL_QTY <= #[trigger] bid_qtys@[t] < MAX_LEVEL_QTY,
                forall|t: int| 0 <= t < i ==> MIN_LEVEL_QTY <= #[trigger] ask_qtys@[t] < MAX_LEVEL_QTY,
            decreases 20 - i,
        {
            bid_qtys[i] = random_in_range(MIN_LEVEL_QTY, MAX_LEVEL_QTY);
            ask_qtys[i] = random_in_range(MIN_LEVEL_QTY, MAX_LEVEL_QTY);
            i = i + 1;
        }
        // A public trade now and then.
        let trade: Option<(Decimal, Side)> = if random_ratio(3, 10) {
            let trade_qty = random_in_range(MIN_TRADE_QTY, MAX_TRADE_QTY);
            let side = if random_ratio(1, 2) { Side::Buy } else { Side::Sell };
            Some((Decimal(trade_qty), side))
        } else {
            None
        };
        assert(old(self).order_id_counter + scan_resting(
            old(self).resting_orders@,
            0,
            walked_price(old(self).current_price.0, pct as int),
        ).1.len() <= u64::MAX);
        let events = self.step(timestamp_ns, pct, &bid_qtys, &ask_qtys, trade);
        assert(quantities_in_range(bid_qtys@));
        assert(quantities_in_range(ask_qtys@));
        assert(ticked_with(*old(self), *self, pct as int, bid_qtys@, ask_qtys@));
        let mut k: usize = 0;
        while k < events.len()
            invariant
                k <= events@.len(),
            decreases events@.len() - k,
        {
            let _ = queue_push(input_queue, events[k]);
            k = k + 1;
        }
        None
    }
}

/// Scanning the resting orders splits them: every filled order was reached by the
/// price, none left resting is, and together they are exactly the orders scanned.
pub proof fn lemma_scan_partitions(orders: Seq<OrderRequest>, i: int, price: u64)
    requires
        0 <= i <= orders.len(),
        forall|t: int| 0 <= t < i ==> !price_reaches(#[trigger] orders[t], price),
    ensures
        ({
            let (rest, filled) = scan_resting(orders, i, price);
            &&& forall|t: int| 0 <= t < filled.len() ==> price_reaches(#[trigger] filled[t], price)
            &&& forall|t: int| 0 <= t < rest.len() ==> !price_reaches(#[trigger] rest[t], price)
            &&& rest.to_multiset().add(filled.to_multiset()) == orders.to_multiset()
        }),
    decreases orders.len() - i,
{
    broadcast use vstd::multiset::group_multiset_axioms;
    if i >= orders.len() {
        vstd::seq_lib::to_multiset_len(Seq::<OrderRequest>::empty());
        vstd::multiset::lemma_multiset_empty_len(Seq::<OrderRequest>::empty().to_multiset());
        assert(orders.to_multiset().add(vstd::multiset::Multiset::empty()) =~= orders.to_multiset());
    } else if price_reaches(orders[i], price) {
        let next = orders.update(i, orders.last()).drop_last();
        assert forall|t: int| 0 <= t < i implies !price_reaches(#[trigger] next[t], price) by {
            assert(next[t] == orders[t]);
        }
        lemma_scan_partitions(next, i, price);
        let (rest, filled) = scan_resting(next, i, price);
        let all_filled = seq![orders[i]] + filled;
        assert forall|t: int| 0 <= t < all_filled.len() implies price_reaches(#[trigger] all_filled[t], price) by {
            if t > 0 {
                assert(all_filled[t] == filled[t - 1]);
            }
        }
        let o = orders[i];
        let last = orders.last();
        let upd = orders.update(i, last);
        vstd::seq_lib::lemma_multiset_commutative(seq![o], filled);
        vstd::seq_lib::to_multiset_update(orders, i, last);
        assert(upd =~= next.push(last));
        vstd::seq_lib::to_multiset_build(next, last);
        vstd::seq_lib::to_multiset_contains(orders, o);
        assert(orders.contains(o));
        assert forall|x: OrderRequest| #[trigger] next.to_multiset().count(x) == orders.to_multiset().remove(o).count(x) by {
            assert(upd.to_multiset().count(x) == next.to_multiset().insert(last).count(x));
            assert(upd.to_multiset().count(x) == orders.to_multiset().insert(last).remove(o).count(x));
        }
        assert(next.to_multiset() =~= orders.to_multiset().remove(o));
        assert(seq![o].to_multiset() =~= vstd::multiset::Multiset::singleton(o)) by {
            assert(seq![o] =~= Seq::<OrderRequest>::empty().push(o));
            vstd::seq_lib::to_multiset_build(Seq::<OrderRequest>::empty(), o);
            vstd::seq_lib::to_multiset_len(Seq::<OrderRequest>::empty());
            vstd::multiset::lemma_multiset_empty_len(Seq::<OrderRequest>::empty().to_multiset());
        }
        assert(orders.to_multiset().count(o) > 0);
        assert forall|x: OrderRequest| #[trigger] rest.to_multiset().add(all_filled.to_multiset()).count(x)
            == orders.to_multiset().count(x) by {
            assert(all_filled.to_multiset().count(x) == seq![o].to_multiset().count(x) + filled.to_multiset().count(x));
            assert(rest.to_multiset().count(x) + filled.to_multiset().count(x) == next.to_multiset().count(x));
        }
        assert(rest.to_multiset().add(all_filled.to_multiset()) =~= orders.to_multiset());
    } else {
        assert forall|t: int| 0 <= t < i + 1 implies !price_reaches(#[trigger] orders[t], price) by {}
        lemma_scan_partitions(orders, i + 1, price);
    }
}

/// A market order fills what the book offers up to its quantity: filled and unfilled
/// add up to the order, and something is left unfilled only when the whole side was taken.
pub proof fn lemma_market_fill_conserves(levels: Seq<BookUpdateLevel>, qty: u64)
    ensures
        ({
            let (filled, cost, remaining) = market_fill(levels, qty);
            &&& filled + remaining == qty
            &&& remaining == 0 || filled == crate::sor::levels_total(levels)
        }),
    decreases levels.len(),
{
    if levels.len() > 0 {
        lemma_market_fill_conserves(levels.drop_last(), qty);
    }
}

/// The price after a random-walk step of `pct` hundred-thousandths.
fn walk_price(price: u64, pct: i64) -> (r: u64)
    requires
        -20 <= pct <= 20,
        walk_fits(price),
    ensures
        r == walked_price(price, pct as int),
        1 <= r <= i64::MAX,
{
    let x: i64 = price as i64;
    assert(-(i64::MAX as int) <= x * 20 <= i64::MAX);
    assert(-(i64::MAX as int) <= x * pct <= i64::MAX) by (nonlinear_arith)
        requires
            -(i64::MAX as int) <= x * 20 <= i64::MAX,
            -20 <= pct <= 20,
    ;
    let prod: i64 = x * pct;
    let delta: i64 = prod / 100_000;
    assert(-20 * x <= 100_000 * delta <= 20 * x || 20 * x <= 100_000 * delta <= -20 * x) by (nonlinear_arith)
        requires
            prod == x * pct,
            -20 <= pct <= 20,
            delta == if prod >= 0 { prod / 100_000 } else { -((-prod) / 100_000) },
    ;
    let moved: i64 = x + delta;
    let new_price: i64 = if moved >= 1 { moved } else { 1 };
    new_price as u64
}

/// Position of the first order with client order id `id`, or the number of orders.
fn find_order(orders: &Vec<OrderRequest>, id: u64) -> (idx: usize)
    ensures
        idx == order_index(orders@, id),
{
    let ghost all = orders@;
    let mut idx: usize = 0;
    while idx < orders.len()
        invariant_except_break
            forall|j: int| 0 <= j < idx ==> all[j].client_order_id != id,
        invariant
            idx <= all.len(),
            orders@ == all,
        ensures
            idx <= all.len(),
            idx < all.len() ==> is_first_order_with_id(all, id, idx as int),
            idx == all.len() ==> forall|j: int| 0 <= j < all.len() ==> all[j].client_order_id != id,
        decreases all.len() - idx,
    {
        if orders[idx].client_order_id == id {
            break;
        }
        idx = idx + 1;
    }
    proof {
        if idx < all.len() {
            let c = choose|c: int| is_first_order_with_id(all, id, c);
            assert(is_first_order_with_id(all, id, c));
            if c < idx {
            } else if c > idx {
            }
        } else if exists|c: int| is_first_order_with_id(all, id, c) {
            let c = choose|c: int| is_first_order_with_id(all, id, c);
            assert(all[c].client_order_id == id);
        }
    }
    idx
}

/// Removes from `orders` every order a move of the price to `price` fills, and
/// returns them in the order they were filled.
fn take_filled(orders: &mut Vec<OrderRequest>, price: u64) -> (filled: Vec<OrderRequest>)
    ensures
        final(orders)@ == scan_resting(old(orders)@, 0, price).0,
        filled@ == scan_resting(old(orders)@, 0, price).1,
{
    let ghost all = scan_resting(orders@, 0, price);
    let mut filled: Vec<OrderRequest> = Vec::new();
    let mut i: usize = 0;
    assert(all.1 =~= filled@ + scan_resting(orders@, i as int, price).1);
    while i < orders.len()
        invariant
            i <= orders@.len(),
            all == scan_resting(old(orders)@, 0, price),
            all.0 == scan_resting(orders@, i as int, price).0,
            all.1 == filled@ + scan_resting(orders@, i as int, price).1,
        decreases orders@.len() - i,
    {
        let order = orders[i];
        let is_filled = match order.side {
            Side::Buy => price <= order.price.0,
            Side::Sell => price >= order.price.0,
        };
        if is_filled {
            let ghost cur = orders@;
            let ghost tail = scan_resting(cur.update(i as int, cur.last()).drop_last(), i as int, price);
            assert(scan_resting(cur, i as int, price) == (tail.0, seq![cur[i as int]] + tail.1));
            orders.swap_remove(i);
            assert(orders@ == cur.update(i as int, cur.last()).drop_last());
            let ghost before = filled@;
            filled.push(order);
            assert(all.1 =~= filled@ + tail.1) by {
                assert(filled@ == before.push(order));
            }
        } else {
            i = i + 1;
        }
    }
    assert(scan_resting(orders@, i as int, price).1 =~= Seq::<OrderRequest>::empty());
    assert(filled@ =~= all.1);
    filled
}

/// How many of `orders` a move of the price to `price` fills.
fn filled_count(orders: &Vec<OrderRequest>, price: u64) -> (n: usize)
    ensures
        n == scan_resting(orders@, 0, price).1.len(),
{
    let mut work: Vec<OrderRequest> = Vec::new();
    let mut k: usize = 0;
    while k < orders.len()
        invariant
            k <= orders@.len(),
            work@ == orders@.take(k as int),
        decreases orders@.len() - k,
    {
        work.push(orders[k]);
        k = k + 1;
        assert(work@ =~= orders@.take(k as int));
    }
    assert(work@ =~= orders@);
    let filled = take_filled(&mut work, price);
    filled.len()
}

impl ExchangeSim {
    /// Whether a venue can be opened at `initial_price` (`new` prices the book around it).
    pub fn price_fits(exchange: Exchange, initial_price: Decimal) -> (b: bool)
        ensures
            b == sim_price_fits(initial_price.0, exchange),
    {
        let spread: u64 = match exchange {
            Exchange::Binance => 10_000,
            Exchange::Coinbase => 30_000,
        };
        initial_price.0 <= u64::MAX - spread - 19 * LEVEL_STEP
    }

    /// Whether `handle_order_request` (or `order_reports`) can take `req`.
    pub fn can_take_order(&self, req: &OrderRequest) -> (b: bool)
        ensures
            b == ((req.order_type == OrderType::Market ==> self.book.wf()) && self.order_id_counter < u64::MAX),
    {
        let market = match req.order_type {
            OrderType::Market => true,
            OrderType::Limit => false,
        };
        (!market || (self.book.bid_count <= MAX_DEPTH && self.book.ask_count <= MAX_DEPTH))
            && self.order_id_counter < u64::MAX
    }

    /// Whether `handle_cancel` (or `cancel_report`) can take a cancellation of `client_order_id`.
    pub fn can_cancel(&self, client_order_id: u64) -> (b: bool)
        ensures
            b == (order_index(self.resting_orders@, client_order_id) < self.resting_orders@.len()
                ==> self.order_id_counter < u64::MAX),
    {
        let idx = find_order(&self.resting_orders, client_order_id);
        idx == self.resting_orders.len() || self.order_id_counter < u64::MAX
    }

    /// Whether `tick` can be called: the walk cannot overflow, and whatever step is
    /// drawn, the fills it causes can be numbered.
    pub fn can_tick(&self) -> (b: bool)
        ensures
            b == (walk_fits(self.current_price.0) && forall|pct: int|
                -20 <= pct <= 20 ==> self.order_id_counter + (#[trigger] scan_resting(
                    self.resting_orders@,
                    0,
                    walked_price(self.current_price.0, pct),
                )).1.len() <= u64::MAX),
    {
        let x: i128 = (self.current_price.0 as i64) as i128;
        if x * 20 < -(i64::MAX as i128) || x * 20 > i64::MAX as i128 {
            return false;
        }
        let mut pct: i64 = -20;
        while pct <= 20
            invariant
                -20 <= pct <= 21,
                walk_fits(self.current_price.0),
                forall|p: int|
                    -20 <= p < pct ==> self.order_id_counter + (#[trigger] scan_resting(
                        self.resting_orders@,
                        0,
                        walked_price(self.current_price.0, p),
                    )).1.len() <= u64::MAX,
            decreases 21 - pct,
        {
            let np = walk_price(self.current_price.0, pct);
            let n = filled_count(&self.resting_orders, np);
            if n as u128 > (u64::MAX - self.order_id_counter) as u128 {
                assert(scan_resting(self.resting_orders@, 0, walked_price(self.current_price.0, pct as int)).1.len()
                    == n);
                return false;
            }
            pct = pct + 1;
        }
        true
    }
}

/// An incoming limit order is acknowledged, then fills in full at its own price
/// exactly when it is marketable: a buy at or above the best ask, a sell at or below
/// the best bid. Otherwise only the acknowledgement goes out and the order rests.
pub proof fn lemma_limit_order_fills_iff_marketable(sim: ExchangeSim, req: OrderRequest, ts: u64)
    requires
        req.order_type == OrderType::Limit,
    ensures
        ({
            let (reports, rests) = order_outcome(sim, req, ts);
            let marketable = match req.side {
                Side::Buy => sim.book.ask_count > 0 && req.price.0 >= sim.book.asks@[0].price.0,
                Side::Sell => sim.book.bid_count > 0 && req.price.0 <= sim.book.bids@[0].price.0,
            };
            &&& reports.len() >= 1
            &&& reports[0].status == OrderStatus::New
            &&& reports[0].client_order_id == req.client_order_id
            &&& reports[0].leaves_qty == req.quantity
            &&& reports[0].last_qty.0 == 0
            &&& rests == !marketable
            &&& marketable ==> {
                &&& reports.len() == 2
                &&& reports[1].status == OrderStatus::Filled
                &&& reports[1].client_order_id == req.client_order_id
                &&& reports[1].last_qty == req.quantity
                &&& reports[1].last_price == req.price
                &&& reports[1].cumulative_qty == req.quantity
                &&& reports[1].leaves_qty.0 == 0
            }
            &&& !marketable ==> reports.len() == 1
        }),
{
}

/// A market order never rests: after the acknowledgement, one report says what was
/// filled and what is left, which add up to the order's quantity. It is rejected,
/// with nothing filled, when nothing could be taken (always so when the other side
/// of the book is empty); it is filled when nothing is left, else partly filled.
pub proof fn lemma_market_order_outcome(sim: ExchangeSim, req: OrderRequest, ts: u64)
    requires
        req.order_type == OrderType::Market,
    ensures
        ({
            let (reports, rests) = order_outcome(sim, req, ts);
            let r = reports[1];
            &&& !rests
            &&& reports.len() == 2
            &&& reports[0].status == OrderStatus::New
            &&& r.client_order_id == req.client_order_id
            &&& r.last_qty.0 + r.leaves_qty.0 == req.quantity.0
            &&& r.cumulative_qty == r.last_qty
            &&& (r.status == OrderStatus::Rejected) == (r.last_qty.0 == 0)
            &&& r.status == OrderStatus::Filled ==> r.leaves_qty.0 == 0 && r.last_qty == req.quantity
            &&& r.status == OrderStatus::PartiallyFilled ==> r.leaves_qty.0 > 0 && r.last_qty.0 > 0
            &&& r.status == OrderStatus::Rejected || r.status == OrderStatus::Filled || r.status
                == OrderStatus::PartiallyFilled
            &&& (match req.side {
                Side::Buy => sim.book.ask_count == 0,
                Side::Sell => sim.book.bid_count == 0,
            }) ==> r.status == OrderStatus::Rejected
        }),
{
    let levels = contra_levels(sim.book, req.side);
    lemma_market_fill_conserves(levels, req.quantity.0);
    if levels.len() == 0 {
        assert(market_fill(levels, req.quantity.0) == (0u64, 0int, req.quantity.0));
    }
}

/// The confirmation of a cancelled resting order names that order and says it was
/// cancelled with nothing filled, from this venue under the given venue id and time.
pub proof fn lemma_cancel_removes_the_order(order: OrderRequest, exchange: Exchange, ex_id: u64, ts: u64)
    ensures
        ({
            let r = cancel_confirmation(order, exchange, ex_id, ts);
            &&& r.client_order_id == order.client_order_id
            &&& r.status == OrderStatus::Cancelled
            &&& r.last_qty.0 == 0
            &&& r.cumulative_qty.0 == 0
            &&& r.exchange == exchange
            &&& r.exchange_order_id == ex_id
            &&& r.timestamp_ns == ts
        }),
{
}

/// A move of the price to `price` fills exactly the resting orders it reaches: a buy
/// whose limit is at or above the new price, a sell whose limit is at or below it.
/// The others stay resting, and no order is lost or made up. Each fill report is a
/// complete fill of the order at its own limit price.
pub proof fn lemma_resting_orders_fill_when_reached(orders: Seq<OrderRequest>, price: u64, exchange: Exchange, ex_id: u64, ts: u64)
    ensures
        ({
            let (rest, filled) = scan_resting(orders, 0, price);
            &&& forall|t: int| 0 <= t < filled.len() ==> match (#[trigger] filled[t]).side {
                Side::Buy => price <= filled[t].price.0,
                Side::Sell => price >= filled[t].price.0,
            }
            &&& forall|t: int| 0 <= t < rest.len() ==> match (#[trigger] rest[t]).side {
                Side::Buy => price > rest[t].price.0,
                Side::Sell => price < rest[t].price.0,
            }
            &&& rest.to_multiset().add(filled.to_multiset()) == orders.to_multiset()
            &&& forall|t: int| 0 <= t < filled.len() ==> {
                let r = #[trigger] full_fill_report(filled[t], exchange, ex_id, ts);
                &&& r.status == OrderStatus::Filled
                &&& r.client_order_id == filled[t].client_order_id
                &&& r.last_qty == filled[t].quantity
                &&& r.last_price == filled[t].price
                &&& r.leaves_qty.0 == 0
            }
        }),
{
    lemma_scan_partitions(orders, 0, price);
}

/// The simulated book brackets the price: the best bid is below it and the best ask
/// above it, asks rise level by level and bids fall level by level while above zero,
/// and every quantity is the drawn one.
pub proof fn lemma_sim_book_brackets_price(
    book: OrderBook,
    price: u64,
    exchange: Exchange,
    bid_qtys: Seq<u64>,
    ask_qtys: Seq<u64>,
)
    requires
        sim_book_is(book, price, exchange, bid_qtys, ask_qtys),
        sim_price_fits(price, exchange),
    ensures
        book.bid_count == 20 && book.ask_count == 20,
        book.asks@[0].price.0 > price,
        book.bids@[0].price.0 < price || price == 0,
        forall|i: int| 0 < i < 20 ==> book.asks@[i - 1].price.0 < (#[trigger] book.asks@[i]).price.0,
        forall|i: int| 0 < i < 20 && book.bids@[i - 1].price.0 > 0 ==> book.bids@[i - 1].price.0 > (
        #[trigger] book.bids@[i]).price.0,
        forall|i: int| 0 <= i < 20 ==> (#[trigger] book.bids@[i]).quantity.0 == bid_qtys[i] && book.asks@[i].quantity.0
            == ask_qtys[i],
{
    assert(book.asks@[0].price.0 == sim_ask_price(price, exchange, 0));
    assert(book.bids@[0].price.0 == sim_bid_price(price, exchange, 0));
    assert forall|i: int| 0 < i < 20 implies book.asks@[i - 1].price.0 < (#[trigger] book.asks@[i]).price.0 by {
        assert(book.asks@[i - 1].price.0 == sim_ask_price(price, exchange, i - 1));
    }
    assert forall|i: int| 0 < i < 20 && book.bids@[i - 1].price.0 > 0 implies book.bids@[i - 1].price.0 > (
    #[trigger] book.bids@[i]).price.0 by {
        assert(book.bids@[i - 1].price.0 == sim_bid_price(price, exchange, i - 1));
    }
}

} // verus!
