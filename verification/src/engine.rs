use vstd::prelude::*;
use std::collections::HashMap;
use std::sync::Arc;
use crossbeam_queue::ArrayQueue;
use crate::algos::iceberg::{iceberg_after_report, iceberg_report_applies, iceberg_report_fits, IcebergAlgo};
use crate::algos::pov::{pov_after_report, pov_after_trade, pov_report_fits, pov_trade_fits, PovAlgo};
use crate::algos::twap::{twap_after_report, twap_after_tick, twap_report_fits, twap_tick_fits, TwapAlgo};
use crate::algos::AlgoAction;
use crate::order_book::{lemma_snapshot_unique, mid_price, mid_price_fits, snapshot_applied, OrderBook, MAX_DEPTH};
use crate::queue::queue_push;
use crate::sor::{book_is_routable, book_routable, planned_routes, route_order, SorRoute};
use crate::tca::{tca_report_fits, tca_report_recorded, TcaTracker};
use crate::types::{BookUpdate, Decimal, Exchange, ExecutionReport, MarketEvent, OrderRequest, OrderType, Side, Symbol, TimeInForce};

verus! {

/// First internal client order id handed out is one above this.
pub const INTERNAL_ID_BASE: u64 = 1_000_000;

/// Runs the execution algorithms on market data, routes their orders over the two
/// venues, and keeps the routing and cost-analysis state.
pub struct ExecutionEngine {
    pub book_binance: OrderBook,
    pub book_coinbase: OrderBook,
    // Active algorithms
    pub twap: Option<TwapAlgo>,
    pub pov: Option<PovAlgo>,
    pub iceberg: Option<IcebergAlgo>,
    // Orders for the venues
    pub output_queue: Arc<ArrayQueue<OrderRequest>>,
    pub tca: TcaTracker,
    /// Last internal client order id handed to a routed child order.
    pub internal_client_order_id_counter: u64,
    /// Routed child id -> (the algorithm's client order id, the algorithm's name).
    pub child_to_algo_id: HashMap<u64, (u64, String)>,
}

/// The legs an algorithm order is sent as: the smart-order-routing legs, or the whole
/// order to Binance at the algorithm's price when routing finds none.
pub open spec fn placement_legs(
    book_binance: OrderBook,
    book_coinbase: OrderBook,
    side: Side,
    price: Decimal,
    quantity: Decimal,
) -> Seq<SorRoute> {
    let routes = planned_routes(book_binance, book_coinbase, side, quantity);
    if routes.len() == 0 {
        seq![SorRoute { exchange: Exchange::Binance, price, quantity }]
    } else {
        routes
    }
}

/// The limit order sent for one leg.
pub open spec fn child_request(child_id: u64, leg: SorRoute, side: Side) -> OrderRequest {
    OrderRequest {
        client_order_id: child_id,
        symbol: Symbol::BTCUSDT,
        exchange: leg.exchange,
        side,
        order_type: OrderType::Limit,
        price: leg.price,
        quantity: leg.quantity,
        time_in_force: TimeInForce::GTC,
    }
}

/// A cancellation is sent as a request with zero price and zero quantity.
pub open spec fn cancel_request(child_id: u64, exchange: Exchange) -> OrderRequest {
    OrderRequest {
        client_order_id: child_id,
        symbol: Symbol::BTCUSDT,
        exchange,
        side: Side::Buy,
        order_type: OrderType::Limit,
        price: Decimal(0),
        quantity: Decimal(0),
        time_in_force: TimeInForce::GTC,
    }
}

/// `after` is `before` with every key in `(lo, hi]` set to a value satisfying `fresh`.
pub open spec fn map_extended<V>(
    before: Map<u64, V>,
    after: Map<u64, V>,
    lo: int,
    hi: int,
    fresh: spec_fn(V) -> bool,
) -> bool {
    &&& forall|k: u64| #[trigger] after.contains_key(k) <==> (before.contains_key(k) || lo < k <= hi)
    &&& forall|k: u64| lo < k <= hi ==> fresh(#[trigger] after[k])
    &&& forall|k: u64| before.contains_key(k) && !(lo < k <= hi) ==> #[trigger] after[k] == before[k]
}

/// The routing entry records a child of order `algo_order_id` of algorithm `name`.
pub open spec fn child_of(entry: (u64, String), algo_order_id: u64, name: Seq<char>) -> bool {
    entry.0 == algo_order_id && entry.1@ == name
}

impl ExecutionEngine {
    /// Both books keep their level counts within their slots.
    pub open spec fn wf(&self) -> bool {
        self.book_binance.wf() && self.book_coinbase.wf()
    }

    /// The engine after placing `legs` for order `algo_order_id` of algorithm `name`
    /// at time `ts`: one child per leg with the next internal ids, each remembered
    /// as a child of the order and recorded as sent; the requests go out in leg order.
    pub open spec fn placed(
        before: ExecutionEngine,
        after: ExecutionEngine,
        legs: Seq<SorRoute>,
        side: Side,
        algo_order_id: u64,
        name: Seq<char>,
        ts: u64,
        reqs: Seq<OrderRequest>,
    ) -> bool {
        let c0 = before.internal_client_order_id_counter;
        let hi = c0 + legs.len();
        &&& reqs.len() == legs.len()
        &&& forall|j: int| 0 <= j < legs.len() ==> #[trigger] reqs[j] == child_request((c0 + j + 1) as u64, legs[j], side)
        &&& after.internal_client_order_id_counter == hi
        &&& map_extended(before.child_to_algo_id@, after.child_to_algo_id@, c0 as int, hi, |e: (u64, String)| child_of(e, algo_order_id, name))
        &&& map_extended(before.tca.order_send_times@, after.tca.order_send_times@, c0 as int, hi, |t: u64| t == ts)
        &&& map_extended(before.tca.order_to_parent@, after.tca.order_to_parent@, c0 as int, hi, |s: String| s@ == name)
        &&& after.tca.parent_orders == before.tca.parent_orders
        &&& after.tca.execution_accumulators == before.tca.execution_accumulators
        &&& after.book_binance == before.book_binance
        &&& after.book_coinbase == before.book_coinbase
        &&& after.twap == before.twap
        &&& after.pov == before.pov
        &&& after.iceberg == before.iceberg
        &&& after.output_queue == before.output_queue
    }

    pub fn new(output_queue: Arc<ArrayQueue<OrderRequest>>) -> (e: ExecutionEngine)
        ensures
            e.wf(),
            e.book_binance.bid_count == 0 && e.book_binance.ask_count == 0,
            e.book_coinbase.bid_count == 0 && e.book_coinbase.ask_count == 0,
            e.twap is None && e.pov is None && e.iceberg is None,
            e.output_queue == output_queue,
            e.tca.wf(),
            e.tca.parent_orders@.len() == 0,
            e.tca.execution_accumulators@.len() == 0,
            e.tca.order_send_times@ == Map::<u64, u64>::empty(),
            e.tca.order_to_parent@ == Map::<u64, String>::empty(),
            e.internal_client_order_id_counter == INTERNAL_ID_BASE,
            e.child_to_algo_id@ == Map::<u64, (u64, String)>::empty(),
    {
        ExecutionEngine {
            book_binance: OrderBook::new(),
            book_coinbase: OrderBook::new(),
            twap: None,
            pov: None,
            iceberg: None,
            output_queue,
            tca: TcaTracker::new(),
            internal_client_order_id_counter: INTERNAL_ID_BASE,
            child_to_algo_id: HashMap::new(),
        }
    }

    /// Sends one child order for `leg` and remembers it.
    fn place_child(
        &mut self,
        leg: SorRoute,
        side: Side,
        algo_order_id: u64,
        algo_name: &str,
        timestamp_ns: u64,
    ) -> (req: OrderRequest)
        requires
            old(self).internal_client_order_id_counter < u64::MAX,
        ensures
            ExecutionEngine::placed(*old(self), *final(self), seq![leg], side, algo_order_id, algo_name@, timestamp_ns, seq![req]),
    {
        self.internal_client_order_id_counter = self.internal_client_order_id_counter + 1;
        let child_id = self.internal_client_order_id_counter;
        self.child_to_algo_id.insert(child_id, (algo_order_id, algo_name.to_owned()));
        let req = OrderRequest {
            client_order_id: child_id,
            symbol: Symbol::BTCUSDT,
            exchange: leg.exchange,
            side,
            order_type: OrderType::Limit,
            price: leg.price,  // a routed leg's price comes from the book
            quantity: leg.quantity,
            time_in_force: TimeInForce::GTC,
        };
        self.tca.record_order_request(&req, algo_name, timestamp_ns);
        proof {
            assert(seq![req][0] == child_request(child_id, seq![leg][0], side));
        }
        req
    }
}

/// Placing two runs of legs one after the other is placing them all at once.
proof fn lemma_placed_chain(
    a: ExecutionEngine,
    b: ExecutionEngine,
    c: ExecutionEngine,
    legs1: Seq<SorRoute>,
    legs2: Seq<SorRoute>,
    side: Side,
    algo_order_id: u64,
    name: Seq<char>,
    ts: u64,
    reqs1: Seq<OrderRequest>,
    reqs2: Seq<OrderRequest>,
)
    requires
        ExecutionEngine::placed(a, b, legs1, side, algo_order_id, name, ts, reqs1),
        ExecutionEngine::placed(b, c, legs2, side, algo_order_id, name, ts, reqs2),
    ensures
        ExecutionEngine::placed(a, c, legs1 + legs2, side, algo_order_id, name, ts, reqs1 + reqs2),
{
    let c0 = a.internal_client_order_id_counter as int;
    let c1 = b.internal_client_order_id_counter as int;
    let legs = legs1 + legs2;
    let reqs = reqs1 + reqs2;
    assert forall|j: int| 0 <= j < legs.len() implies #[trigger] reqs[j] == child_request((c0 + j + 1) as u64, legs[j], side) by {
        if j < legs1.len() {
            assert(reqs[j] == reqs1[j]);
            assert(legs[j] == legs1[j]);
        } else {
            let t = j - legs1.len();
            assert(reqs[j] == reqs2[t]);
            assert(legs[j] == legs2[t]);
            assert(reqs2[t] == child_request((c1 + t + 1) as u64, legs2[t], side));
        }
    }
    let hi = c0 + legs.len();
    let f1 = |e: (u64, String)| child_of(e, algo_order_id, name);
    assert forall|k: u64| c0 < k <= hi implies f1(#[trigger] c.child_to_algo_id@[k]) by {
        if k <= c1 {
            assert(b.child_to_algo_id@.contains_key(k));
        }
    }
    assert forall|k: u64| c0 < k <= hi implies (#[trigger] c.tca.order_send_times@[k]) == ts by {
        if k <= c1 {
            assert(b.tca.order_send_times@.contains_key(k));
        }
    }
    assert forall|k: u64| c0 < k <= hi implies (#[trigger] c.tca.order_to_parent@[k])@ == name by {
        if k <= c1 {
            assert(b.tca.order_to_parent@.contains_key(k));
        }
    }
}

impl ExecutionEngine {
    /// Routes an algorithm's order over both books and sends one child per leg.
    fn place_order(
        &mut self,
        side: Side,
        price: Decimal,
        quantity: Decimal,
        algo_order_id: u64,
        algo_name: &str,
        timestamp_ns: u64,
    ) -> (reqs: Vec<OrderRequest>)
        requires
            quantity.0 != 0 ==> old(self).wf() && book_is_routable(old(self).book_binance, Exchange::Binance, side)
                && book_is_routable(old(self).book_coinbase, Exchange::Coinbase, side),
            old(self).internal_client_order_id_counter + placement_legs(
                old(self).book_binance,
                old(self).book_coinbase,
                side,
                price,
                quantity,
            ).len() <= u64::MAX,
        ensures
            ExecutionEngine::placed(
                *old(self),
                *final(self),
                placement_legs(old(self).book_binance, old(self).book_coinbase, side, price, quantity),
                side,
                algo_order_id,
                algo_name@,
                timestamp_ns,
                reqs@,
            ),
    {
        let (routes, route_count) = route_order(&self.book_binance, &self.book_coinbase, side, quantity);
        let ghost legs = placement_legs(self.book_binance, self.book_coinbase, side, price, quantity);
        let mut reqs: Vec<OrderRequest> = Vec::new();
        if route_count == 0 {
            // Direct routing when the books offer nothing.
            let req = self.place_child(
                SorRoute { exchange: Exchange::Binance, price, quantity },
                side,
                algo_order_id,
                algo_name,
                timestamp_ns,
            );
            reqs.push(req);
            assert(reqs@ =~= seq![req]);
        } else {
            let ghost start = *self;
            assert(routes@.take(route_count as int) == legs);
            assert(ExecutionEngine::placed(start, *self, legs.take(0), side, algo_order_id, algo_name@, timestamp_ns, reqs@));
            let mut i: usize = 0;
            while i < route_count
                invariant
                    i <= route_count <= 40,
                    legs == routes@.take(route_count as int),
                    legs.len() == route_count,
                    start.internal_client_order_id_counter + legs.len() <= u64::MAX,
                    ExecutionEngine::placed(start, *self, legs.take(i as int), side, algo_order_id, algo_name@, timestamp_ns, reqs@),
                decreases route_count - i,
            {
                let ghost before = *self;
                let ghost before_reqs = reqs@;
                let leg = routes[i];
                assert(leg == legs[i as int]);
                let req = self.place_child(leg, side, algo_order_id, algo_name, timestamp_ns);
                reqs.push(req);
                proof {
                    lemma_placed_chain(start, before, *self, legs.take(i as int), seq![leg], side, algo_order_id, algo_name@, timestamp_ns, before_reqs, seq![req]);
                    assert(legs.take(i as int) + seq![leg] =~= legs.take(i + 1));
                    assert(before_reqs + seq![req] =~= reqs@);
                }
                i = i + 1;
            }
            assert(legs.take(route_count as int) =~= legs);
        }
        reqs
    }
}

/// Keys of the entries whose value is a child of order `algo_order_id` of `name`, in order.
pub open spec fn matching_children(items: Seq<(u64, (u64, String))>, algo_order_id: u64, name: Seq<char>) -> Seq<u64>
    decreases items.len(),
{
    if items.len() == 0 {
        Seq::empty()
    } else {
        let prev = matching_children(items.drop_last(), algo_order_id, name);
        if child_of(items.last().1, algo_order_id, name) {
            prev.push(items.last().0)
        } else {
            prev
        }
    }
}

/// Some entry with key `k` is a child of the order.
pub open spec fn is_matching_key(items: Seq<(u64, (u64, String))>, k: u64, algo_order_id: u64, name: Seq<char>) -> bool {
    exists|t: int| 0 <= t < items.len() && items[t].0 == k && child_of(items[t].1, algo_order_id, name)
}

proof fn lemma_matching_children(items: Seq<(u64, (u64, String))>, algo_order_id: u64, name: Seq<char>)
    ensures
        forall|j: int| 0 <= j < matching_children(items, algo_order_id, name).len() ==> is_matching_key(
            items,
            #[trigger] matching_children(items, algo_order_id, name)[j],
            algo_order_id,
            name,
        ),
        forall|t: int| 0 <= t < items.len() && child_of(#[trigger] items[t].1, algo_order_id, name)
            ==> matching_children(items, algo_order_id, name).contains(items[t].0),
        (forall|s: int, t: int| 0 <= s < t < items.len() ==> #[trigger] items[s].0 != #[trigger] items[t].0)
            ==> matching_children(items, algo_order_id, name).no_duplicates(),
    decreases items.len(),
{
    if items.len() > 0 {
        let d = items.drop_last();
        lemma_matching_children(d, algo_order_id, name);
        let prev = matching_children(d, algo_order_id, name);
        let res = matching_children(items, algo_order_id, name);
        assert forall|j: int| 0 <= j < res.len() implies is_matching_key(items, #[trigger] res[j], algo_order_id, name) by {
            if j < prev.len() {
                assert(res[j] == prev[j]);
                assert(is_matching_key(d, prev[j], algo_order_id, name));
                let t = choose|t: int| 0 <= t < d.len() && d[t].0 == prev[j] && child_of(d[t].1, algo_order_id, name);
                assert(items[t] == d[t]);
            } else {
                let t = items.len() - 1;
                assert(items[t] == items.last());
                assert(res == prev.push(items.last().0));
                assert(res[j] == items[t].0);
                assert(child_of(items[t].1, algo_order_id, name));
            }
        }
        assert forall|t: int| 0 <= t < items.len() && child_of(#[trigger] items[t].1, algo_order_id, name) implies res.contains(items[t].0) by {
            if t < d.len() {
                assert(d[t] == items[t]);
                let j = choose|j: int| 0 <= j < prev.len() && prev[j] == d[t].0;
                assert(res[j] == prev[j]);
            } else {
                assert(res[res.len() - 1] == items[t].0);
            }
        }
        if forall|s: int, t: int| 0 <= s < t < items.len() ==> #[trigger] items[s].0 != #[trigger] items[t].0 {
            assert forall|s: int, t: int| 0 <= s < t < d.len() implies #[trigger] d[s].0 != #[trigger] d[t].0 by {
                assert(d[s] == items[s] && d[t] == items[t]);
            }
            if child_of(items.last().1, algo_order_id, name) {
                assert forall|j: int| 0 <= j < prev.len() implies prev[j] != items.last().0 by {
                    assert(is_matching_key(d, prev[j], algo_order_id, name));
                    let t = choose|t: int| 0 <= t < d.len() && d[t].0 == prev[j] && child_of(d[t].1, algo_order_id, name);
                    assert(items[t].0 != items[items.len() - 1].0);
                }
                assert forall|a: int, b: int| 0 <= a < res.len() && 0 <= b < res.len() && a != b implies res[a] != res[b] by {
                    if a < prev.len() && b < prev.len() {
                    } else if a < prev.len() {
                        assert(res[a] == prev[a]);
                    } else {
                        assert(res[b] == prev[b]);
                    }
                }
            }
        }
    }
}

impl ExecutionEngine {
    /// The routed children of order `algo_order_id` of algorithm `algo_name`, each
    /// once, in the order the map is walked.
    fn children_of(&self, algo_order_id: u64, algo_name: &str) -> (ids: Vec<u64>)
        ensures
            forall|j: int| 0 <= j < ids@.len() ==> self.child_to_algo_id@.contains_key(#[trigger] ids@[j])
                && child_of(self.child_to_algo_id@[ids@[j]], algo_order_id, algo_name@),
            forall|k: u64| #[trigger] self.child_to_algo_id@.contains_key(k) && child_of(self.child_to_algo_id@[k], algo_order_id, algo_name@)
                ==> ids@.contains(k),
            ids@.no_duplicates(),
    {
        let name = algo_name.to_owned();
        let mut ids: Vec<u64> = Vec::new();
        let entries = self.child_to_algo_id.iter();
        let ghost all = vstd::std_specs::iter::IteratorSpec::remaining(&entries);
        assert(all.no_duplicates());
        assert(all.unref().take(all.len() as int) =~= all.unref());
        for item in it: entries
            invariant
                name@ == algo_name@,
                it.seq() == all,
                ids@ == matching_children(it.seq().unref().take(it.index()), algo_order_id, algo_name@),
            ensures
                it.index() == all.len(),
        {
            assert(item == it.seq()[it.index()]);
            let (child_id, entry) = item;
            let ghost items = it.seq().unref();
            let ghost i = it.index();
            if entry.0 == algo_order_id && entry.1 == name {
                ids.push(*child_id);
            }
            proof {
                assert(items.take(i + 1).drop_last() =~= items.take(i));
                assert(items.take(i + 1).last() == (*child_id, *entry));
            }
        }
        assert(ids@ == matching_children(all.unref(), algo_order_id, algo_name@));
        proof {
            let m = self.child_to_algo_id;
            let items = all.unref();
            lemma_matching_children(items, algo_order_id, algo_name@);
            assert forall|t: int| 0 <= t < items.len() implies m@.contains_key(#[trigger] items[t].0) && m@[items[t].0] == items[t].1 by {
                assert(items[t] == (*all[t].0, *all[t].1));
            }
            assert forall|s: int, t: int| 0 <= s < t < items.len() implies #[trigger] items[s].0 != #[trigger] items[t].0 by {
                if items[s].0 == items[t].0 {
                    assert(items[s].1 == m@[items[s].0]);
                    assert(all[s] == all[t]);
                }
            }
            assert forall|k: u64| #[trigger] m@.contains_key(k) && child_of(m@[k], algo_order_id, algo_name@) implies ids@.contains(k) by {
                assert(all.contains((&k, &m@[k])));
                let t = choose|t: int| 0 <= t < all.len() && all[t] == (&k, &m@[k]);
                assert(items[t] == (k, m@[k]));
            }
            assert forall|j: int| 0 <= j < ids@.len() implies m@.contains_key(#[trigger] ids@[j]) && child_of(m@[ids@[j]], algo_order_id, algo_name@) by {
                assert(is_matching_key(items, ids@[j], algo_order_id, algo_name@));
                let t = choose|t: int| 0 <= t < items.len() && items[t].0 == ids@[j] && child_of(items[t].1, algo_order_id, algo_name@);
            }
        }
        ids
    }
}

/// `reqs` cancels every routed child of order `algo_order_id` of algorithm `name`,
/// each exactly once, at `exchange`.
pub open spec fn cancels_children(
    children: Map<u64, (u64, String)>,
    algo_order_id: u64,
    name: Seq<char>,
    exchange: Exchange,
    reqs: Seq<OrderRequest>,
) -> bool {
    &&& forall|j: int| 0 <= j < reqs.len() ==> {
        let k = (#[trigger] reqs[j]).client_order_id;
        &&& reqs[j] == cancel_request(k, exchange)
        &&& children.contains_key(k)
        &&& child_of(children[k], algo_order_id, name)
    }
    &&& forall|k: u64| #[trigger] children.contains_key(k) && child_of(children[k], algo_order_id, name)
        ==> exists|j: int| 0 <= j < reqs.len() && reqs[j].client_order_id == k
    &&& forall|i: int, j: int| 0 <= i < reqs.len() && 0 <= j < reqs.len() && i != j
        ==> (#[trigger] reqs[i]).client_order_id != (#[trigger] reqs[j]).client_order_id
}

impl ExecutionEngine {
    /// What acting on an algorithm's order requires: a placement must be routable over
    /// the books and leave room for its child ids.
    pub open spec fn action_fits(&self, action: AlgoAction) -> bool {
        match action {
            AlgoAction::PlaceOrder { side, price, quantity, .. } => {
                &&& quantity.0 != 0 ==> self.wf() && book_is_routable(self.book_binance, Exchange::Binance, side)
                    && book_is_routable(self.book_coinbase, Exchange::Coinbase, side)
                &&& self.internal_client_order_id_counter + placement_legs(
                    self.book_binance,
                    self.book_coinbase,
                    side,
                    price,
                    quantity,
                ).len() <= u64::MAX
            },
            AlgoAction::CancelOrder { .. } => true,
        }
    }

    /// The engine's reaction to an algorithm's action, with the requests it sends.
    pub open spec fn acted(
        before: ExecutionEngine,
        after: ExecutionEngine,
        action: AlgoAction,
        name: Seq<char>,
        ts: u64,
        reqs: Seq<OrderRequest>,
    ) -> bool {
        match action {
            AlgoAction::PlaceOrder { client_order_id, side, price, quantity, .. } => ExecutionEngine::placed(
                before,
                after,
                placement_legs(before.book_binance, before.book_coinbase, side, price, quantity),
                side,
                client_order_id,
                name,
                ts,
                reqs,
            ),
            AlgoAction::CancelOrder { client_order_id, exchange } => {
                &&& after == before
                &&& cancels_children(before.child_to_algo_id@, client_order_id, name, exchange, reqs)
            },
        }
    }

    /// Decides the requests for an algorithm's action: a placement is split over the
    /// venues by smart order routing, a cancellation goes to every routed child.
    pub fn plan_algo_action(&mut self, action: AlgoAction, algo_name: &str, timestamp_ns: u64) -> (reqs: Vec<OrderRequest>)
        requires
            old(self).action_fits(action),
        ensures
            ExecutionEngine::acted(*old(self), *final(self), action, algo_name@, timestamp_ns, reqs@),
            // Every child of a placement is a limit order on the algorithm's side.
            action matches AlgoAction::PlaceOrder { side, .. } ==> reqs@.len() >= 1 && forall|j: int|
                0 <= j < reqs@.len() ==> (#[trigger] reqs@[j]).side == side && reqs@[j].order_type
                    == OrderType::Limit,
    {
        match action {
            AlgoAction::PlaceOrder { client_order_id, exchange, side, price, quantity } => {
                let reqs = self.place_order(side, price, quantity, client_order_id, algo_name, timestamp_ns);
                proof {
                    lemma_placement_sends_on_the_order_side(
                        *old(self),
                        *self,
                        client_order_id,
                        exchange,
                        side,
                        price,
                        quantity,
                        algo_name@,
                        timestamp_ns,
                        reqs@,
                    );
                }
                reqs
            },
            AlgoAction::CancelOrder { client_order_id, exchange } => {
                let children = self.children_of(client_order_id, algo_name);
                let mut reqs: Vec<OrderRequest> = Vec::new();
                let mut i: usize = 0;
                while i < children.len()
                    invariant
                        i <= children@.len(),
                        reqs@.len() == i,
                        forall|j: int| 0 <= j < i ==> #[trigger] reqs@[j] == cancel_request(children@[j], exchange),
                    decreases children@.len() - i,
                {
                    // A request with zero price and zero quantity stands for a cancellation.
                    let cancel_req = OrderRequest {
                        client_order_id: children[i],
                        symbol: Symbol::BTCUSDT,
                        exchange,
                        side: Side::Buy,
                        order_type: OrderType::Limit,
                        price: Decimal(0),
                        quantity: Decimal(0),
                        time_in_force: TimeInForce::GTC,
                    };
                    reqs.push(cancel_req);
                    i = i + 1;
                }
                proof {
                    let m = self.child_to_algo_id@;
                    assert forall|j: int| 0 <= j < reqs@.len() implies (#[trigger] reqs@[j]).client_order_id == children@[j] by {}
                    assert forall|k: u64| #[trigger] m.contains_key(k) && child_of(m[k], client_order_id, algo_name@)
                        implies exists|j: int| 0 <= j < reqs@.len() && reqs@[j].client_order_id == k by {
                        assert(children@.contains(k));
                        let j = choose|j: int| 0 <= j < children@.len() && children@[j] == k;
                        assert(reqs@[j].client_order_id == k);
                    }
                    assert forall|a: int, b: int| 0 <= a < reqs@.len() && 0 <= b < reqs@.len() && a != b
                        implies (#[trigger] reqs@[a]).client_order_id != (#[trigger] reqs@[b]).client_order_id by {
                        assert(reqs@[a].client_order_id == children@[a]);
                        assert(reqs@[b].client_order_id == children@[b]);
                    }
                }
                reqs
            },
        }
    }

    /// Processes an action requested by an execution algorithm.
    /// Intercepts order placement to perform Smart Order Routing (SOR) across venues,
    /// and sends the resulting requests to the output queue; a request the full queue
    /// refuses is dropped.
    pub fn handle_algo_action(&mut self, action: AlgoAction, algo_name: &str, timestamp_ns: u64)
        requires
            old(self).action_fits(action),
        ensures
            exists|reqs: Seq<OrderRequest>| ExecutionEngine::acted(*old(self), *final(self), action, algo_name@, timestamp_ns, reqs),
    {
        let reqs = self.plan_algo_action(action, algo_name, timestamp_ns);
        let mut i: usize = 0;
        while i < reqs.len()
            invariant
                i <= reqs@.len(),
            decreases reqs@.len() - i,
        {
            let _ = queue_push(&self.output_queue, reqs[i]);
            i = i + 1;
        }
    }
}

/// The engine after an algorithm reacted with `act` under the name `name`.
pub open spec fn followed_by(
    before: ExecutionEngine,
    after: ExecutionEngine,
    act: Option<AlgoAction>,
    name: Seq<char>,
    ts: u64,
    reqs: Seq<OrderRequest>,
) -> bool {
    match act {
        None => after == before && reqs.len() == 0,
        Some(a) => ExecutionEngine::acted(before, after, a, name, ts, reqs),
    }
}

/// `e` with the book of `exchange` replaced by `book`.
pub open spec fn with_book(e: ExecutionEngine, exchange: Exchange, book: OrderBook) -> ExecutionEngine {
    match exchange {
        Exchange::Binance => ExecutionEngine { book_binance: book, ..e },
        Exchange::Coinbase => ExecutionEngine { book_coinbase: book, ..e },
    }
}

/// `e` with its TCA state replaced by `t`.
pub open spec fn with_tca(e: ExecutionEngine, t: TcaTracker) -> ExecutionEngine {
    ExecutionEngine { tca: t, ..e }
}

/// The TWAP, if any, ticks with the Binance mid price and its action is carried out.
pub open spec fn twap_ticked(before: ExecutionEngine, after: ExecutionEngine, ts: u64, reqs: Seq<OrderRequest>) -> bool {
    match before.twap {
        None => after == before && reqs.len() == 0,
        Some(t) => {
            let (t2, act) = twap_after_tick(t, ts, mid_price(before.book_binance));
            followed_by(ExecutionEngine { twap: Some(t2), ..before }, after, act, "TWAP"@, ts, reqs)
        },
    }
}

/// A tick can be carried out: the mid price is computable and the TWAP's tick and
/// action fit.
pub open spec fn twap_tick_ok(e: ExecutionEngine, ts: u64) -> bool {
    &&& mid_price_fits(e.book_binance)
    &&& e.twap matches Some(t) ==> {
        &&& twap_tick_fits(t, ts)
        &&& twap_after_tick(t, ts, mid_price(e.book_binance)).1 matches Some(a) ==> e.action_fits(a)
    }
}

/// The POV, if any, counts a public trade and its action is carried out.
pub open spec fn pov_traded(before: ExecutionEngine, after: ExecutionEngine, trade_qty: Decimal, ts: u64, reqs: Seq<OrderRequest>) -> bool {
    match before.pov {
        None => after == before && reqs.len() == 0,
        Some(p) => {
            let (p2, act) = pov_after_trade(p, trade_qty, mid_price(before.book_binance));
            followed_by(ExecutionEngine { pov: Some(p2), ..before }, after, act, "POV"@, ts, reqs)
        },
    }
}

pub open spec fn pov_trade_ok(e: ExecutionEngine, trade_qty: Decimal) -> bool {
    &&& mid_price_fits(e.book_binance)
    &&& e.pov matches Some(p) ==> {
        &&& pov_trade_fits(p, trade_qty, mid_price(e.book_binance))
        &&& pov_after_trade(p, trade_qty, mid_price(e.book_binance)).1 matches Some(a) ==> e.action_fits(a)
    }
}

/// Which algorithm a report is for, and the report as that algorithm knows it: a
/// routed child's report carries the algorithm's own order id; any other report
/// goes to no algorithm.
pub open spec fn report_route(e: ExecutionEngine, report: ExecutionReport) -> (Seq<char>, ExecutionReport) {
    if e.child_to_algo_id@.contains_key(report.client_order_id) {
        let entry = e.child_to_algo_id@[report.client_order_id];
        (entry.1@, ExecutionReport { client_order_id: entry.0, ..report })
    } else {
        ("DIRECT"@, report)
    }
}

/// The iceberg's reaction to a report, including reports not for its live slice.
pub open spec fn iceberg_on_report(s: IcebergAlgo, report: ExecutionReport) -> (IcebergAlgo, Option<AlgoAction>) {
    if iceberg_report_applies(s, report) {
        iceberg_after_report(s, report)
    } else {
        (s, None)
    }
}

/// The named algorithm, if running, takes the report and its action is carried out.
pub open spec fn report_dispatched(
    before: ExecutionEngine,
    after: ExecutionEngine,
    name: Seq<char>,
    report: ExecutionReport,
    ts: u64,
    reqs: Seq<OrderRequest>,
) -> bool {
    if name == "TWAP"@ {
        match before.twap {
            None => after == before && reqs.len() == 0,
            Some(t) => {
                let (t2, act) = twap_after_report(t, report);
                followed_by(ExecutionEngine { twap: Some(t2), ..before }, after, act, name, ts, reqs)
            },
        }
    } else if name == "POV"@ {
        match before.pov {
            None => after == before && reqs.len() == 0,
            Some(p) => followed_by(ExecutionEngine { pov: Some(pov_after_report(p, report)), ..before }, after, None, name, ts, reqs),
        }
    } else if name == "ICEBERG"@ {
        match before.iceberg {
            None => after == before && reqs.len() == 0,
            Some(i) => {
                let (i2, act) = iceberg_on_report(i, report);
                followed_by(ExecutionEngine { iceberg: Some(i2), ..before }, after, act, name, ts, reqs)
            },
        }
    } else {
        after == before && reqs.len() == 0
    }
}

pub open spec fn report_ok(e: ExecutionEngine, report: ExecutionReport) -> bool {
    let (name, routed) = report_route(e, report);
    &&& tca_report_fits(e.tca, report)
    &&& name == "TWAP"@ ==> (e.twap matches Some(t) ==> {
        &&& twap_report_fits(t, routed)
        &&& twap_after_report(t, routed).1 matches Some(a) ==> e.action_fits(a)
    })
    &&& name == "POV"@ ==> (e.pov matches Some(p) ==> pov_report_fits(p, routed))
    &&& name == "ICEBERG"@ ==> (e.iceberg matches Some(i) ==> {
        &&& iceberg_report_fits(i, routed)
        &&& iceberg_on_report(i, routed).1 matches Some(a) ==> e.action_fits(a)
    })
}

impl ExecutionEngine {
    /// The event can be processed without overflow or out-of-range access.
    pub open spec fn event_ok(&self, event: MarketEvent) -> bool {
        match event {
            MarketEvent::BookUpdate(update) => forall|b: OrderBook|
                snapshot_applied(
                    match update.exchange {
                        Exchange::Binance => self.book_binance,
                        Exchange::Coinbase => self.book_coinbase,
                    },
                    b,
                    update,
                ) ==> twap_tick_ok(#[trigger] with_book(*self, update.exchange, b), update.timestamp_ns),
            MarketEvent::Trade(trade) => pov_trade_ok(*self, trade.quantity),
            MarketEvent::ExecutionReport(report) => report_ok(*self, report),
            MarketEvent::TimerTick { timestamp_ns } => twap_tick_ok(*self, timestamp_ns),
        }
    }

    /// The engine's reaction to an event, with the requests it sends.
    pub open spec fn processed(before: ExecutionEngine, after: ExecutionEngine, event: MarketEvent, reqs: Seq<OrderRequest>) -> bool {
        match event {
            MarketEvent::BookUpdate(update) => exists|b: OrderBook|
                snapshot_applied(
                    match update.exchange {
                        Exchange::Binance => before.book_binance,
                        Exchange::Coinbase => before.book_coinbase,
                    },
                    b,
                    update,
                ) && twap_ticked(#[trigger] with_book(before, update.exchange, b), after, update.timestamp_ns, reqs),
            MarketEvent::Trade(trade) => pov_traded(before, after, trade.quantity, trade.timestamp_ns, reqs),
            MarketEvent::ExecutionReport(report) => {
                let (name, routed) = report_route(before, report);
                exists|t: TcaTracker|
                    tca_report_recorded(before.tca, t, report) && report_dispatched(
                        #[trigger] with_tca(before, t),
                        after,
                        name,
                        routed,
                        report.timestamp_ns,
                        reqs,
                    )
            },
            MarketEvent::TimerTick { timestamp_ns } => twap_ticked(before, after, timestamp_ns, reqs),
        }
    }

    /// Ticks the TWAP, if any, and carries out its action.
    fn tick_twap(&mut self, timestamp_ns: u64) -> (reqs: Vec<OrderRequest>)
        requires
            twap_tick_ok(*old(self), timestamp_ns),
        ensures
            twap_ticked(*old(self), *final(self), timestamp_ns, reqs@),
    {
        let mid_binance = self.book_binance.get_mid_price();
        let mut act: Option<AlgoAction> = None;
        if self.twap.is_some() {
            let mut twap = self.twap.take().unwrap();
            act = twap.on_tick(timestamp_ns, mid_binance);
            self.twap = Some(twap);
        }
        match act {
            Some(action) => self.plan_algo_action(action, "TWAP", timestamp_ns),
            None => Vec::new(),
        }
    }

    /// Applies a book snapshot and ticks the TWAP on it.
    fn on_book_update(&mut self, update: BookUpdate) -> (reqs: Vec<OrderRequest>)
        requires
            old(self).event_ok(MarketEvent::BookUpdate(update)),
        ensures
            ExecutionEngine::processed(*old(self), *final(self), MarketEvent::BookUpdate(update), reqs@),
    {
        match update.exchange {
            Exchange::Binance => {
                let mut book = self.book_binance;
                book.apply_update(&update);
                self.book_binance = book;
            },
            Exchange::Coinbase => {
                let mut book = self.book_coinbase;
                book.apply_update(&update);
                self.book_coinbase = book;
            },
        }
        // Tick the algorithms that depend on prices.
        let ghost b = match update.exchange {
            Exchange::Binance => self.book_binance,
            Exchange::Coinbase => self.book_coinbase,
        };
        assert(*self == with_book(*old(self), update.exchange, b));
        assert(snapshot_applied(
            match update.exchange {
                Exchange::Binance => old(self).book_binance,
                Exchange::Coinbase => old(self).book_coinbase,
            },
            b,
            update,
        ));
        let reqs = self.tick_twap(update.timestamp_ns);
        assert(twap_ticked(with_book(*old(self), update.exchange, b), *self, update.timestamp_ns, reqs@));
        reqs
    }

    /// Decides the reaction to a market or execution event: the books, the running
    /// algorithms and the routing state are updated, and the requests to send are returned.
    pub fn process_event(&mut self, event: MarketEvent) -> (reqs: Vec<OrderRequest>)
        requires
            old(self).event_ok(event),
        ensures
            ExecutionEngine::processed(*old(self), *final(self), event, reqs@),
    {
        match event {
            MarketEvent::BookUpdate(update) => {
                self.on_book_update(update)
            },
            MarketEvent::Trade(trade) => {
                let mid_binance = self.book_binance.get_mid_price();
                let mut act: Option<AlgoAction> = None;
                if self.pov.is_some() {
                    let mut pov = self.pov.take().unwrap();
                    act = pov.on_market_trade(trade.quantity, mid_binance);
                    self.pov = Some(pov);
                }
                match act {
                    Some(action) => self.plan_algo_action(action, "POV", trade.timestamp_ns),
                    None => Vec::new(),
                }
            },
            MarketEvent::ExecutionReport(report) => {
                // Map a routed child's report back to what the algorithm expects.
                let mut algo_report = report;
                let mut algo_name = "DIRECT".to_owned();
                match self.child_to_algo_id.get(&report.client_order_id) {
                    Some(entry) => {
                        algo_name = entry.1.clone();
                        algo_report.client_order_id = entry.0;
                    },
                    None => {},
                }
                assert((algo_name@, algo_report) == report_route(*old(self), report));
                // Record the execution for TCA.
                self.tca.record_execution_report(&report);
                let ghost recorded = *self;
                let twap_name = "TWAP".to_owned();
                let pov_name = "POV".to_owned();
                let iceberg_name = "ICEBERG".to_owned();
                let mut act: Option<AlgoAction> = None;
                if algo_name == twap_name {
                    if self.twap.is_some() {
                        let mut twap = self.twap.take().unwrap();
                        act = twap.on_execution_report(&algo_report);
                        self.twap = Some(twap);
                    }
                } else if algo_name == pov_name {
                    if self.pov.is_some() {
                        let mut pov = self.pov.take().unwrap();
                        act = pov.on_execution_report(&algo_report);
                        self.pov = Some(pov);
                    }
                } else if algo_name == iceberg_name {
                    if self.iceberg.is_some() {
                        let mut iceberg = self.iceberg.take().unwrap();
                        act = iceberg.on_execution_report(&algo_report);
                        self.iceberg = Some(iceberg);
                    }
                }
                let reqs = match act {
                    Some(action) => self.plan_algo_action(action, algo_name.as_str(), report.timestamp_ns),
                    None => Vec::new(),
                };
                assert(report_dispatched(recorded, *self, algo_name@, algo_report, report.timestamp_ns, reqs@));
                assert(recorded == with_tca(*old(self), recorded.tca));
                assert(ExecutionEngine::processed(*old(self), *self, event, reqs@));
                reqs
            },
            MarketEvent::TimerTick { timestamp_ns } => self.tick_twap(timestamp_ns),
        }
    }

    /// Entry point to process a market or execution event in the hot loop: the
    /// resulting requests go to the output queue, and any the full queue refuses
    /// are dropped.
    pub fn on_event(&mut self, event: MarketEvent)
        requires
            old(self).event_ok(event),
        ensures
            exists|reqs: Seq<OrderRequest>| ExecutionEngine::processed(*old(self), *final(self), event, reqs),
    {
        let reqs = self.process_event(event);
        let mut i: usize = 0;
        while i < reqs.len()
            invariant
                i <= reqs@.len(),
            decreases reqs@.len() - i,
        {
            let _ = queue_push(&self.output_queue, reqs[i]);
            i = i + 1;
        }
    }
}

/// A report on a child the engine placed for an algorithm's order goes back to that
/// algorithm, carrying the algorithm's own order id.
pub proof fn lemma_child_reports_route_back(
    before: ExecutionEngine,
    after: ExecutionEngine,
    legs: Seq<SorRoute>,
    side: Side,
    algo_order_id: u64,
    name: Seq<char>,
    ts: u64,
    reqs: Seq<OrderRequest>,
    j: int,
    report: ExecutionReport,
)
    requires
        ExecutionEngine::placed(before, after, legs, side, algo_order_id, name, ts, reqs),
        0 <= j < reqs.len(),
        report.client_order_id == reqs[j].client_order_id,
    ensures
        report_route(after, report) == (name, ExecutionReport { client_order_id: algo_order_id, ..report }),
{
    let c0 = before.internal_client_order_id_counter;
    assert(reqs[j] == child_request((c0 + j + 1) as u64, legs[j], side));
    let k = report.client_order_id;
    assert(c0 < k <= c0 + legs.len());
    assert(after.child_to_algo_id@.contains_key(k));
    assert(child_of(after.child_to_algo_id@[k], algo_order_id, name));
}

/// Cancelling an algorithm's order right after placing it cancels every child placed.
pub proof fn lemma_cancel_covers_placed_children(
    before: ExecutionEngine,
    after: ExecutionEngine,
    legs: Seq<SorRoute>,
    side: Side,
    algo_order_id: u64,
    name: Seq<char>,
    ts: u64,
    reqs: Seq<OrderRequest>,
    exchange: Exchange,
    cancels: Seq<OrderRequest>,
)
    requires
        ExecutionEngine::placed(before, after, legs, side, algo_order_id, name, ts, reqs),
        cancels_children(after.child_to_algo_id@, algo_order_id, name, exchange, cancels),
    ensures
        forall|j: int| 0 <= j < reqs.len() ==> exists|i: int|
            0 <= i < cancels.len() && cancels[i].client_order_id == (#[trigger] reqs[j]).client_order_id,
{
    let c0 = before.internal_client_order_id_counter;
    assert forall|j: int| 0 <= j < reqs.len() implies exists|i: int|
        0 <= i < cancels.len() && cancels[i].client_order_id == (#[trigger] reqs[j]).client_order_id by {
        assert(reqs[j] == child_request((c0 + j + 1) as u64, legs[j], side));
        let k = reqs[j].client_order_id;
        assert(after.child_to_algo_id@.contains_key(k));
        assert(child_of(after.child_to_algo_id@[k], algo_order_id, name));
    }
}

/// The engine with its two books replaced.
pub open spec fn with_books(e: ExecutionEngine, book_binance: OrderBook, book_coinbase: OrderBook) -> ExecutionEngine {
    ExecutionEngine { book_binance, book_coinbase, ..e }
}

impl ExecutionEngine {
    /// `action_fits` for the engine with the given books.
    fn action_fits_with(&self, bb: &OrderBook, bc: &OrderBook, action: AlgoAction) -> (b: bool)
        ensures
            b == with_books(*self, *bb, *bc).action_fits(action),
    {
        match action {
            AlgoAction::CancelOrder { .. } => true,
            AlgoAction::PlaceOrder { side, price, quantity, .. } => {
                if quantity.0 != 0 {
                    if !(bb.bid_count <= MAX_DEPTH && bb.ask_count <= MAX_DEPTH && bc.bid_count <= MAX_DEPTH
                        && bc.ask_count <= MAX_DEPTH) {
                        return false;
                    }
                    if !book_routable(bb, Exchange::Binance, side) || !book_routable(bc, Exchange::Coinbase, side) {
                        return false;
                    }
                }
                let (routes, count) = route_order(bb, bc, side, quantity);
                let legs: u64 = if count == 0 { 1 } else { count as u64 };
                proof {
                    let planned = planned_routes(*bb, *bc, side, quantity);
                    assert(planned.len() == count);
                    assert(placement_legs(*bb, *bc, side, price, quantity).len() == legs);
                }
                legs <= u64::MAX - self.internal_client_order_id_counter
            },
        }
    }

    /// Whether `handle_algo_action` (or `plan_algo_action`) can take `action`.
    pub fn can_act(&self, action: AlgoAction) -> (b: bool)
        ensures
            b == self.action_fits(action),
    {
        let r = self.action_fits_with(&self.book_binance, &self.book_coinbase, action);
        assert(with_books(*self, self.book_binance, self.book_coinbase) == *self);
        r
    }

    /// `twap_tick_ok` for the engine with the given books.
    fn twap_tick_ok_with(&self, bb: &OrderBook, bc: &OrderBook, timestamp_ns: u64) -> (b: bool)
        ensures
            b == twap_tick_ok(with_books(*self, *bb, *bc), timestamp_ns),
    {
        if bb.bid_count > 0 && bb.ask_count > 0 && bb.bids[0].price.0 > u64::MAX - bb.asks[0].price.0 {
            return false;
        }
        match &self.twap {
            None => true,
            Some(t) => {
                if !t.tick_fits(timestamp_ns) {
                    return false;
                }
                let mid = bb.get_mid_price();
                let mut probe = TwapAlgo { is_finished: t.is_finished, ..*t };
                match probe.on_tick(timestamp_ns, mid) {
                    Some(a) => self.action_fits_with(bb, bc, a),
                    None => true,
                }
            },
        }
    }

    /// `pov_trade_ok` for the engine.
    fn pov_trade_ok_check(&self, trade_qty: Decimal) -> (b: bool)
        ensures
            b == pov_trade_ok(*self, trade_qty),
    {
        let bb = &self.book_binance;
        if bb.bid_count > 0 && bb.ask_count > 0 && bb.bids[0].price.0 > u64::MAX - bb.asks[0].price.0 {
            return false;
        }
        match &self.pov {
            None => true,
            Some(p) => {
                let mid = bb.get_mid_price();
                if !p.trade_fits(trade_qty, mid) {
                    return false;
                }
                let mut probe = PovAlgo { is_finished: p.is_finished, ..*p };
                match probe.on_market_trade(trade_qty, mid) {
                    Some(a) => self.can_act(a),
                    None => true,
                }
            },
        }
    }

    /// `report_ok` for the engine.
    fn report_ok_check(&self, report: ExecutionReport) -> (b: bool)
        ensures
            b == report_ok(*self, report),
    {
        let mut algo_report = report;
        let mut algo_name = "DIRECT".to_owned();
        match self.child_to_algo_id.get(&report.client_order_id) {
            Some(entry) => {
                algo_name = entry.1.clone();
                algo_report.client_order_id = entry.0;
            },
            None => {},
        }
        assert((algo_name@, algo_report) == report_route(*self, report));
        if !self.tca.report_fits(&report) {
            return false;
        }
        let twap_name = "TWAP".to_owned();
        let pov_name = "POV".to_owned();
        let iceberg_name = "ICEBERG".to_owned();
        proof {
            reveal_strlit("TWAP");
            reveal_strlit("POV");
            reveal_strlit("ICEBERG");
            assert("TWAP"@.len() != "POV"@.len() && "TWAP"@.len() != "ICEBERG"@.len() && "POV"@.len()
                != "ICEBERG"@.len());
        }
        if algo_name == twap_name {
            match &self.twap {
                None => true,
                Some(t) => {
                    if !t.report_fits(&algo_report) {
                        return false;
                    }
                    let mut probe = TwapAlgo { is_finished: t.is_finished, ..*t };
                    match probe.on_execution_report(&algo_report) {
                        Some(a) => self.can_act(a),
                        None => true,
                    }
                },
            }
        } else if algo_name == pov_name {
            match &self.pov {
                None => true,
                Some(p) => p.report_fits(&algo_report),
            }
        } else if algo_name == iceberg_name {
            match &self.iceberg {
                None => true,
                Some(i) => {
                    if !i.report_fits(&algo_report) {
                        return false;
                    }
                    let mut probe = IcebergAlgo { is_finished: i.is_finished, ..*i };
                    match probe.on_execution_report(&algo_report) {
                        Some(a) => self.can_act(a),
                        None => true,
                    }
                },
            }
        } else {
            true
        }
    }

    /// Whether `on_event` (or `process_event`) can take `event`.
    pub fn can_process(&self, event: &MarketEvent) -> (b: bool)
        ensures
            b == self.event_ok(*event),
    {
        match event {
            MarketEvent::BookUpdate(update) => {
                let mut after = match update.exchange {
                    Exchange::Binance => self.book_binance,
                    Exchange::Coinbase => self.book_coinbase,
                };
                after.apply_update(update);
                let r = match update.exchange {
                    Exchange::Binance => self.twap_tick_ok_with(&after, &self.book_coinbase, update.timestamp_ns),
                    Exchange::Coinbase => self.twap_tick_ok_with(&self.book_binance, &after, update.timestamp_ns),
                };
                proof {
                    let before = match update.exchange {
                        Exchange::Binance => self.book_binance,
                        Exchange::Coinbase => self.book_coinbase,
                    };
                    let e_after = with_book(*self, update.exchange, after);
                    assert(r == twap_tick_ok(e_after, update.timestamp_ns));
                    if r {
                        assert forall|b: OrderBook|
                            snapshot_applied(before, b, *update) implies twap_tick_ok(
                                #[trigger] with_book(*self, update.exchange, b),
                                update.timestamp_ns,
                            ) by {
                            lemma_snapshot_unique(before, b, after, *update);
                        }
                    }
                }
                r
            },
            MarketEvent::Trade(trade) => self.pov_trade_ok_check(trade.quantity),
            MarketEvent::ExecutionReport(report) => self.report_ok_check(*report),
            MarketEvent::TimerTick { timestamp_ns } => {
                let r = self.twap_tick_ok_with(&self.book_binance, &self.book_coinbase, *timestamp_ns);
                assert(with_books(*self, self.book_binance, self.book_coinbase) == *self);
                r
            },
        }
    }
}

/// Every child request sent for an algorithm's order carries that order's side and
/// the venue, price and quantity of its leg, as a good-till-cancelled limit order
/// for the engine's symbol under the next internal id.
pub proof fn lemma_placed_children_keep_the_order(
    before: ExecutionEngine,
    after: ExecutionEngine,
    legs: Seq<SorRoute>,
    side: Side,
    algo_order_id: u64,
    name: Seq<char>,
    ts: u64,
    reqs: Seq<OrderRequest>,
)
    requires
        ExecutionEngine::placed(before, after, legs, side, algo_order_id, name, ts, reqs),
    ensures
        reqs.len() == legs.len(),
        forall|j: int|
            0 <= j < reqs.len() ==> {
                &&& (#[trigger] reqs[j]).side == side
                &&& reqs[j].order_type == OrderType::Limit
                &&& reqs[j].time_in_force == TimeInForce::GTC
                &&& reqs[j].symbol == Symbol::BTCUSDT
                &&& reqs[j].exchange == legs[j].exchange
                &&& reqs[j].price == legs[j].price
                &&& reqs[j].quantity == legs[j].quantity
                &&& reqs[j].client_order_id == before.internal_client_order_id_counter + j + 1
            },
        after.internal_client_order_id_counter == before.internal_client_order_id_counter + legs.len(),
{
    assert forall|j: int| 0 <= j < reqs.len() implies {
        &&& (#[trigger] reqs[j]).side == side
        &&& reqs[j].order_type == OrderType::Limit
        &&& reqs[j].time_in_force == TimeInForce::GTC
        &&& reqs[j].symbol == Symbol::BTCUSDT
        &&& reqs[j].exchange == legs[j].exchange
        &&& reqs[j].price == legs[j].price
        &&& reqs[j].quantity == legs[j].quantity
        &&& reqs[j].client_order_id == before.internal_client_order_id_counter + j + 1
    } by {
        assert(reqs[j] == child_request((before.internal_client_order_id_counter + j + 1) as u64, legs[j], side));
    }
}

/// Acting on an algorithm's placement sends at least one child, every one on the side
/// of the algorithm's order; when routing finds no liquidity the single child goes to
/// Binance at the algorithm's own price and quantity.
pub proof fn lemma_placement_sends_on_the_order_side(
    before: ExecutionEngine,
    after: ExecutionEngine,
    client_order_id: u64,
    exchange: Exchange,
    side: Side,
    price: Decimal,
    quantity: Decimal,
    name: Seq<char>,
    ts: u64,
    reqs: Seq<OrderRequest>,
)
    requires
        ExecutionEngine::acted(
            before,
            after,
            AlgoAction::PlaceOrder { client_order_id, exchange, side, price, quantity },
            name,
            ts,
            reqs,
        ),
    ensures
        reqs.len() >= 1,
        forall|j: int| 0 <= j < reqs.len() ==> (#[trigger] reqs[j]).side == side && reqs[j].order_type
            == OrderType::Limit,
        planned_routes(before.book_binance, before.book_coinbase, side, quantity).len() == 0 ==> {
            &&& reqs.len() == 1
            &&& reqs[0].exchange == Exchange::Binance
            &&& reqs[0].price == price
            &&& reqs[0].quantity == quantity
            &&& reqs[0].side == side
        },
{
    let legs = placement_legs(before.book_binance, before.book_coinbase, side, price, quantity);
    lemma_placed_children_keep_the_order(before, after, legs, side, client_order_id, name, ts, reqs);
}

/// A cancellation of an algorithm's order leaves the engine as it was and sends, to
/// the given venue, one zero-price zero-quantity request per child of that order.
pub proof fn lemma_cancel_sends_zero_requests(
    before: ExecutionEngine,
    after: ExecutionEngine,
    client_order_id: u64,
    exchange: Exchange,
    name: Seq<char>,
    ts: u64,
    reqs: Seq<OrderRequest>,
)
    requires
        ExecutionEngine::acted(before, after, AlgoAction::CancelOrder { client_order_id, exchange }, name, ts, reqs),
    ensures
        after == before,
        forall|j: int|
            0 <= j < reqs.len() ==> {
                &&& (#[trigger] reqs[j]).exchange == exchange
                &&& reqs[j].price.0 == 0
                &&& reqs[j].quantity.0 == 0
                &&& before.child_to_algo_id@.contains_key(reqs[j].client_order_id)
                &&& before.child_to_algo_id@[reqs[j].client_order_id].0 == client_order_id
                &&& before.child_to_algo_id@[reqs[j].client_order_id].1@ == name
            },
{
}

} // verus!
