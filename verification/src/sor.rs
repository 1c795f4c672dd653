use vstd::prelude::*;
use crate::order_book::{OrderBook, MAX_DEPTH};
use crate::types::{BookUpdateLevel, Decimal, Exchange, Side};

verus! {

/// Most candidate levels a route can draw on: every level of both books.
pub const MAX_ROUTES: usize = 40;

/// One leg of a routed order: a quantity to send to a venue at a price.
#[derive(Debug, Clone, Copy, PartialEq, Eq, Structural)]
pub struct SorRoute {
    pub exchange: Exchange,
    pub price: Decimal,
    pub quantity: Decimal,
}

/// A book level considered for routing, with its fee-adjusted price.
#[derive(Debug, Clone, Copy, PartialEq, Eq, Structural)]
pub struct RouteCandidate {
    pub exchange: Exchange,
    pub price: Decimal,
    pub quantity: Decimal,
    pub effective_price: u64,
}

impl Default for RouteCandidate {
    fn default() -> (c: RouteCandidate)
        ensures
            c == empty_candidate(),
    {
        RouteCandidate {
            exchange: Exchange::Binance,
            price: Decimal(0),
            quantity: Decimal(0),
            effective_price: 0,
        }
    }
}

pub open spec fn empty_candidate() -> RouteCandidate {
    RouteCandidate { exchange: Exchange::Binance, price: Decimal(0), quantity: Decimal(0), effective_price: 0 }
}

pub open spec fn empty_route() -> SorRoute {
    SorRoute { exchange: Exchange::Binance, price: Decimal(0), quantity: Decimal(0) }
}

// Taker fees: Binance 0.1%, Coinbase 0.4%.
const BINANCE_FEE_BPS: u64 = 10;
const COINBASE_FEE_BPS: u64 = 40;
const BPS_BASE: u64 = 10000;

/// Taker fee of a venue in basis points.
pub open spec fn fee_bps(exchange: Exchange) -> u64 {
    match exchange {
        Exchange::Binance => 10,
        Exchange::Coinbase => 40,
    }
}

/// The fee on one unit bought or sold at `price`, in raw units, truncated.
pub open spec fn fee_on(price: u64, exchange: Exchange) -> int {
    (price * fee_bps(exchange)) / 10000
}

/// What buying one unit at `price` costs with the taker fee.
pub open spec fn buy_effective_price(price: u64, exchange: Exchange) -> int {
    price + fee_on(price, exchange)
}

/// What selling one unit at `price` yields after the taker fee.
pub open spec fn sell_effective_price(price: u64, exchange: Exchange) -> int {
    price - fee_on(price, exchange)
}

pub open spec fn effective_price(price: u64, exchange: Exchange, side: Side) -> int {
    match side {
        Side::Buy => buy_effective_price(price, exchange),
        Side::Sell => sell_effective_price(price, exchange),
    }
}

/// The fee-adjusted price of `price` can be computed within `u64`.
pub open spec fn price_is_routable(price: u64, exchange: Exchange, side: Side) -> bool {
    &&& price * fee_bps(exchange) <= u64::MAX
    &&& side == Side::Buy ==> buy_effective_price(price, exchange) <= u64::MAX
}

/// The levels an order on `side` takes liquidity from: asks for a buy, bids for a sell.
pub open spec fn opposite_levels(book: OrderBook, side: Side) -> Seq<BookUpdateLevel> {
    match side {
        Side::Buy => book.ask_levels(),
        Side::Sell => book.bid_levels(),
    }
}

pub open spec fn book_is_routable(book: OrderBook, exchange: Exchange, side: Side) -> bool {
    forall|i: int|
        0 <= i < opposite_levels(book, side).len() ==> price_is_routable(
            #[trigger] opposite_levels(book, side)[i].price.0,
            exchange,
            side,
        )
}

pub open spec fn candidate_of(level: BookUpdateLevel, exchange: Exchange, side: Side) -> RouteCandidate {
    RouteCandidate {
        exchange,
        price: level.price,
        quantity: level.quantity,
        effective_price: effective_price(level.price.0, exchange, side) as u64,
    }
}

/// The candidates one book offers to an order on `side`, in book order.
pub open spec fn book_candidates(book: OrderBook, exchange: Exchange, side: Side) -> Seq<RouteCandidate> {
    opposite_levels(book, side).map_values(|l: BookUpdateLevel| candidate_of(l, exchange, side))
}

/// Binance's candidates followed by Coinbase's.
pub open spec fn all_candidates(book_binance: OrderBook, book_coinbase: OrderBook, side: Side) -> Seq<RouteCandidate> {
    book_candidates(book_binance, Exchange::Binance, side) + book_candidates(book_coinbase, Exchange::Coinbase, side)
}

/// `earlier` must move behind `later`: its fee-adjusted price is worse (higher for a buy,
/// lower for a sell).
pub open spec fn is_worse(earlier: RouteCandidate, later: RouteCandidate, side: Side) -> bool {
    match side {
        Side::Buy => earlier.effective_price > later.effective_price,
        Side::Sell => earlier.effective_price < later.effective_price,
    }
}

/// Inserts `c` into `sorted` behind every element that is not worse than it.
pub open spec fn insert_candidate(sorted: Seq<RouteCandidate>, c: RouteCandidate, side: Side) -> Seq<RouteCandidate>
    decreases sorted.len(),
{
    if sorted.len() == 0 {
        seq![c]
    } else if is_worse(sorted.last(), c, side) {
        insert_candidate(sorted.drop_last(), c, side).push(sorted.last())
    } else {
        sorted.push(c)
    }
}

/// Stable insertion sort, best fee-adjusted price first.
pub open spec fn sort_candidates(cands: Seq<RouteCandidate>, side: Side) -> Seq<RouteCandidate>
    decreases cands.len(),
{
    if cands.len() == 0 {
        cands
    } else {
        insert_candidate(sort_candidates(cands.drop_last(), side), cands.last(), side)
    }
}

/// Greedy fill of `target` over `cands` in order: each candidate gives what is still
/// needed up to its quantity, and a leg at the venue and price of the previous leg is
/// merged into it. Returns the legs and the quantity still unfilled.
pub open spec fn fill_routes(cands: Seq<RouteCandidate>, target: u64) -> (Seq<SorRoute>, u64)
    decreases cands.len(),
{
    if cands.len() == 0 {
        (seq![], target)
    } else {
        let (routes, remaining) = fill_routes(cands.drop_last(), target);
        let c = cands.last();
        if remaining == 0 {
            (routes, remaining)
        } else {
            let fill: u64 = if c.quantity.0 >= remaining { remaining } else { c.quantity.0 };
            let merged = routes.len() > 0 && routes.last().exchange == c.exchange && routes.last().price == c.price;
            let next = if merged {
                routes.update(
                    routes.len() - 1,
                    SorRoute {
                        exchange: routes.last().exchange,
                        price: routes.last().price,
                        quantity: Decimal((routes.last().quantity.0 + fill) as u64),
                    },
                )
            } else {
                routes.push(SorRoute { exchange: c.exchange, price: c.price, quantity: Decimal(fill) })
            };
            (next, (remaining - fill) as u64)
        }
    }
}

/// The routed legs for `target` over both books.
pub open spec fn planned_routes(
    book_binance: OrderBook,
    book_coinbase: OrderBook,
    side: Side,
    target: Decimal,
) -> Seq<SorRoute> {
    fill_routes(sort_candidates(all_candidates(book_binance, book_coinbase, side), side), target.0).0
}

/// Sum of the leg quantities.
pub open spec fn routes_total(routes: Seq<SorRoute>) -> int
    decreases routes.len(),
{
    if routes.len() == 0 {
        0
    } else {
        routes_total(routes.drop_last()) + routes.last().quantity.0
    }
}

fn get_buy_effective_price(price: Decimal, exchange: Exchange) -> (r: u64)
    requires
        price_is_routable(price.0, exchange, Side::Buy),
    ensures
        r == buy_effective_price(price.0, exchange),
{
    let fee_bps = match exchange {
        Exchange::Binance => BINANCE_FEE_BPS,
        Exchange::Coinbase => COINBASE_FEE_BPS,
    };
    price.0 + (price.0 * fee_bps) / BPS_BASE
}

fn get_sell_effective_price(price: Decimal, exchange: Exchange) -> (r: u64)
    requires
        price_is_routable(price.0, exchange, Side::Sell),
    ensures
        r == sell_effective_price(price.0, exchange),
{
    let fee_bps = match exchange {
        Exchange::Binance => BINANCE_FEE_BPS,
        Exchange::Coinbase => COINBASE_FEE_BPS,
    };
    assert((price.0 * fee_bps) / 10000 <= price.0) by (nonlinear_arith)
        requires
            fee_bps <= 40,
    ;
    price.0.saturating_sub((price.0 * fee_bps) / BPS_BASE)
}

/// Appends the candidates of one book after the first `count` slots.
fn push_candidates(
    cands: &mut [RouteCandidate; 40],
    count: usize,
    book: &OrderBook,
    exchange: Exchange,
    side: Side,
) -> (new_count: usize)
    requires
        book.wf(),
        count <= MAX_DEPTH,
        book_is_routable(*book, exchange, side),
    ensures
        new_count == count + book_candidates(*book, exchange, side).len(),
        final(cands)@.take(new_count as int) == old(cands)@.take(count as int) + book_candidates(
            *book,
            exchange,
            side,
        ),
{
    let ghost start = cands@.take(count as int);
    let ghost wanted = book_candidates(*book, exchange, side);
    let n = match side {
        Side::Buy => book.ask_count,
        Side::Sell => book.bid_count,
    };
    assert(book.bids@.len() == 20 && book.asks@.len() == 20);
    assert(wanted.len() == n);
    let mut i: usize = 0;
    while i < n
        invariant
            i <= n <= MAX_DEPTH,
            count <= MAX_DEPTH,
            book.wf(),
            book_is_routable(*book, exchange, side),
            n == opposite_levels(*book, side).len(),
            wanted == book_candidates(*book, exchange, side),
            wanted.len() == n,
            cands@.len() == 40,
            cands@.take(count + i) == start + wanted.take(i as int),
        decreases n - i,
    {
        let level = match side {
            Side::Buy => book.asks[i],
            Side::Sell => book.bids[i],
        };
        assert(level == opposite_levels(*book, side)[i as int]);
        assert(price_is_routable(level.price.0, exchange, side));
        let eff = match side {
            Side::Buy => get_buy_effective_price(level.price, exchange),
            Side::Sell => get_sell_effective_price(level.price, exchange),
        };
        let ghost before = cands@;
        cands[count + i] = RouteCandidate {
            exchange,
            price: level.price,
            quantity: level.quantity,
            effective_price: eff,
        };
        assert(cands@[count + i] == wanted[i as int]);
        assert(cands@.take(count + i + 1) =~= before.take(count + i).push(wanted[i as int]));
        assert(wanted.take(i + 1) =~= wanted.take(i as int).push(wanted[i as int]));
        i = i + 1;
    }
    assert(wanted.take(n as int) =~= wanted);
    count + n
}

/// Moving `c` left past a tail of worse candidates: inserting into the whole
/// sequence equals inserting into the part before that tail, then the tail.
proof fn lemma_insert_split(s: Seq<RouteCandidate>, c: RouteCandidate, side: Side, j: int)
    requires
        0 <= j <= s.len(),
        forall|t: int| j <= t < s.len() ==> is_worse(#[trigger] s[t], c, side),
    ensures
        insert_candidate(s, c, side) == insert_candidate(s.take(j), c, side) + s.skip(j),
    decreases s.len(),
{
    if j == s.len() {
        assert(s.take(j) =~= s);
        assert(s.skip(j) =~= Seq::<RouteCandidate>::empty());
    } else {
        let d = s.drop_last();
        assert(is_worse(s[s.len() - 1], c, side));
        lemma_insert_split(d, c, side, j);
        assert(d.take(j) =~= s.take(j));
        assert(s.skip(j) =~= d.skip(j).push(s.last()));
        assert(insert_candidate(s, c, side) == insert_candidate(d, c, side).push(s.last()));
        assert((insert_candidate(d.take(j), c, side) + d.skip(j)).push(s.last()) =~= insert_candidate(
            d.take(j),
            c,
            side,
        ) + s.skip(j));
    }
}

fn ranks_behind(earlier: RouteCandidate, later: RouteCandidate, side: Side) -> (r: bool)
    ensures
        r == is_worse(earlier, later, side),
{
    match side {
        Side::Buy => earlier.effective_price > later.effective_price,
        Side::Sell => earlier.effective_price < later.effective_price,
    }
}

/// Stable insertion sort of the first `n` slots, best fee-adjusted price first.
fn sort_candidates_in_place(cands: &mut [RouteCandidate; 40], n: usize, side: Side)
    requires
        n <= MAX_ROUTES,
    ensures
        final(cands)@.take(n as int) == sort_candidates(old(cands)@.take(n as int), side),
{
    let ghost orig = cands@.take(n as int);
    if n == 0 {
        assert(cands@.take(0) =~= orig);
        return;
    }
    proof {
        let first = orig.take(1);
        let none = Seq::<RouteCandidate>::empty();
        assert(first.drop_last() =~= none);
        assert(sort_candidates(none, side) == none);
        assert(insert_candidate(none, first.last(), side) == seq![first.last()]);
        assert(sort_candidates(first, side) == seq![orig[0]]);
        assert(cands@.take(1) =~= sort_candidates(first, side));
    }
    let mut i: usize = 1;
    while i < n
        invariant
            1 <= i <= n <= MAX_ROUTES,
            cands@.len() == 40,
            orig.len() == n,
            cands@.take(i as int) == sort_candidates(orig.take(i as int), side),
            forall|t: int| i <= t < n ==> cands@[t] == orig[t],
        decreases n - i,
    {
        let ghost sorted = cands@.take(i as int);
        let ghost c = orig[i as int];
        assert(orig.take(i + 1).drop_last() =~= orig.take(i as int));
        assert(sort_candidates(orig.take(i + 1), side) == insert_candidate(sorted, c, side));
        let mut j: usize = i;
        while j > 0 && ranks_behind(cands[j - 1], cands[j], side)
            invariant
                0 <= j <= i < n <= MAX_ROUTES,
                cands@.len() == 40,
                sorted.len() == i,
                cands@[j as int] == c,
                forall|t: int| 0 <= t < j ==> cands@[t] == sorted[t],
                forall|t: int| j < t <= i ==> cands@[t] == sorted[t - 1],
                forall|t: int| i < t < n ==> cands@[t] == orig[t],
                forall|t: int| j <= t < i ==> is_worse(#[trigger] sorted[t], c, side),
            decreases j,
        {
            let tmp = cands[j - 1];
            cands[j - 1] = cands[j];
            cands[j] = tmp;
            j = j - 1;
        }
        proof {
            lemma_insert_split(sorted, c, side, j as int);
            let head = sorted.take(j as int);
            if j > 0 {
                assert(head.last() == sorted[j - 1]);
                assert(!is_worse(head.last(), c, side));
            }
            assert(insert_candidate(head, c, side) == head.push(c));
            assert(cands@.take(i + 1) =~= head.push(c) + sorted.skip(j as int));
        }
        i = i + 1;
    }
    assert(orig.take(n as int) =~= orig);
}

proof fn lemma_routes_total_nonneg(routes: Seq<SorRoute>)
    ensures
        routes_total(routes) >= 0,
    decreases routes.len(),
{
    if routes.len() > 0 {
        lemma_routes_total_nonneg(routes.drop_last());
    }
}

/// Once nothing remains to fill, later candidates change nothing.
proof fn lemma_fill_settled(cands: Seq<RouteCandidate>, target: u64, i: int, j: int)
    requires
        0 <= i <= j <= cands.len(),
        fill_routes(cands.take(i), target).1 == 0,
    ensures
        fill_routes(cands.take(j), target) == fill_routes(cands.take(i), target),
    decreases j - i,
{
    if j > i {
        lemma_fill_settled(cands, target, i, j - 1);
        assert(cands.take(j).drop_last() =~= cands.take(j - 1));
    }
}

/// Nothing to fill gives no legs.
proof fn lemma_fill_nothing(cands: Seq<RouteCandidate>)
    ensures
        fill_routes(cands, 0) == (Seq::<SorRoute>::empty(), 0u64),
    decreases cands.len(),
{
    if cands.len() > 0 {
        lemma_fill_nothing(cands.drop_last());
    }
}

/// The greedy fill of `target` over the first `n` (already sorted) candidates.
fn fill_from_candidates(
    cands: &[RouteCandidate; 40],
    n: usize,
    target_qty: Decimal,
) -> (r: ([SorRoute; 40], usize))
    requires
        n <= MAX_ROUTES,
    ensures
        r.1 <= n,
        r.0@.take(r.1 as int) == fill_routes(cands@.take(n as int), target_qty.0).0,
        forall|t: int| r.1 <= t < MAX_ROUTES ==> r.0@[t] == empty_route(),
{
    let empty = SorRoute { exchange: Exchange::Binance, price: Decimal(0), quantity: Decimal(0) };
    let mut routes: [SorRoute; 40] = [empty; 40];
    proof {
        broadcast use vstd::array::group_array_axioms;
        assert(routes == vstd::array::spec_array_fill_for_copy_type::<SorRoute, 40>(empty));
    }
    let mut route_count: usize = 0;
    let ghost sorted = cands@.take(n as int);
    let mut remaining = target_qty;
    let mut i: usize = 0;
    assert(sorted.take(0) =~= Seq::<RouteCandidate>::empty());
    assert(routes@.take(0) =~= Seq::<SorRoute>::empty());
    assert(sorted.take(n as int) =~= sorted);
    while i < n
        invariant
            i <= n <= MAX_ROUTES,
            route_count <= i,
            sorted == cands@.take(n as int),
            sorted.take(n as int) == sorted,
            routes@.len() == 40,
            (routes@.take(route_count as int), remaining.0) == fill_routes(sorted.take(i as int), target_qty.0),
            routes_total(routes@.take(route_count as int)) + remaining.0 == target_qty.0,
            forall|t: int| route_count <= t < MAX_ROUTES ==> routes@[t] == empty_route(),
        ensures
            (routes@.take(route_count as int), remaining.0) == fill_routes(sorted, target_qty.0),
            route_count <= n,
            forall|t: int| route_count <= t < MAX_ROUTES ==> routes@[t] == empty_route(),
        decreases n - i,
    {
        if remaining.is_zero() {
            proof {
                lemma_fill_settled(sorted, target_qty.0, i as int, n as int);
                assert(sorted.take(n as int) =~= sorted);
            }
            break;
        }
        let cand = cands[i];
        assert(cand == sorted[i as int]);
        let ghost prev = routes@.take(route_count as int);
        let fill_qty = if cand.quantity.0 >= remaining.0 { remaining } else { cand.quantity };
        proof {
            assert(sorted.take(i + 1).drop_last() =~= sorted.take(i as int));
            lemma_routes_total_nonneg(prev);
            if route_count > 0 {
                lemma_routes_total_nonneg(prev.drop_last());
            }
        }
        if route_count > 0 && routes[route_count - 1].exchange == cand.exchange
            && routes[route_count - 1].price == cand.price {
            let last = routes[route_count - 1];
            routes[route_count - 1] = SorRoute {
                exchange: last.exchange,
                price: last.price,
                quantity: last.quantity + fill_qty,
            };
            proof {
                let now = routes@.take(route_count as int);
                assert(now =~= prev.update(prev.len() - 1, routes@[route_count - 1]));
                assert(now.drop_last() =~= prev.drop_last());
            }
        } else if route_count < MAX_ROUTES {
            routes[route_count] = SorRoute {
                exchange: cand.exchange,
                price: cand.price,
                quantity: fill_qty,
            };
            route_count = route_count + 1;
            proof {
                let now = routes@.take(route_count as int);
                assert(now =~= prev.push(routes@[route_count - 1]));
                assert(now.drop_last() =~= prev);
            }
        }
        remaining = remaining - fill_qty;
        i = i + 1;
    }
    (routes, route_count)
}

/// Computes the Smart Order Routing path to buy or sell the target quantity:
/// the levels of both books, ranked by fee-adjusted price, filled greedily.
pub fn route_order(
    book_binance: &OrderBook,
    book_coinbase: &OrderBook,
    side: Side,
    target_qty: Decimal,
) -> (r: ([SorRoute; 40], usize))
    requires
        target_qty.0 != 0 ==> book_binance.wf() && book_coinbase.wf() && book_is_routable(
            *book_binance,
            Exchange::Binance,
            side,
        ) && book_is_routable(*book_coinbase, Exchange::Coinbase, side),
    ensures
        r.1 <= MAX_ROUTES,
        r.0@.take(r.1 as int) == planned_routes(*book_binance, *book_coinbase, side, target_qty),
        forall|t: int| r.1 <= t < MAX_ROUTES ==> r.0@[t] == empty_route(),
{
    if target_qty.is_zero() {
        let empty = SorRoute { exchange: Exchange::Binance, price: Decimal(0), quantity: Decimal(0) };
        let routes: [SorRoute; 40] = [empty; 40];
        proof {
            broadcast use vstd::array::group_array_axioms;
            assert(routes == vstd::array::spec_array_fill_for_copy_type::<SorRoute, 40>(empty));
            lemma_fill_nothing(sort_candidates(all_candidates(*book_binance, *book_coinbase, side), side));
            assert(routes@.take(0) =~= Seq::<SorRoute>::empty());
        }
        return (routes, 0);
    }
    let blank = RouteCandidate::default();
    let mut candidates: [RouteCandidate; 40] = [blank; 40];
    let count_b = push_candidates(&mut candidates, 0, book_binance, Exchange::Binance, side);
    let ghost after_b = candidates@;
    let count = push_candidates(&mut candidates, count_b, book_coinbase, Exchange::Coinbase, side);
    proof {
        assert(after_b.take(0) =~= Seq::<RouteCandidate>::empty());
        assert(candidates@.take(count as int) =~= all_candidates(*book_binance, *book_coinbase, side));
    }
    sort_candidates_in_place(&mut candidates, count, side);
    fill_from_candidates(&candidates, count, target_qty)
}

/// Sum of the candidate quantities.
pub open spec fn candidates_total(cands: Seq<RouteCandidate>) -> int
    decreases cands.len(),
{
    if cands.len() == 0 {
        0
    } else {
        candidates_total(cands.drop_last()) + cands.last().quantity.0
    }
}

/// Sum of the quantities of some book levels.
pub open spec fn levels_total(levels: Seq<BookUpdateLevel>) -> int
    decreases levels.len(),
{
    if levels.len() == 0 {
        0
    } else {
        levels_total(levels.drop_last()) + levels.last().quantity.0
    }
}

/// The quantity both books offer to an order on `side`.
pub open spec fn available_liquidity(book_binance: OrderBook, book_coinbase: OrderBook, side: Side) -> int {
    levels_total(opposite_levels(book_binance, side)) + levels_total(opposite_levels(book_coinbase, side))
}

proof fn lemma_candidates_total_append(a: Seq<RouteCandidate>, b: Seq<RouteCandidate>)
    ensures
        candidates_total(a + b) == candidates_total(a) + candidates_total(b),
    decreases b.len(),
{
    if b.len() > 0 {
        lemma_candidates_total_append(a, b.drop_last());
        assert((a + b).drop_last() =~= a + b.drop_last());
    } else {
        assert(a + b =~= a);
    }
}

proof fn lemma_book_candidates_total(book: OrderBook, exchange: Exchange, side: Side, n: int)
    requires
        0 <= n <= opposite_levels(book, side).len(),
    ensures
        candidates_total(book_candidates(book, exchange, side).take(n)) == levels_total(
            opposite_levels(book, side).take(n),
        ),
    decreases n,
{
    let levels = opposite_levels(book, side);
    let cands = book_candidates(book, exchange, side);
    if n > 0 {
        lemma_book_candidates_total(book, exchange, side, n - 1);
        assert(cands.take(n).drop_last() =~= cands.take(n - 1));
        assert(levels.take(n).drop_last() =~= levels.take(n - 1));
        assert(cands[n - 1] == candidate_of(levels[n - 1], exchange, side));
    }
}

proof fn lemma_insert_total(s: Seq<RouteCandidate>, c: RouteCandidate, side: Side)
    ensures
        candidates_total(insert_candidate(s, c, side)) == candidates_total(s) + c.quantity.0,
    decreases s.len(),
{
    if s.len() == 0 {
        assert(seq![c].drop_last() =~= Seq::<RouteCandidate>::empty());
        assert(candidates_total(seq![c]) == candidates_total(Seq::<RouteCandidate>::empty()) + c.quantity.0);
    } else if is_worse(s.last(), c, side) {
        lemma_insert_total(s.drop_last(), c, side);
        let r = insert_candidate(s.drop_last(), c, side);
        assert(r.push(s.last()).drop_last() =~= r);
        assert(candidates_total(r.push(s.last())) == candidates_total(r) + s.last().quantity.0);
        assert(candidates_total(s) == candidates_total(s.drop_last()) + s.last().quantity.0);
    } else {
        assert(s.push(c).drop_last() =~= s);
        assert(candidates_total(s.push(c)) == candidates_total(s) + c.quantity.0);
    }
}

/// Sorting the candidates keeps their total quantity.
pub proof fn lemma_sort_keeps_total(cands: Seq<RouteCandidate>, side: Side)
    ensures
        candidates_total(sort_candidates(cands, side)) == candidates_total(cands),
    decreases cands.len(),
{
    if cands.len() > 0 {
        lemma_sort_keeps_total(cands.drop_last(), side);
        lemma_insert_total(sort_candidates(cands.drop_last(), side), cands.last(), side);
    }
}

/// The greedy fill routes exactly the smaller of the target and the candidates' total,
/// and leaves the rest unfilled.
pub proof fn lemma_fill_routes_total(cands: Seq<RouteCandidate>, target: u64)
    ensures
        ({
            let (routes, remaining) = fill_routes(cands, target);
            &&& routes_total(routes) + remaining == target
            &&& routes_total(routes) == if target <= candidates_total(cands) {
                target as int
            } else {
                candidates_total(cands)
            }
        }),
    decreases cands.len(),
{
    if cands.len() > 0 {
        lemma_fill_routes_total(cands.drop_last(), target);
        let (routes, remaining) = fill_routes(cands.drop_last(), target);
        let c = cands.last();
        if remaining != 0 {
            lemma_routes_total_nonneg(routes);
            let fill: u64 = if c.quantity.0 >= remaining { remaining } else { c.quantity.0 };
            let merged = routes.len() > 0 && routes.last().exchange == c.exchange && routes.last().price
                == c.price;
            if merged {
                lemma_routes_total_nonneg(routes.drop_last());
                let next = fill_routes(cands, target).0;
                assert(next.drop_last() =~= routes.drop_last());
            } else {
                let next = fill_routes(cands, target).0;
                assert(next.drop_last() =~= routes);
            }
        }
    }
}

/// Routing fills the order up to the liquidity the two books offer on the other side:
/// the legs add up to the target when there is enough, else to all that is offered.
pub proof fn lemma_route_fills_up_to_liquidity(
    book_binance: OrderBook,
    book_coinbase: OrderBook,
    side: Side,
    target: Decimal,
)
    ensures
        routes_total(planned_routes(book_binance, book_coinbase, side, target)) == if target.0
            <= available_liquidity(book_binance, book_coinbase, side) {
            target.0 as int
        } else {
            available_liquidity(book_binance, book_coinbase, side)
        },
{
    let cb = book_candidates(book_binance, Exchange::Binance, side);
    let cc = book_candidates(book_coinbase, Exchange::Coinbase, side);
    let all = all_candidates(book_binance, book_coinbase, side);
    lemma_candidates_total_append(cb, cc);
    lemma_book_candidates_total(book_binance, Exchange::Binance, side, cb.len() as int);
    lemma_book_candidates_total(book_coinbase, Exchange::Coinbase, side, cc.len() as int);
    assert(cb.take(cb.len() as int) =~= cb);
    assert(cc.take(cc.len() as int) =~= cc);
    let lb = opposite_levels(book_binance, side);
    let lc = opposite_levels(book_coinbase, side);
    assert(lb.take(lb.len() as int) =~= lb);
    assert(lc.take(lc.len() as int) =~= lc);
    lemma_sort_keeps_total(all, side);
    lemma_fill_routes_total(sort_candidates(all, side), target.0);
}

/// Each candidate carries the fee-adjusted price of its own level.
pub open spec fn candidates_consistent(cands: Seq<RouteCandidate>, side: Side) -> bool {
    forall|i: int|
        0 <= i < cands.len() ==> #[trigger] cands[i].effective_price == effective_price(
            cands[i].price.0,
            cands[i].exchange,
            side,
        )
}

/// No candidate is worse than a later one.
pub open spec fn candidates_sorted(cands: Seq<RouteCandidate>, side: Side) -> bool {
    forall|i: int, j: int| 0 <= i < j < cands.len() ==> !is_worse(#[trigger] cands[i], #[trigger] cands[j], side)
}

/// The fee-adjusted price of a routed leg.
pub open spec fn leg_effective_price(leg: SorRoute, side: Side) -> int {
    effective_price(leg.price.0, leg.exchange, side)
}

/// `a` is at least as good a fee-adjusted price as `b` for an order on `side`.
pub open spec fn no_worse_price(a: int, b: int, side: Side) -> bool {
    match side {
        Side::Buy => a <= b,
        Side::Sell => a >= b,
    }
}

proof fn lemma_insert_members(s: Seq<RouteCandidate>, c: RouteCandidate, side: Side)
    ensures
        insert_candidate(s, c, side).len() == s.len() + 1,
        forall|i: int|
            0 <= i < insert_candidate(s, c, side).len() ==> #[trigger] insert_candidate(s, c, side)[i] == c
                || s.contains(insert_candidate(s, c, side)[i]),
    decreases s.len(),
{
    if s.len() > 0 && is_worse(s.last(), c, side) {
        let d = s.drop_last();
        lemma_insert_members(d, c, side);
        let r = insert_candidate(d, c, side);
        assert forall|i: int| 0 <= i < r.push(s.last()).len() implies #[trigger] r.push(s.last())[i] == c
            || s.contains(r.push(s.last())[i]) by {
            if i < r.len() {
                if r[i] != c {
                    let k = choose|k: int| 0 <= k < d.len() && d[k] == r[i];
                    assert(s[k] == r[i]);
                }
            } else {
                assert(s[s.len() - 1] == s.last());
            }
        }
    } else if s.len() > 0 {
        assert forall|i: int| 0 <= i < s.push(c).len() implies #[trigger] s.push(c)[i] == c || s.contains(
            s.push(c)[i],
        ) by {
            if i < s.len() {
                assert(s[i] == s.push(c)[i]);
            }
        }
    }
}

proof fn lemma_sort_members(cands: Seq<RouteCandidate>, side: Side)
    ensures
        sort_candidates(cands, side).len() == cands.len(),
        forall|i: int|
            0 <= i < cands.len() ==> cands.contains(#[trigger] sort_candidates(cands, side)[i]),
    decreases cands.len(),
{
    if cands.len() > 0 {
        let d = cands.drop_last();
        lemma_sort_members(d, side);
        let sd = sort_candidates(d, side);
        lemma_insert_members(sd, cands.last(), side);
        let r = sort_candidates(cands, side);
        assert forall|i: int| 0 <= i < cands.len() implies cands.contains(#[trigger] r[i]) by {
            if r[i] == cands.last() {
                assert(cands[cands.len() - 1] == r[i]);
            } else {
                let k = choose|k: int| 0 <= k < sd.len() && sd[k] == r[i];
                let k2 = choose|k2: int| 0 <= k2 < d.len() && d[k2] == sd[k];
                assert(cands[k2] == r[i]);
            }
        }
    }
}

proof fn lemma_insert_sorted(s: Seq<RouteCandidate>, c: RouteCandidate, side: Side)
    requires
        candidates_sorted(s, side),
    ensures
        candidates_sorted(insert_candidate(s, c, side), side),
    decreases s.len(),
{
    if s.len() == 0 {
    } else if is_worse(s.last(), c, side) {
        let d = s.drop_last();
        assert(candidates_sorted(d, side)) by {
            assert forall|i: int, j: int| 0 <= i < j < d.len() implies !is_worse(#[trigger] d[i], #[trigger] d[j], side) by {
                assert(d[i] == s[i] && d[j] == s[j]);
            }
        }
        lemma_insert_sorted(d, c, side);
        lemma_insert_members(d, c, side);
        let r = insert_candidate(d, c, side);
        let out = r.push(s.last());
        assert forall|i: int, j: int| 0 <= i < j < out.len() implies !is_worse(#[trigger] out[i], #[trigger] out[j], side) by {
            if j < r.len() {
                assert(out[i] == r[i] && out[j] == r[j]);
            } else {
                assert(out[j] == s.last());
                assert(out[i] == r[i]);
                if r[i] != c {
                    let k = choose|k: int| 0 <= k < d.len() && d[k] == r[i];
                    assert(s[k] == r[i]);
                    assert(!is_worse(s[k], s[s.len() - 1], side));
                }
            }
        }
    } else {
        let out = s.push(c);
        assert forall|i: int, j: int| 0 <= i < j < out.len() implies !is_worse(#[trigger] out[i], #[trigger] out[j], side) by {
            if j < s.len() {
                assert(out[i] == s[i] && out[j] == s[j]);
            } else {
                assert(out[i] == s[i]);
                if i < s.len() - 1 {
                    assert(!is_worse(s[i], s[s.len() - 1], side));
                }
            }
        }
    }
}

/// The candidate sort puts every candidate ahead of the ones it is worse than:
/// its result never has a worse candidate before a better one.
pub proof fn lemma_sort_sorted(cands: Seq<RouteCandidate>, side: Side)
    ensures
        candidates_sorted(sort_candidates(cands, side), side),
    decreases cands.len(),
{
    if cands.len() > 0 {
        lemma_sort_sorted(cands.drop_last(), side);
        lemma_insert_sorted(sort_candidates(cands.drop_last(), side), cands.last(), side);
    }
}

proof fn lemma_fill_legs_ranked(cands: Seq<RouteCandidate>, target: u64, side: Side)
    requires
        candidates_sorted(cands, side),
        candidates_consistent(cands, side),
    ensures
        ({
            let routes = fill_routes(cands, target).0;
            &&& forall|i: int| 0 <= i < routes.len() ==> exists|k: int|
                0 <= k < cands.len() && cands[k].effective_price == leg_effective_price(
                    #[trigger] routes[i],
                    side,
                )
            &&& forall|i: int, j: int|
                0 <= i < j < routes.len() ==> no_worse_price(
                    leg_effective_price(#[trigger] routes[i], side),
                    leg_effective_price(#[trigger] routes[j], side),
                    side,
                )
        }),
    decreases cands.len(),
{
    if cands.len() > 0 {
        let d = cands.drop_last();
        assert(candidates_sorted(d, side)) by {
            assert forall|i: int, j: int| 0 <= i < j < d.len() implies !is_worse(#[trigger] d[i], #[trigger] d[j], side) by {
                assert(d[i] == cands[i] && d[j] == cands[j]);
            }
        }
        assert(candidates_consistent(d, side)) by {
            assert forall|i: int| 0 <= i < d.len() implies #[trigger] d[i].effective_price == effective_price(
                d[i].price.0,
                d[i].exchange,
                side,
            ) by {
                assert(d[i] == cands[i]);
            }
        }
        lemma_fill_legs_ranked(d, target, side);
        let (routes, remaining) = fill_routes(d, target);
        let c = cands.last();
        let last_k = cands.len() - 1;
        assert(cands[last_k] == c);
        let next = fill_routes(cands, target).0;
        // Every earlier leg is priced like some earlier candidate, hence no worse than `c`.
        assert forall|i: int| 0 <= i < routes.len() implies no_worse_price(
            leg_effective_price(#[trigger] routes[i], side),
            leg_effective_price(SorRoute { exchange: c.exchange, price: c.price, quantity: Decimal(0) }, side),
            side,
        ) by {
            let k = choose|k: int|
                0 <= k < d.len() && d[k].effective_price == leg_effective_price(routes[i], side);
            assert(d[k] == cands[k]);
            assert(!is_worse(cands[k], cands[last_k], side));
        }
        assert forall|i: int| 0 <= i < next.len() implies exists|k: int|
            0 <= k < cands.len() && cands[k].effective_price == leg_effective_price(
                #[trigger] next[i],
                side,
            ) by {
            if i < routes.len() && (remaining == 0 || next[i] == routes[i]) {
                let k = choose|k: int|
                    0 <= k < d.len() && d[k].effective_price == leg_effective_price(routes[i], side);
                assert(d[k] == cands[k]);
            } else if i < routes.len() {
                let k = choose|k: int|
                    0 <= k < d.len() && d[k].effective_price == leg_effective_price(routes[i], side);
                assert(d[k] == cands[k]);
                assert(leg_effective_price(next[i], side) == leg_effective_price(routes[i], side));
            } else {
                assert(leg_effective_price(next[i], side) == c.effective_price);
            }
        }
        assert forall|i: int, j: int| 0 <= i < j < next.len() implies no_worse_price(
            leg_effective_price(#[trigger] next[i], side),
            leg_effective_price(#[trigger] next[j], side),
            side,
        ) by {
            if remaining == 0 {
            } else if j < routes.len() {
                assert(leg_effective_price(next[i], side) == leg_effective_price(routes[i], side));
                assert(leg_effective_price(next[j], side) == leg_effective_price(routes[j], side));
            } else {
                assert(leg_effective_price(next[i], side) == leg_effective_price(routes[i], side));
            }
        }
    }
}

/// The ranked candidates carry the fee-adjusted prices of their levels.
proof fn lemma_route_candidates_consistent(book_binance: OrderBook, book_coinbase: OrderBook, side: Side)
    requires
        book_is_routable(book_binance, Exchange::Binance, side),
        book_is_routable(book_coinbase, Exchange::Coinbase, side),
    ensures
        candidates_consistent(sort_candidates(all_candidates(book_binance, book_coinbase, side), side), side),
{
    let all = all_candidates(book_binance, book_coinbase, side);
    let cb = book_candidates(book_binance, Exchange::Binance, side);
    assert(candidates_consistent(all, side)) by {
        assert forall|i: int| 0 <= i < all.len() implies #[trigger] all[i].effective_price == effective_price(
            all[i].price.0,
            all[i].exchange,
            side,
        ) by {
            if i < cb.len() {
                let l = opposite_levels(book_binance, side)[i];
                assert(price_is_routable(l.price.0, Exchange::Binance, side));
                assert(all[i] == candidate_of(l, Exchange::Binance, side));
                assert((l.price.0 * fee_bps(Exchange::Binance)) / 10000 <= l.price.0) by (nonlinear_arith)
                    requires
                        fee_bps(Exchange::Binance) <= 40,
                ;
            } else {
                let l = opposite_levels(book_coinbase, side)[i - cb.len()];
                assert(price_is_routable(l.price.0, Exchange::Coinbase, side));
                assert(all[i] == candidate_of(l, Exchange::Coinbase, side));
                assert((l.price.0 * fee_bps(Exchange::Coinbase)) / 10000 <= l.price.0) by (nonlinear_arith)
                    requires
                        fee_bps(Exchange::Coinbase) <= 40,
                ;
            }
        }
    }
    let sorted = sort_candidates(all, side);
    lemma_sort_members(all, side);
    assert(candidates_consistent(sorted, side)) by {
        assert forall|i: int| 0 <= i < sorted.len() implies #[trigger] sorted[i].effective_price == effective_price(
            sorted[i].price.0,
            sorted[i].exchange,
            side,
        ) by {
            let k = choose|k: int| 0 <= k < all.len() && all[k] == sorted[i];
            assert(all[k].effective_price == effective_price(all[k].price.0, all[k].exchange, side));
        }
    }
}

/// Routed legs come best first: no leg has a worse fee-adjusted price than a later one.
pub proof fn lemma_route_legs_ranked(
    book_binance: OrderBook,
    book_coinbase: OrderBook,
    side: Side,
    target: Decimal,
)
    requires
        book_is_routable(book_binance, Exchange::Binance, side),
        book_is_routable(book_coinbase, Exchange::Coinbase, side),
    ensures
        ({
            let routes = planned_routes(book_binance, book_coinbase, side, target);
            forall|i: int, j: int|
                0 <= i < j < routes.len() ==> no_worse_price(
                    leg_effective_price(#[trigger] routes[i], side),
                    leg_effective_price(#[trigger] routes[j], side),
                    side,
                )
        }),
{
    let all = all_candidates(book_binance, book_coinbase, side);
    lemma_route_candidates_consistent(book_binance, book_coinbase, side);
    let sorted = sort_candidates(all, side);
    lemma_sort_sorted(all, side);
    lemma_fill_legs_ranked(sorted, target.0, side);
}

/// `a` is a strictly better fee-adjusted price than `b` for an order on `side`.
pub open spec fn strictly_better_price(a: int, b: int, side: Side) -> bool {
    !no_worse_price(b, a, side)
}

proof fn lemma_candidates_total_prefix_mono(cands: Seq<RouteCandidate>, a: int, b: int)
    requires
        0 <= a <= b <= cands.len(),
    ensures
        candidates_total(cands.take(a)) <= candidates_total(cands.take(b)),
    decreases b - a,
{
    if a < b {
        lemma_candidates_total_prefix_mono(cands, a, b - 1);
        assert(cands.take(b).drop_last() =~= cands.take(b - 1));
    }
}

/// The last leg of a greedy fill is at the venue and price of some candidate, and
/// every candidate before that one was taken in full.
proof fn lemma_fill_last_leg(cands: Seq<RouteCandidate>, target: u64)
    ensures
        ({
            let routes = fill_routes(cands, target).0;
            routes.len() > 0 ==> exists|m: int|
                0 <= m < cands.len() && routes.last().exchange == (#[trigger] cands[m]).exchange
                    && routes.last().price == cands[m].price && candidates_total(cands.take(m))
                    <= routes_total(routes)
        }),
    decreases cands.len(),
{
    if cands.len() > 0 {
        let d = cands.drop_last();
        lemma_fill_last_leg(d, target);
        let (routes0, rem0) = fill_routes(d, target);
        let routes = fill_routes(cands, target).0;
        if rem0 == 0 {
            if routes.len() > 0 {
                let m = choose|m: int|
                    0 <= m < d.len() && routes0.last().exchange == (#[trigger] d[m]).exchange
                        && routes0.last().price == d[m].price && candidates_total(d.take(m))
                        <= routes_total(routes0);
                assert(cands[m] == d[m]);
                assert(cands.take(m) =~= d.take(m));
            }
        } else {
            lemma_fill_routes_total(d, target);
            lemma_fill_routes_total(cands, target);
            let m = d.len() as int;
            assert(cands[m] == cands.last());
            assert(cands.take(m) =~= d);
        }
    }
}

/// Greedy optimality of routing: every candidate level with a strictly better
/// fee-adjusted price than the last leg's is taken in full, that is the legs add up
/// to at least the quantity of all candidates ranked up to and including it.
pub proof fn lemma_route_takes_better_levels_in_full(
    book_binance: OrderBook,
    book_coinbase: OrderBook,
    side: Side,
    target: Decimal,
)
    requires
        book_is_routable(book_binance, Exchange::Binance, side),
        book_is_routable(book_coinbase, Exchange::Coinbase, side),
    ensures
        ({
            let ranked = sort_candidates(all_candidates(book_binance, book_coinbase, side), side);
            let routes = planned_routes(book_binance, book_coinbase, side, target);
            routes.len() > 0 ==> forall|i: int|
                0 <= i < ranked.len() && strictly_better_price(
                    (#[trigger] ranked[i]).effective_price as int,
                    leg_effective_price(routes.last(), side),
                    side,
                ) ==> candidates_total(ranked.take(i + 1)) <= routes_total(routes)
        }),
{
    let all = all_candidates(book_binance, book_coinbase, side);
    let ranked = sort_candidates(all, side);
    let routes = planned_routes(book_binance, book_coinbase, side, target);
    lemma_route_candidates_consistent(book_binance, book_coinbase, side);
    lemma_sort_sorted(all, side);
    lemma_fill_last_leg(ranked, target.0);
    if routes.len() > 0 {
        let m = choose|m: int|
            0 <= m < ranked.len() && routes.last().exchange == (#[trigger] ranked[m]).exchange
                && routes.last().price == ranked[m].price && candidates_total(ranked.take(m))
                <= routes_total(routes);
        assert(ranked[m].effective_price == effective_price(ranked[m].price.0, ranked[m].exchange, side));
        assert forall|i: int|
            0 <= i < ranked.len() && strictly_better_price(
                (#[trigger] ranked[i]).effective_price as int,
                leg_effective_price(routes.last(), side),
                side,
            ) implies candidates_total(ranked.take(i + 1)) <= routes_total(routes) by {
            if i >= m {
                if i > m {
                    assert(!is_worse(ranked[m], ranked[i], side));
                }
                assert(false);
            }
            lemma_candidates_total_prefix_mono(ranked, i + 1, m);
        }
    }
}

/// Whether every level an order on `side` would take from `book` has a fee-adjusted
/// price within `u64`.
pub fn book_routable(book: &OrderBook, exchange: Exchange, side: Side) -> (b: bool)
    requires
        book.wf(),
    ensures
        b == book_is_routable(*book, exchange, side),
{
    let fee: u128 = match exchange {
        Exchange::Binance => 10,
        Exchange::Coinbase => 40,
    };
    let n: usize = match side {
        Side::Buy => book.ask_count,
        Side::Sell => book.bid_count,
    };
    let ghost levels = opposite_levels(*book, side);
    let mut i: usize = 0;
    while i < n
        invariant
            i <= n,
            n == levels.len(),
            levels == opposite_levels(*book, side),
            fee == fee_bps(exchange),
            book.wf(),
            forall|j: int| 0 <= j < i ==> price_is_routable(#[trigger] levels[j].price.0, exchange, side),
        decreases n - i,
    {
        let price: u128 = match side {
            Side::Buy => book.asks[i].price.0 as u128,
            Side::Sell => book.bids[i].price.0 as u128,
        };
        assert(price == levels[i as int].price.0);
        assert(price * fee <= u128::MAX) by (nonlinear_arith)
            requires
                price <= u64::MAX,
                fee <= 40,
        ;
        let scaled = price * fee;
        if scaled > u64::MAX as u128 {
            assert(!price_is_routable(levels[i as int].price.0, exchange, side));
            return false;
        }
        match side {
            Side::Buy => {
                if price + scaled / 10000 > u64::MAX as u128 {
                    assert(!price_is_routable(levels[i as int].price.0, exchange, side));
                    return false;
                }
            },
            Side::Sell => {},
        }
        i = i + 1;
    }
    true
}

/// Binance's lower taker fee makes it no worse than Coinbase at the same price: a
/// buy costs no more there and a sell yields no less, and every fee-adjusted price
/// stays on the right side of the quoted one (a buy costs at least the price, a sell
/// yields at most it).
pub proof fn lemma_binance_never_worse_at_same_price(price: u64)
    ensures
        buy_effective_price(price, Exchange::Binance) <= buy_effective_price(price, Exchange::Coinbase),
        sell_effective_price(price, Exchange::Binance) >= sell_effective_price(price, Exchange::Coinbase),
        buy_effective_price(price, Exchange::Binance) >= price,
        buy_effective_price(price, Exchange::Coinbase) >= price,
        sell_effective_price(price, Exchange::Binance) <= price,
        sell_effective_price(price, Exchange::Coinbase) <= price,
        sell_effective_price(price, Exchange::Coinbase) >= 0,
{
    assert((price * 10) / 10000 <= (price * 40) / 10000) by (nonlinear_arith)
        requires
            price >= 0,
    ;
    assert((price * 40) / 10000 <= price) by (nonlinear_arith)
        requires
            price >= 0,
    ;
    assert((price * 10) / 10000 >= 0) by (nonlinear_arith)
        requires
            price >= 0,
    ;
}

proof fn lemma_fill_legs_from_candidates(cands: Seq<RouteCandidate>, target: u64)
    ensures
        ({
            let routes = fill_routes(cands, target).0;
            forall|i: int| 0 <= i < routes.len() ==> exists|k: int|
                0 <= k < cands.len() && (#[trigger] routes[i]).exchange == cands[k].exchange && routes[i].price
                    == cands[k].price
        }),
    decreases cands.len(),
{
    if cands.len() > 0 {
        let d = cands.drop_last();
        lemma_fill_legs_from_candidates(d, target);
        let (routes, remaining) = fill_routes(d, target);
        let next = fill_routes(cands, target).0;
        let last = cands.len() - 1;
        assert forall|i: int| 0 <= i < next.len() implies exists|k: int|
            0 <= k < cands.len() && (#[trigger] next[i]).exchange == cands[k].exchange && next[i].price
                == cands[k].price by {
            if i < routes.len() {
                let k = choose|k: int|
                    0 <= k < d.len() && routes[i].exchange == d[k].exchange && routes[i].price == d[k].price;
                assert(d[k] == cands[k]);
                assert(next[i].exchange == routes[i].exchange && next[i].price == routes[i].price);
            } else {
                assert(next[i].exchange == cands[last].exchange && next[i].price == cands[last].price);
            }
        }
    }
}

/// `book` offers liquidity at `price` to an order on `side`: a live ask there for a
/// buy, a live bid there for a sell.
pub open spec fn offers_at(book: OrderBook, side: Side, price: Decimal) -> bool {
    match side {
        Side::Buy => exists|j: int| 0 <= j < book.ask_count && (#[trigger] book.asks@[j]).price == price,
        Side::Sell => exists|j: int| 0 <= j < book.bid_count && (#[trigger] book.bids@[j]).price == price,
    }
}

/// Every routed leg takes liquidity from the right side of a book: a buy leg is at
/// the price of a live ask of its venue, a sell leg at the price of a live bid.
pub proof fn lemma_route_legs_come_from_the_other_side(
    book_binance: OrderBook,
    book_coinbase: OrderBook,
    side: Side,
    target: Decimal,
)
    requires
        book_binance.wf(),
        book_coinbase.wf(),
    ensures
        ({
            let routes = planned_routes(book_binance, book_coinbase, side, target);
            forall|i: int| 0 <= i < routes.len() ==> offers_at(
                if (#[trigger] routes[i]).exchange == Exchange::Binance { book_binance } else { book_coinbase },
                side,
                routes[i].price,
            )
        }),
{
    let all = all_candidates(book_binance, book_coinbase, side);
    let sorted = sort_candidates(all, side);
    let routes = planned_routes(book_binance, book_coinbase, side, target);
    lemma_sort_members(all, side);
    lemma_fill_legs_from_candidates(sorted, target.0);
    let cb = book_candidates(book_binance, Exchange::Binance, side);
    let cc = book_candidates(book_coinbase, Exchange::Coinbase, side);
    assert forall|i: int| 0 <= i < routes.len() implies offers_at(
        if (#[trigger] routes[i]).exchange == Exchange::Binance { book_binance } else { book_coinbase },
        side,
        routes[i].price,
    ) by {
        let k = choose|k: int|
            0 <= k < sorted.len() && routes[i].exchange == sorted[k].exchange && routes[i].price == sorted[k].price;
        assert(all.contains(sorted[k]));
        let a = choose|a: int| 0 <= a < all.len() && all[a] == sorted[k];
        if a < cb.len() {
            let l = opposite_levels(book_binance, side)[a];
            assert(all[a] == cb[a]);
            assert(all[a] == candidate_of(l, Exchange::Binance, side));
            match side {
                Side::Buy => assert(book_binance.asks@[a].price == routes[i].price),
                Side::Sell => assert(book_binance.bids@[a].price == routes[i].price),
            }
        } else {
            let b = a - cb.len();
            let l = opposite_levels(book_coinbase, side)[b];
            assert(all[a] == cc[b]);
            assert(all[a] == candidate_of(l, Exchange::Coinbase, side));
            match side {
                Side::Buy => assert(book_coinbase.asks@[b].price == routes[i].price),
                Side::Sell => assert(book_coinbase.bids@[b].price == routes[i].price),
            }
        }
    }
}

} // verus!
