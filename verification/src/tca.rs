use vstd::prelude::*;
use std::collections::HashMap;
use crate::types::{Decimal, Exchange, ExecutionReport, OrderRequest, Side, Symbol, SCALE};

verus! {

/// A parent (algorithmic) order whose execution is measured.
#[derive(Debug, Clone)]
pub struct ParentOrder {
    pub algo_name: String,
    pub symbol: Symbol,
    pub side: Side,
    pub total_qty: Decimal,
    pub benchmark_price: Decimal,
    pub start_time_ns: u64,
}

/// Running execution totals of one parent order.
#[derive(Debug)]
pub struct ExecutionAccumulator {
    pub algo_name: String,
    /// Quantity filled so far.
    pub filled_qty: Decimal,
    /// Sum of quantity times price over the fills, in raw units squared.
    pub total_cost: u128,
    /// Fees paid so far, in raw units.
    pub total_fees: u64,
    /// Report latencies in nanoseconds, in arrival order.
    pub latencies: Vec<u64>,
}

/// The integer measures of one parent order's execution; the report adds the
/// slippage and latency statistics derived from them.
#[derive(Debug, Clone)]
pub struct TcaSummary {
    pub algo_name: String,
    pub symbol: Symbol,
    pub side: Side,
    pub total_qty: Decimal,
    pub executed_qty: Decimal,
    pub benchmark_price: Decimal,
    pub avg_execution_price: Decimal,
    pub total_fees: Decimal,
    pub latencies_ns: Vec<u64>,
}

/// Transaction cost analysis: which child order belongs to which parent, when it was
/// sent, and what the fills cost.
pub struct TcaTracker {
    /// One entry per algorithm name.
    pub parent_orders: Vec<ParentOrder>,
    /// client_order_id -> send time in nanoseconds.
    pub order_send_times: HashMap<u64, u64>,
    /// client_order_id -> name of the parent algorithm.
    pub order_to_parent: HashMap<u64, String>,
    /// One entry per algorithm name.
    pub execution_accumulators: Vec<ExecutionAccumulator>,
}

/// `i` is the first position holding `name`.
pub open spec fn is_first_name(names: Seq<Seq<char>>, name: Seq<char>, i: int) -> bool {
    &&& 0 <= i < names.len()
    &&& names[i] == name
    &&& forall|j: int| 0 <= j < i ==> names[j] != name
}

/// Position of `name`, or the number of names when it is absent.
pub open spec fn name_index(names: Seq<Seq<char>>, name: Seq<char>) -> int {
    if exists|i: int| is_first_name(names, name, i) {
        choose|i: int| is_first_name(names, name, i)
    } else {
        names.len() as int
    }
}

pub open spec fn names_unique(names: Seq<Seq<char>>) -> bool {
    forall|i: int, j: int| 0 <= i < j < names.len() ==> names[i] != names[j]
}

pub open spec fn parent_names(parents: Seq<ParentOrder>) -> Seq<Seq<char>> {
    parents.map_values(|p: ParentOrder| p.algo_name@)
}

pub open spec fn accumulator_names(accs: Seq<ExecutionAccumulator>) -> Seq<Seq<char>> {
    accs.map_values(|a: ExecutionAccumulator| a.algo_name@)
}

/// `p` records the given parent order.
pub open spec fn parent_is(
    p: ParentOrder,
    name: Seq<char>,
    symbol: Symbol,
    side: Side,
    total_qty: Decimal,
    benchmark_price: Decimal,
    start_time_ns: u64,
) -> bool {
    &&& p.algo_name@ == name
    &&& p.symbol == symbol
    &&& p.side == side
    &&& p.total_qty == total_qty
    &&& p.benchmark_price == benchmark_price
    &&& p.start_time_ns == start_time_ns
}

/// `a` holds the totals of the given name.
pub open spec fn accumulator_is(
    a: ExecutionAccumulator,
    name: Seq<char>,
    filled_qty: u64,
    total_cost: u128,
    total_fees: u64,
    latencies: Seq<u64>,
) -> bool {
    &&& a.algo_name@ == name
    &&& a.filled_qty.0 == filled_qty
    &&& a.total_cost == total_cost
    &&& a.total_fees == total_fees
    &&& a.latencies@ == latencies
}

/// Fee of a fill in raw units: the venue's taker rate on quantity times price,
/// truncated (and then taken modulo 2^64).
pub open spec fn fill_fee(report: ExecutionReport) -> u64 {
    ((report.last_qty.0 * report.last_price.0 * fee_rate_bps(report.exchange)) / (10000 * SCALE as int)) as u64
}

/// Taker fee of a venue in basis points.
pub open spec fn fee_rate_bps(exchange: Exchange) -> int {
    match exchange {
        Exchange::Binance => 10,
        Exchange::Coinbase => 40,
    }
}

/// The fill's arithmetic stays within the accumulator's integer types.
pub open spec fn fill_fits(a: ExecutionAccumulator, report: ExecutionReport) -> bool {
    &&& a.filled_qty.0 + report.last_qty.0 <= u64::MAX
    &&& a.total_cost + report.last_qty.0 * report.last_price.0 <= u128::MAX
    &&& report.last_qty.0 * report.last_price.0 * fee_rate_bps(report.exchange) <= u128::MAX
    &&& a.total_fees + fill_fee(report) <= u64::MAX
}

impl TcaTracker {
    /// Each algorithm name has at most one parent entry and one accumulator.
    pub open spec fn wf(&self) -> bool {
        &&& names_unique(parent_names(self.parent_orders@))
        &&& names_unique(accumulator_names(self.execution_accumulators@))
    }

    /// The accumulator a report counts toward, if the report's order is tracked and
    /// its parent has an accumulator.
    pub open spec fn accumulator_for(&self, client_order_id: u64) -> int {
        if self.order_to_parent@.contains_key(client_order_id) {
            name_index(
                accumulator_names(self.execution_accumulators@),
                self.order_to_parent@[client_order_id]@,
            )
        } else {
            self.execution_accumulators@.len() as int
        }
    }

    pub fn new() -> (t: TcaTracker)
        ensures
            t.wf(),
            t.parent_orders@.len() == 0,
            t.execution_accumulators@.len() == 0,
            t.order_send_times@ == Map::<u64, u64>::empty(),
            t.order_to_parent@ == Map::<u64, String>::empty(),
    {
        TcaTracker {
            parent_orders: Vec::new(),
            order_send_times: HashMap::new(),
            order_to_parent: HashMap::new(),
            execution_accumulators: Vec::new(),
        }
    }
}

fn find_parent(parents: &Vec<ParentOrder>, name: &String) -> (i: usize)
    ensures
        i == name_index(parent_names(parents@), name@),
{
    let ghost names = parent_names(parents@);
    let mut i: usize = 0;
    while i < parents.len()
        invariant_except_break
            forall|j: int| 0 <= j < i ==> names[j] != name@,
        invariant
            i <= parents.len(),
            names == parent_names(parents@),
        ensures
            i <= parents.len(),
            i < parents.len() ==> is_first_name(names, name@, i as int),
            i == parents.len() ==> forall|j: int| 0 <= j < names.len() ==> names[j] != name@,
        decreases parents.len() - i,
    {
        if parents[i].algo_name == *name {
            break;
        }
        i = i + 1;
    }
    proof { lemma_name_index_is(names, name@, i as int); }
    i
}

fn find_accumulator(accs: &Vec<ExecutionAccumulator>, name: &String) -> (i: usize)
    ensures
        i == name_index(accumulator_names(accs@), name@),
{
    let ghost names = accumulator_names(accs@);
    let mut i: usize = 0;
    while i < accs.len()
        invariant_except_break
            forall|j: int| 0 <= j < i ==> names[j] != name@,
        invariant
            i <= accs.len(),
            names == accumulator_names(accs@),
        ensures
            i <= accs.len(),
            i < accs.len() ==> is_first_name(names, name@, i as int),
            i == accs.len() ==> forall|j: int| 0 <= j < names.len() ==> names[j] != name@,
        decreases accs.len() - i,
    {
        if accs[i].algo_name == *name {
            break;
        }
        i = i + 1;
    }
    proof { lemma_name_index_is(names, name@, i as int); }
    i
}

proof fn lemma_name_index_is(names: Seq<Seq<char>>, name: Seq<char>, i: int)
    requires
        0 <= i <= names.len(),
        i < names.len() ==> is_first_name(names, name, i),
        i == names.len() ==> forall|j: int| 0 <= j < names.len() ==> names[j] != name,
    ensures
        name_index(names, name) == i,
{
    if i < names.len() {
        let c = choose|c: int| is_first_name(names, name, c);
        assert(is_first_name(names, name, c));
        if c < i {
        } else if c > i {
        }
    } else {
        if exists|c: int| is_first_name(names, name, c) {
            let c = choose|c: int| is_first_name(names, name, c);
            assert(names[c] == name);
        }
    }
}

proof fn lemma_set_name_keeps_unique(names: Seq<Seq<char>>, name: Seq<char>, after: Seq<Seq<char>>)
    requires
        names_unique(names),
        name_index(names, name) < names.len() ==> after == names.update(name_index(names, name), name),
        name_index(names, name) == names.len() ==> after == names.push(name),
    ensures
        names_unique(after),
{
    let i = name_index(names, name);
    if exists|c: int| is_first_name(names, name, c) {
        let c = choose|c: int| is_first_name(names, name, c);
        assert(is_first_name(names, name, c));
        assert forall|a: int, b: int| 0 <= a < b < after.len() implies after[a] != after[b] by {
            if a == i {
                assert(names[b] != names[i]);
            } else if b == i {
                assert(names[a] != names[i]);
            } else {
                assert(names[a] != names[b]);
            }
        }
    } else {
        assert forall|j: int| 0 <= j < names.len() implies names[j] != name by {
            if names[j] == name {
                lemma_first_name_exists(names, name, j);
            }
        }
        assert forall|a: int, b: int| 0 <= a < b < after.len() implies after[a] != after[b] by {
            if b == names.len() {
                assert(after[a] == names[a]);
            } else {
                assert(names[a] != names[b]);
            }
        }
    }
}

proof fn lemma_first_name_exists(names: Seq<Seq<char>>, name: Seq<char>, j: int)
    requires
        0 <= j < names.len(),
        names[j] == name,
    ensures
        exists|i: int| is_first_name(names, name, i),
    decreases j,
{
    if forall|t: int| 0 <= t < j ==> names[t] != name {
        assert(is_first_name(names, name, j));
    } else {
        let t = choose|t: int| 0 <= t < j && names[t] == name;
        lemma_first_name_exists(names, name, t);
    }
}

impl TcaTracker {
    /// Registers (or re-registers) the parent order of an algorithm and resets its totals.
    pub fn register_parent_order(
        &mut self,
        algo_name: &str,
        symbol: Symbol,
        side: Side,
        total_qty: Decimal,
        benchmark_price: Decimal,
        start_time_ns: u64,
    )
        ensures
            old(self).wf() ==> final(self).wf(),
            ({
                let i = name_index(parent_names(old(self).parent_orders@), algo_name@);
                let n = old(self).parent_orders@.len();
                &&& final(self).parent_orders@.len() == if i < n { n } else { n + 1 }
                &&& parent_is(final(self).parent_orders@[i], algo_name@, symbol, side, total_qty, benchmark_price, start_time_ns)
                &&& forall|j: int| 0 <= j < n && j != i ==> final(self).parent_orders@[j] == old(self).parent_orders@[j]
            }),
            ({
                let i = name_index(accumulator_names(old(self).execution_accumulators@), algo_name@);
                let n = old(self).execution_accumulators@.len();
                &&& final(self).execution_accumulators@.len() == if i < n { n } else { n + 1 }
                &&& accumulator_is(final(self).execution_accumulators@[i], algo_name@, 0, 0, 0, Seq::empty())
                &&& forall|j: int| 0 <= j < n && j != i ==> final(self).execution_accumulators@[j]
                    == old(self).execution_accumulators@[j]
            }),
            final(self).order_send_times@ == old(self).order_send_times@,
            final(self).order_to_parent@ == old(self).order_to_parent@,
    {
        let name = algo_name.to_owned();
        let parent = ParentOrder {
            algo_name: algo_name.to_owned(),
            symbol,
            side,
            total_qty,
            benchmark_price,
            start_time_ns,
        };
        let ghost old_parents = self.parent_orders@;
        let i = find_parent(&self.parent_orders, &name);
        if i < self.parent_orders.len() {
            self.parent_orders.remove(i);
            self.parent_orders.insert(i, parent);
            assert(self.parent_orders@ =~= old_parents.update(i as int, parent));
        } else {
            self.parent_orders.push(parent);
        }
        proof {
            let names = parent_names(old_parents);
            let after = parent_names(self.parent_orders@);
            if i < old_parents.len() {
                assert(after =~= names.update(i as int, name@));
            } else {
                assert(after =~= names.push(name@));
            }
            if names_unique(names) {
                lemma_set_name_keeps_unique(names, name@, after);
            }
        }
        let acc = ExecutionAccumulator {
            algo_name: algo_name.to_owned(),
            filled_qty: Decimal(0),
            total_cost: 0,
            total_fees: 0,
            latencies: Vec::new(),
        };
        let ghost old_accs = self.execution_accumulators@;
        let k = find_accumulator(&self.execution_accumulators, &name);
        if k < self.execution_accumulators.len() {
            self.execution_accumulators.remove(k);
            self.execution_accumulators.insert(k, acc);
            assert(self.execution_accumulators@ =~= old_accs.update(k as int, acc));
        } else {
            self.execution_accumulators.push(acc);
        }
        proof {
            let names = accumulator_names(old_accs);
            let after = accumulator_names(self.execution_accumulators@);
            if k < old_accs.len() {
                assert(after =~= names.update(k as int, name@));
            } else {
                assert(after =~= names.push(name@));
            }
            if names_unique(names) {
                lemma_set_name_keeps_unique(names, name@, after);
            }
        }
    }

    /// Remembers when a child order was sent and which parent it belongs to.
    pub fn record_order_request(&mut self, req: &OrderRequest, parent_algo_name: &str, timestamp_ns: u64)
        ensures
            final(self).order_send_times@ == old(self).order_send_times@.insert(req.client_order_id, timestamp_ns),
            final(self).order_to_parent@.dom() == old(self).order_to_parent@.dom().insert(req.client_order_id),
            final(self).order_to_parent@[req.client_order_id]@ == parent_algo_name@,
            forall|k: u64| k != req.client_order_id && #[trigger] old(self).order_to_parent@.contains_key(k)
                ==> final(self).order_to_parent@[k] == old(self).order_to_parent@[k],
            final(self).parent_orders == old(self).parent_orders,
            final(self).execution_accumulators == old(self).execution_accumulators,
    {
        self.order_send_times.insert(req.client_order_id, timestamp_ns);
        self.order_to_parent.insert(req.client_order_id, parent_algo_name.to_owned());
    }
}

/// The latency a report adds: time since its order was sent, when that is known
/// and not in the future.
pub open spec fn report_latency(send_times: Map<u64, u64>, report: ExecutionReport) -> Seq<u64> {
    if send_times.contains_key(report.client_order_id) && report.timestamp_ns >= send_times[report.client_order_id] {
        seq![(report.timestamp_ns - send_times[report.client_order_id]) as u64]
    } else {
        Seq::empty()
    }
}

/// The tracker after a report: the fill is added to the totals of the parent of the
/// reported order; reports on untracked orders or without a fill change nothing.
pub open spec fn tca_report_recorded(before: TcaTracker, after: TcaTracker, report: ExecutionReport) -> bool {
    let i = before.accumulator_for(report.client_order_id);
    let accs = before.execution_accumulators@;
    &&& if report.last_qty.0 > 0 && i < accs.len() {
        &&& after.execution_accumulators@.len() == accs.len()
        &&& forall|j: int| 0 <= j < accs.len() && j != i ==> after.execution_accumulators@[j] == accs[j]
        &&& accumulator_is(
            after.execution_accumulators@[i],
            accs[i].algo_name@,
            (accs[i].filled_qty.0 + report.last_qty.0) as u64,
            (accs[i].total_cost + report.last_qty.0 * report.last_price.0) as u128,
            (accs[i].total_fees + fill_fee(report)) as u64,
            accs[i].latencies@ + report_latency(before.order_send_times@, report),
        )
    } else {
        after.execution_accumulators == before.execution_accumulators
    }
    &&& after.parent_orders == before.parent_orders
    &&& after.order_send_times == before.order_send_times
    &&& after.order_to_parent == before.order_to_parent
}

/// The report's arithmetic fits the accumulator it counts toward.
pub open spec fn tca_report_fits(t: TcaTracker, report: ExecutionReport) -> bool {
    report.last_qty.0 > 0 && t.accumulator_for(report.client_order_id) < t.execution_accumulators@.len()
        ==> fill_fits(t.execution_accumulators@[t.accumulator_for(report.client_order_id)], report)
}

impl TcaTracker {
    /// Adds a fill to the totals of the parent of the reported order; reports on
    /// untracked orders and reports without a fill change nothing.
    pub fn record_execution_report(&mut self, report: &ExecutionReport)
        requires
            tca_report_fits(*old(self), *report),
        ensures
            tca_report_recorded(*old(self), *final(self), *report),
            old(self).wf() ==> final(self).wf(),
    {
        let parent_name = match self.order_to_parent.get(&report.client_order_id) {
            Some(name) => name.clone(),
            None => return,  // not tracked
        };
        assert(self.order_to_parent@.contains_key(report.client_order_id));
        assert(parent_name@ == self.order_to_parent@[report.client_order_id]@);
        if report.last_qty.0 > 0 {
            let i = find_accumulator(&self.execution_accumulators, &parent_name);
            if i < self.execution_accumulators.len() {
                let ghost old_accs = self.execution_accumulators@;
                let mut acc = self.execution_accumulators.remove(i);
                let qty = report.last_qty.0 as u128;
                let price = report.last_price.0 as u128;
                assert(qty * price <= u128::MAX) by (nonlinear_arith)
                    requires
                        qty <= u64::MAX,
                        price <= u64::MAX,
                ;
                let cost = qty * price;
                acc.filled_qty = acc.filled_qty + report.last_qty;
                acc.total_cost = acc.total_cost + cost;
                // Fee: Binance 0.1%, Coinbase 0.4%.
                let fee_bps: u128 = match report.exchange {
                    Exchange::Binance => 10,
                    Exchange::Coinbase => 40,
                };
                let fee_val = (cost * fee_bps) / (10000 * (SCALE as u128));
                acc.total_fees = acc.total_fees + (#[verifier::truncate] (fee_val as u64));
                match self.order_send_times.get(&report.client_order_id) {
                    Some(send_time) => {
                        if report.timestamp_ns >= *send_time {
                            acc.latencies.push(report.timestamp_ns - *send_time);
                        }
                    },
                    None => {},
                }
                self.execution_accumulators.insert(i, acc);
                proof {
                    assert(acc.filled_qty.0 == old_accs[i as int].filled_qty.0 + report.last_qty.0);
                    assert(acc.total_cost == old_accs[i as int].total_cost + report.last_qty.0 * report.last_price.0);
                    assert(acc.total_fees == old_accs[i as int].total_fees + fill_fee(*report));
                    assert(acc.latencies@ == old_accs[i as int].latencies@ + report_latency(self.order_send_times@, *report));
                    assert(self.execution_accumulators@ =~= old_accs.update(i as int, acc));
                    assert(accumulator_names(self.execution_accumulators@) =~= accumulator_names(old_accs));
                }
            }
        }
    }
}

/// Positions, among the first `n` parents, of those with fills to report, in order.
pub open spec fn reported_parents(parents: Seq<ParentOrder>, accs: Seq<ExecutionAccumulator>, n: int) -> Seq<int>
    decreases n,
{
    if n <= 0 {
        Seq::empty()
    } else {
        let prev = reported_parents(parents, accs, n - 1);
        let a = name_index(accumulator_names(accs), parents[n - 1].algo_name@);
        if a < accs.len() && accs[a].filled_qty.0 > 0 {
            prev.push(n - 1)
        } else {
            prev
        }
    }
}

/// `s` summarises parent `p` from its totals `a`: the average price is the total
/// cost over the filled quantity, truncated.
pub open spec fn summary_is(s: TcaSummary, p: ParentOrder, a: ExecutionAccumulator) -> bool {
    &&& s.algo_name@ == p.algo_name@
    &&& s.symbol == p.symbol
    &&& s.side == p.side
    &&& s.total_qty == p.total_qty
    &&& s.executed_qty == a.filled_qty
    &&& s.benchmark_price == p.benchmark_price
    &&& s.avg_execution_price.0 == (a.total_cost / (a.filled_qty.0 as u128)) as u64
    &&& s.total_fees.0 == a.total_fees
    &&& s.latencies_ns@ == a.latencies@
}

impl TcaTracker {
    /// One summary per registered parent with fills, in registration order.
    pub fn generate_summaries(&self) -> (r: Vec<TcaSummary>)
        ensures
            ({
                let idx = reported_parents(self.parent_orders@, self.execution_accumulators@, self.parent_orders@.len() as int);
                &&& r@.len() == idx.len()
                &&& forall|k: int| 0 <= k < idx.len() ==> summary_is(
                    #[trigger] r@[k],
                    self.parent_orders@[idx[k]],
                    self.execution_accumulators@[name_index(
                        accumulator_names(self.execution_accumulators@),
                        self.parent_orders@[idx[k]].algo_name@,
                    )],
                )
            }),
    {
        let mut reports: Vec<TcaSummary> = Vec::new();
        let mut i: usize = 0;
        while i < self.parent_orders.len()
            invariant
                i <= self.parent_orders@.len(),
                ({
                    let idx = reported_parents(self.parent_orders@, self.execution_accumulators@, i as int);
                    &&& reports@.len() == idx.len()
                    &&& forall|k: int| 0 <= k < idx.len() ==> 0 <= #[trigger] idx[k] < i
                    &&& forall|k: int| 0 <= k < idx.len() ==> summary_is(
                        #[trigger] reports@[k],
                        self.parent_orders@[idx[k]],
                        self.execution_accumulators@[name_index(
                            accumulator_names(self.execution_accumulators@),
                            self.parent_orders@[idx[k]].algo_name@,
                        )],
                    )
                }),
            decreases self.parent_orders@.len() - i,
        {
            let parent = &self.parent_orders[i];
            let k = find_accumulator(&self.execution_accumulators, &parent.algo_name);
            if k < self.execution_accumulators.len() {
                let acc = &self.execution_accumulators[k];
                if acc.filled_qty.0 > 0 {
                    let avg_price = Decimal(#[verifier::truncate] ((acc.total_cost / (acc.filled_qty.0 as u128)) as u64));
                    let latencies_ns = acc.latencies.clone();
                    assert(latencies_ns@ =~= acc.latencies@);
                    reports.push(
                        TcaSummary {
                            algo_name: parent.algo_name.clone(),
                            symbol: parent.symbol,
                            side: parent.side,
                            total_qty: parent.total_qty,
                            executed_qty: acc.filled_qty,
                            benchmark_price: parent.benchmark_price,
                            avg_execution_price: avg_price,
                            total_fees: Decimal(acc.total_fees),
                            latencies_ns,
                        },
                    );
                }
            }
            i = i + 1;
        }
        reports
    }
}

impl TcaTracker {
    /// Whether `record_execution_report` can take `report`.
    pub fn report_fits(&self, report: &ExecutionReport) -> (b: bool)
        ensures
            b == tca_report_fits(*self, *report),
    {
        if report.last_qty.0 == 0 {
            return true;
        }
        let parent_name = match self.order_to_parent.get(&report.client_order_id) {
            Some(name) => name.clone(),
            None => return true,
        };
        assert(parent_name@ == self.order_to_parent@[report.client_order_id]@);
        let i = find_accumulator(&self.execution_accumulators, &parent_name);
        if i >= self.execution_accumulators.len() {
            return true;
        }
        let a = &self.execution_accumulators[i];
        let qty = report.last_qty.0 as u128;
        let price = report.last_price.0 as u128;
        assert(qty * price <= u128::MAX) by (nonlinear_arith)
            requires
                qty <= u64::MAX,
                price <= u64::MAX,
        ;
        let cost = qty * price;
        let fee_bps: u128 = match report.exchange {
            Exchange::Binance => 10,
            Exchange::Coinbase => 40,
        };
        if cost > u128::MAX / fee_bps {
            assert(cost * fee_bps > u128::MAX) by (nonlinear_arith)
                requires
                    cost > u128::MAX / fee_bps,
                    fee_bps > 0,
            ;
            return false;
        }
        assert(cost * fee_bps <= u128::MAX) by (nonlinear_arith)
            requires
                cost <= u128::MAX / fee_bps,
                fee_bps > 0,
        ;
        let fee_val = (cost * fee_bps) / (10000 * (SCALE as u128));
        let fee: u64 = #[verifier::truncate] (fee_val as u64);
        assert(fee == fill_fee(*report));
        report.last_qty.0 <= u64::MAX - a.filled_qty.0 && cost <= u128::MAX - a.total_cost && fee <= u64::MAX
            - a.total_fees
    }
}

/// Every report with a fill on a tracked order counts toward its parent's totals
/// (within their integer types), whatever its status (partial fills included): the filled quantity grows by the
/// fill, the cost by quantity times price, the fees by the venue's taker rate on that
/// cost (0.1% on Binance, 0.4% on Coinbase, truncated), the latency since the order
/// was sent is added when known, and no other parent changes.
/// A report without a fill, or on an untracked order, changes no totals.
pub proof fn lemma_every_fill_counts(before: TcaTracker, after: TcaTracker, report: ExecutionReport)
    requires
        tca_report_fits(before, report),
        tca_report_recorded(before, after, report),
    ensures
        ({
            let i = before.accumulator_for(report.client_order_id);
            let accs = before.execution_accumulators@;
            let bps: int = match report.exchange {
                Exchange::Binance => 10,
                Exchange::Coinbase => 40,
            };
            if report.last_qty.0 > 0 && i < accs.len() {
                &&& after.execution_accumulators@.len() == accs.len()
                &&& after.execution_accumulators@[i].algo_name@ == accs[i].algo_name@
                &&& after.execution_accumulators@[i].filled_qty.0 == accs[i].filled_qty.0 + report.last_qty.0
                &&& after.execution_accumulators@[i].total_cost == accs[i].total_cost + report.last_qty.0
                    * report.last_price.0
                &&& after.execution_accumulators@[i].total_fees == accs[i].total_fees + ((report.last_qty.0
                    * report.last_price.0 * bps) / (10000 * 100_000_000int)) as u64
                &&& after.execution_accumulators@[i].latencies@ == accs[i].latencies@ + if before.order_send_times@.contains_key(
                    report.client_order_id,
                ) && report.timestamp_ns >= before.order_send_times@[report.client_order_id] {
                    seq![(report.timestamp_ns - before.order_send_times@[report.client_order_id]) as u64]
                } else {
                    Seq::<u64>::empty()
                }
                &&& forall|j: int| 0 <= j < accs.len() && j != i ==> after.execution_accumulators@[j] == accs[j]
            } else {
                after.execution_accumulators@ == accs
            }
        }),
        after.parent_orders == before.parent_orders,
{
}

/// A summary reports its parent's order and its fills: the executed quantity is the
/// filled quantity, the fees and latencies are the recorded ones, and the average
/// price is the total cost over the filled quantity, rounded down (when it fits).
pub proof fn lemma_summary_average_price(s: TcaSummary, p: ParentOrder, a: ExecutionAccumulator)
    requires
        summary_is(s, p, a),
        a.filled_qty.0 > 0,
        a.total_cost / (a.filled_qty.0 as u128) <= u64::MAX,
    ensures
        s.algo_name@ == p.algo_name@,
        s.total_qty == p.total_qty,
        s.benchmark_price == p.benchmark_price,
        s.executed_qty == a.filled_qty,
        s.total_fees.0 == a.total_fees,
        s.latencies_ns@ == a.latencies@,
        s.avg_execution_price.0 * a.filled_qty.0 <= a.total_cost,
        a.total_cost < (s.avg_execution_price.0 + 1) * a.filled_qty.0,
{
    let q = a.filled_qty.0 as int;
    let c = a.total_cost as int;
    let m = s.avg_execution_price.0 as int;
    assert(m == c / q);
    assert(m * q <= c < (m + 1) * q) by (nonlinear_arith)
        requires
            m == c / q,
            q > 0,
    ;
}

} // verus!
