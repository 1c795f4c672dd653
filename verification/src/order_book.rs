use vstd::prelude::*;
use crate::types::{BookUpdate, BookUpdateLevel, Decimal};

verus! {

/// Number of price levels kept on each side of a book.
pub const MAX_DEPTH: usize = 20;

/// The level used for empty slots.
pub open spec fn empty_level() -> BookUpdateLevel {
    BookUpdateLevel { price: Decimal(0), quantity: Decimal(0) }
}

/// `p` ranks ahead of `q` on the given side: higher for bids, lower for asks.
pub open spec fn ranks_ahead(is_bid: bool, p: u64, q: u64) -> bool {
    if is_bid { p > q } else { p < q }
}

/// `i` is the first position of `levels` that quotes `price`.
pub open spec fn is_first_price_match(levels: Seq<BookUpdateLevel>, price: u64, i: int) -> bool {
    &&& 0 <= i < levels.len()
    &&& levels[i].price.0 == price
    &&& forall|j: int| 0 <= j < i ==> levels[j].price.0 != price
}

/// Position of the first level quoting `price`, or the number of levels when none does.
pub open spec fn price_index(levels: Seq<BookUpdateLevel>, price: u64) -> int {
    if exists|i: int| is_first_price_match(levels, price, i) {
        choose|i: int| is_first_price_match(levels, price, i)
    } else {
        levels.len() as int
    }
}

/// `i` is the first position of `levels` whose price `price` ranks ahead of.
pub open spec fn is_first_outranked(
    levels: Seq<BookUpdateLevel>,
    is_bid: bool,
    price: u64,
    i: int,
) -> bool {
    &&& 0 <= i < levels.len()
    &&& ranks_ahead(is_bid, price, levels[i].price.0)
    &&& forall|j: int| 0 <= j < i ==> !ranks_ahead(is_bid, price, levels[j].price.0)
}

/// Where a new level at `price` goes: before the first level it ranks ahead of,
/// or after all levels when there is none.
pub open spec fn insert_index(levels: Seq<BookUpdateLevel>, is_bid: bool, price: u64) -> int {
    if exists|i: int| is_first_outranked(levels, is_bid, price, i) {
        choose|i: int| is_first_outranked(levels, is_bid, price, i)
    } else {
        levels.len() as int
    }
}

/// The slots and level count of one side after a single-level change at `price`:
/// a zero quantity removes the first level at that price, a non-zero quantity
/// replaces its quantity, and a new price is inserted at `insert_index`, pushing
/// the worst level out when the side is full. An insertion that would land past
/// the last slot changes nothing.
pub open spec fn side_after_update(
    slots: Seq<BookUpdateLevel>,
    count: int,
    is_bid: bool,
    price: Decimal,
    quantity: Decimal,
) -> (Seq<BookUpdateLevel>, int) {
    let levels = slots.take(count);
    let m = price_index(levels, price.0);
    if m < count {
        if quantity.0 == 0 {
            (
                slots.take(m) + slots.subrange(m + 1, count) + seq![empty_level()] + slots.skip(count),
                count - 1,
            )
        } else {
            (slots.update(m, BookUpdateLevel { price: slots[m].price, quantity }), count)
        }
    } else if quantity.0 != 0 {
        let k = insert_index(levels, is_bid, price.0);
        if k < MAX_DEPTH {
            let end = if count + 1 < MAX_DEPTH { count + 1 } else { MAX_DEPTH as int };
            (
                slots.take(k) + seq![BookUpdateLevel { price, quantity }] + slots.subrange(k, end - 1)
                    + slots.skip(end),
                if count < MAX_DEPTH { count + 1 } else { count },
            )
        } else {
            (slots, count)
        }
    } else {
        (slots, count)
    }
}

/// One side of a book holds strictly ranked prices: each level ranks ahead of every later one.
pub open spec fn side_is_ranked(levels: Seq<BookUpdateLevel>, is_bid: bool) -> bool {
    forall|i: int, j: int|
        0 <= i < j < levels.len() ==> ranks_ahead(is_bid, #[trigger] levels[i].price.0, #[trigger] levels[j].price.0)
}

proof fn lemma_price_index_props(levels: Seq<BookUpdateLevel>, price: u64)
    ensures
        0 <= price_index(levels, price) <= levels.len(),
        forall|j: int| 0 <= j < price_index(levels, price) ==> levels[j].price.0 != price,
        price_index(levels, price) < levels.len() ==> levels[price_index(levels, price)].price.0 == price,
        price_index(levels, price) == levels.len() ==> forall|j: int|
            0 <= j < levels.len() ==> levels[j].price.0 != price,
{
    if exists|i: int| is_first_price_match(levels, price, i) {
        let c = choose|i: int| is_first_price_match(levels, price, i);
        assert(is_first_price_match(levels, price, c));
    } else {
        assert forall|j: int| 0 <= j < levels.len() implies levels[j].price.0 != price by {
            if levels[j].price.0 == price {
                lemma_first_price_match_exists(levels, price, j);
            }
        }
    }
}

proof fn lemma_insert_index_props(levels: Seq<BookUpdateLevel>, is_bid: bool, price: u64)
    ensures
        0 <= insert_index(levels, is_bid, price) <= levels.len(),
        forall|j: int|
            0 <= j < insert_index(levels, is_bid, price) ==> !ranks_ahead(is_bid, price, levels[j].price.0),
        insert_index(levels, is_bid, price) < levels.len() ==> ranks_ahead(
            is_bid,
            price,
            levels[insert_index(levels, is_bid, price)].price.0,
        ),
{
    if exists|i: int| is_first_outranked(levels, is_bid, price, i) {
        let c = choose|i: int| is_first_outranked(levels, is_bid, price, i);
        assert(is_first_outranked(levels, is_bid, price, c));
    } else {
        assert forall|j: int| 0 <= j < levels.len() implies !ranks_ahead(is_bid, price, levels[j].price.0) by {
            if ranks_ahead(is_bid, price, levels[j].price.0) {
                lemma_first_outranked_exists(levels, is_bid, price, j);
            }
        }
    }
}

/// When some level is outranked by `price`, a first such level exists.
proof fn lemma_first_outranked_exists(levels: Seq<BookUpdateLevel>, is_bid: bool, price: u64, j: int)
    requires
        0 <= j < levels.len(),
        ranks_ahead(is_bid, price, levels[j].price.0),
    ensures
        exists|i: int| is_first_outranked(levels, is_bid, price, i),
    decreases j,
{
    if forall|t: int| 0 <= t < j ==> !ranks_ahead(is_bid, price, levels[t].price.0) {
        assert(is_first_outranked(levels, is_bid, price, j));
    } else {
        let t = choose|t: int| 0 <= t < j && ranks_ahead(is_bid, price, levels[t].price.0);
        lemma_first_outranked_exists(levels, is_bid, price, t);
    }
}

/// When some level quotes `price`, a first such level exists.
proof fn lemma_first_price_match_exists(levels: Seq<BookUpdateLevel>, price: u64, j: int)
    requires
        0 <= j < levels.len(),
        levels[j].price.0 == price,
    ensures
        exists|i: int| is_first_price_match(levels, price, i),
    decreases j,
{
    if forall|t: int| 0 <= t < j ==> levels[t].price.0 != price {
        assert(is_first_price_match(levels, price, j));
    } else {
        let t = choose|t: int| 0 <= t < j && levels[t].price.0 == price;
        lemma_first_price_match_exists(levels, price, t);
    }
}

/// Applies a single-level change to one side held in `slots[..count]`.
fn update_side(
    slots: &mut [BookUpdateLevel; 20],
    count: &mut usize,
    is_bid: bool,
    price: Decimal,
    quantity: Decimal,
)
    requires
        *old(count) <= MAX_DEPTH,
    ensures
        (final(slots)@, *final(count) as int) == side_after_update(
            old(slots)@,
            *old(count) as int,
            is_bid,
            price,
            quantity,
        ),
{
    let n = *count;
    let ghost s0 = slots@;
    let ghost levels = s0.take(n as int);
    assert(s0.len() == 20);
    assert(levels.len() == n);
    let mut found: usize = n;
    let mut i: usize = 0;
    while i < n
        invariant_except_break
            found == n,
            forall|j: int| 0 <= j < i ==> levels[j].price.0 != price.0,
        invariant
            i <= n,
            n <= MAX_DEPTH,
            slots@ == s0,
            levels == s0.take(n as int),
        ensures
            found <= n,
            found == n ==> forall|j: int| 0 <= j < n ==> levels[j].price.0 != price.0,
            found < n ==> is_first_price_match(levels, price.0, found as int),
        decreases n - i,
    {
        if slots[i].price == price {
            found = i;
            break;
        }
        i = i + 1;
    }
    proof {
        if found < n {
            assert(price_index(levels, price.0) == found as int) by {
                let c = choose|c: int| is_first_price_match(levels, price.0, c);
                assert(is_first_price_match(levels, price.0, c));
                if c < found {
                } else if c > found {
                }
            }
        } else {
            if exists|c: int| is_first_price_match(levels, price.0, c) {
                let c = choose|c: int| is_first_price_match(levels, price.0, c);
                assert(levels[c].price.0 != price.0);
            }
        }
    }
    if found < n {
        if quantity.0 == 0 {
            let mut j: usize = found;
            while j + 1 < n
                invariant
                    found <= j < n,
                    n <= MAX_DEPTH,
                    slots@.len() == 20,
                    forall|t: int| 0 <= t < found ==> slots@[t] == s0[t],
                    forall|t: int| found <= t < j ==> slots@[t] == s0[t + 1],
                    forall|t: int| j <= t < 20 ==> slots@[t] == s0[t],
                decreases n - j,
            {
                slots[j] = slots[j + 1];
                j = j + 1;
            }
            slots[n - 1] = BookUpdateLevel { price: Decimal(0), quantity: Decimal(0) };
            *count = n - 1;
            proof {
                let f = found as int;
                let expect = s0.take(f) + s0.subrange(f + 1, n as int) + seq![empty_level()]
                    + s0.skip(n as int);
                assert(slots@ =~= expect);
            }
        } else {
            let lvl = slots[found];
            slots[found] = BookUpdateLevel { price: lvl.price, quantity };
        }
    } else if quantity.0 != 0 {
        let mut k: usize = n;
        let mut t: usize = 0;
        while t < n
            invariant_except_break
                k == n,
                forall|j: int| 0 <= j < t ==> !ranks_ahead(is_bid, price.0, levels[j].price.0),
            invariant
                t <= n,
                n <= MAX_DEPTH,
                slots@ == s0,
                levels == s0.take(n as int),
            ensures
                k <= n,
                k == n ==> forall|j: int| 0 <= j < n ==> !ranks_ahead(is_bid, price.0, levels[j].price.0),
                k < n ==> is_first_outranked(levels, is_bid, price.0, k as int),
            decreases n - t,
        {
            let better = if is_bid { slots[t].price.0 < price.0 } else { slots[t].price.0 > price.0 };
            if better {
                k = t;
                break;
            }
            t = t + 1;
        }
        proof {
            if k < n {
                assert(insert_index(levels, is_bid, price.0) == k as int) by {
                    let c = choose|c: int| is_first_outranked(levels, is_bid, price.0, c);
                    assert(is_first_outranked(levels, is_bid, price.0, c));
                    if c < k {
                    } else if c > k {
                    }
                }
            } else {
                if exists|c: int| is_first_outranked(levels, is_bid, price.0, c) {
                    let c = choose|c: int| is_first_outranked(levels, is_bid, price.0, c);
                    assert(!ranks_ahead(is_bid, price.0, levels[c].price.0));
                }
            }
        }
        if k < MAX_DEPTH {
            let end: usize = if n + 1 < MAX_DEPTH { n + 1 } else { MAX_DEPTH };
            let mut j: usize = end - 1;
            while j > k
                invariant
                    k <= j < end,
                    end <= MAX_DEPTH,
                    slots@.len() == 20,
                    forall|t: int| 0 <= t <= j ==> slots@[t] == s0[t],
                    forall|t: int| j < t < end ==> slots@[t] == s0[t - 1],
                    forall|t: int| end <= t < 20 ==> slots@[t] == s0[t],
                decreases j,
            {
                slots[j] = slots[j - 1];
                j = j - 1;
            }
            slots[k] = BookUpdateLevel { price, quantity };
            if n < MAX_DEPTH {
                *count = n + 1;
            }
            proof {
                let kk = k as int;
                let expect = s0.take(kk) + seq![BookUpdateLevel { price, quantity }]
                    + s0.subrange(kk, end - 1) + s0.skip(end as int);
                assert(slots@ =~= expect);
            }
        }
    }
}

/// `after` is `before` with both sides replaced by the first levels of `update`,
/// at most `MAX_DEPTH` of each; slots past the new counts keep their old levels.
pub open spec fn snapshot_applied(before: OrderBook, after: OrderBook, update: BookUpdate) -> bool {
    &&& after.bid_count == if update.bid_count < MAX_DEPTH { update.bid_count } else { MAX_DEPTH }
    &&& after.ask_count == if update.ask_count < MAX_DEPTH { update.ask_count } else { MAX_DEPTH }
    &&& forall|i: int| 0 <= i < MAX_DEPTH ==> #[trigger] after.bids@[i] == if i < after.bid_count {
        update.bids@[i]
    } else {
        before.bids@[i]
    }
    &&& forall|i: int| 0 <= i < MAX_DEPTH ==> #[trigger] after.asks@[i] == if i < after.ask_count {
        update.asks@[i]
    } else {
        before.asks@[i]
    }
}

/// Half the sum of the best bid and ask prices, truncated; `None` when a side is empty.
pub open spec fn mid_price(book: OrderBook) -> Option<Decimal> {
    if book.bid_count > 0 && book.ask_count > 0 {
        Some(Decimal(((book.bids@[0].price.0 + book.asks@[0].price.0) / 2) as u64))
    } else {
        None
    }
}

/// The best bid and ask prices can be added within `u64`.
pub open spec fn mid_price_fits(book: OrderBook) -> bool {
    book.bid_count > 0 && book.ask_count > 0 ==> book.bids@[0].price.0 + book.asks@[0].price.0 <= u64::MAX
}

#[derive(Debug, Clone, Copy)]
pub struct OrderBook {
    pub bids: [BookUpdateLevel; MAX_DEPTH],
    pub asks: [BookUpdateLevel; MAX_DEPTH],
    pub bid_count: usize,
    pub ask_count: usize,
}

impl Default for OrderBook {
    fn default() -> (book: OrderBook)
        ensures
            book.wf(),
            book.bid_count == 0,
            book.ask_count == 0,
            forall|i: int| 0 <= i < MAX_DEPTH ==> book.bids@[i] == empty_level() && book.asks@[i]
                == empty_level(),
    {
        OrderBook::new()
    }
}

impl OrderBook {
    /// The level counts fit the slots.
    pub open spec fn wf(self) -> bool {
        self.bid_count <= MAX_DEPTH && self.ask_count <= MAX_DEPTH
    }

    /// The live bid levels, best first.
    pub open spec fn bid_levels(self) -> Seq<BookUpdateLevel> {
        self.bids@.take(self.bid_count as int)
    }

    /// The live ask levels, best first.
    pub open spec fn ask_levels(self) -> Seq<BookUpdateLevel> {
        self.asks@.take(self.ask_count as int)
    }

    /// Both sides are strictly ranked.
    pub open spec fn is_ranked(self) -> bool {
        side_is_ranked(self.bid_levels(), true) && side_is_ranked(self.ask_levels(), false)
    }

    pub fn new() -> (book: OrderBook)
        ensures
            book.wf(),
            side_is_canonical(book.bids@, book.bid_count as int, true),
            side_is_canonical(book.asks@, book.ask_count as int, false),
            book.bid_count == 0,
            book.ask_count == 0,
            forall|i: int| 0 <= i < MAX_DEPTH ==> book.bids@[i] == empty_level() && book.asks@[i]
                == empty_level(),
    {
        let empty = BookUpdateLevel { price: Decimal(0), quantity: Decimal(0) };
        let bids: [BookUpdateLevel; 20] = [empty; 20];
        let asks: [BookUpdateLevel; 20] = [empty; 20];
        broadcast use vstd::array::group_array_axioms;
        assert(bids == vstd::array::spec_array_fill_for_copy_type::<BookUpdateLevel, 20>(empty));
        assert(asks == vstd::array::spec_array_fill_for_copy_type::<BookUpdateLevel, 20>(empty));
        assert(forall|i: int| 0 <= i < MAX_DEPTH ==> bids@[i] == empty_level());
        assert(forall|i: int| 0 <= i < MAX_DEPTH ==> asks@[i] == empty_level());
        OrderBook { bids, asks, bid_count: 0, ask_count: 0 }
    }

    /// Replaces both sides with the first levels of a full snapshot, keeping at most
    /// `MAX_DEPTH` of each; slots past the new counts are left as they were.
    pub fn apply_update(&mut self, update: &BookUpdate)
        ensures
            snapshot_applied(*old(self), *final(self), *update),
    {
        let bc = if update.bid_count < MAX_DEPTH { update.bid_count } else { MAX_DEPTH };
        self.bid_count = bc;
        let mut i: usize = 0;
        while i < bc
            invariant
                i <= bc <= MAX_DEPTH,
                self.bid_count == bc,
                self.asks == old(self).asks,
                self.ask_count == old(self).ask_count,
                forall|t: int| 0 <= t < MAX_DEPTH ==> #[trigger] self.bids@[t] == if t < i {
                    update.bids@[t]
                } else {
                    old(self).bids@[t]
                },
            decreases bc - i,
        {
            self.bids[i] = update.bids[i];
            i = i + 1;
        }
        let ac = if update.ask_count < MAX_DEPTH { update.ask_count } else { MAX_DEPTH };
        self.ask_count = ac;
        let mut i: usize = 0;
        while i < ac
            invariant
                i <= ac <= MAX_DEPTH,
                self.ask_count == ac,
                self.bid_count == bc,
                forall|t: int| 0 <= t < MAX_DEPTH ==> #[trigger] self.bids@[t] == if t < bc {
                    update.bids@[t]
                } else {
                    old(self).bids@[t]
                },
                forall|t: int| 0 <= t < MAX_DEPTH ==> #[trigger] self.asks@[t] == if t < i {
                    update.asks@[t]
                } else {
                    old(self).asks@[t]
                },
            decreases ac - i,
        {
            self.asks[i] = update.asks[i];
            i = i + 1;
        }
    }

    /// Sets the bid quantity at `price` (bids are kept highest price first).
    pub fn update_bid(&mut self, price: Decimal, quantity: Decimal)
        requires
            old(self).wf(),
        ensures
            (final(self).bids@, final(self).bid_count as int) == side_after_update(
                old(self).bids@,
                old(self).bid_count as int,
                true,
                price,
                quantity,
            ),
            final(self).asks == old(self).asks,
            final(self).ask_count == old(self).ask_count,
            side_is_canonical(old(self).bids@, old(self).bid_count as int, true) ==> side_is_canonical(
                final(self).bids@,
                final(self).bid_count as int,
                true,
            ),
    {
        proof {
            if side_is_canonical(self.bids@, self.bid_count as int, true) {
                lemma_update_keeps_side_canonical(self.bids@, self.bid_count as int, true, price, quantity);
            }
        }
        let mut slots = self.bids;
        let mut count = self.bid_count;
        update_side(&mut slots, &mut count, true, price, quantity);
        self.bids = slots;
        self.bid_count = count;
    }

    /// Sets the ask quantity at `price` (asks are kept lowest price first).
    pub fn update_ask(&mut self, price: Decimal, quantity: Decimal)
        requires
            old(self).wf(),
        ensures
            (final(self).asks@, final(self).ask_count as int) == side_after_update(
                old(self).asks@,
                old(self).ask_count as int,
                false,
                price,
                quantity,
            ),
            final(self).bids == old(self).bids,
            final(self).bid_count == old(self).bid_count,
            side_is_canonical(old(self).asks@, old(self).ask_count as int, false) ==> side_is_canonical(
                final(self).asks@,
                final(self).ask_count as int,
                false,
            ),
    {
        proof {
            if side_is_canonical(self.asks@, self.ask_count as int, false) {
                lemma_update_keeps_side_canonical(self.asks@, self.ask_count as int, false, price, quantity);
            }
        }
        let mut slots = self.asks;
        let mut count = self.ask_count;
        update_side(&mut slots, &mut count, false, price, quantity);
        self.asks = slots;
        self.ask_count = count;
    }

    pub fn get_best_bid(&self) -> (r: Option<BookUpdateLevel>)
        ensures
            r == if self.bid_count > 0 { Some(self.bids@[0]) } else { None::<BookUpdateLevel> },
    {
        if self.bid_count > 0 {
            Some(self.bids[0])
        } else {
            None
        }
    }

    pub fn get_best_ask(&self) -> (r: Option<BookUpdateLevel>)
        ensures
            r == if self.ask_count > 0 { Some(self.asks@[0]) } else { None::<BookUpdateLevel> },
    {
        if self.ask_count > 0 {
            Some(self.asks[0])
        } else {
            None
        }
    }

    /// Half the sum of the best bid and best ask prices, truncated; `None` when a side is empty.
    pub fn get_mid_price(&self) -> (r: Option<Decimal>)
        requires
            mid_price_fits(*self),
        ensures
            r == mid_price(*self),
    {
        match (self.get_best_bid(), self.get_best_ask()) {
            (Some(bid), Some(ask)) => Some((bid.price + ask.price) / 2),
            _ => None,
        }
    }
}

/// A change to one level of a strictly ranked side leaves the side strictly ranked
/// and within its slots.
pub proof fn lemma_update_keeps_side_ranked(
    slots: Seq<BookUpdateLevel>,
    count: int,
    is_bid: bool,
    price: Decimal,
    quantity: Decimal,
)
    requires
        slots.len() == MAX_DEPTH,
        0 <= count <= MAX_DEPTH,
        side_is_ranked(slots.take(count), is_bid),
    ensures
        ({
            let (after, after_count) = side_after_update(slots, count, is_bid, price, quantity);
            &&& after.len() == MAX_DEPTH
            &&& 0 <= after_count <= MAX_DEPTH
            &&& side_is_ranked(after.take(after_count), is_bid)
        }),
{
    let levels = slots.take(count);
    let (after, after_count) = side_after_update(slots, count, is_bid, price, quantity);
    lemma_price_index_props(levels, price.0);
    lemma_insert_index_props(levels, is_bid, price.0);
    let m = price_index(levels, price.0);
    let k = insert_index(levels, is_bid, price.0);
    let out = after.take(after_count);
    if m < count {
        if quantity.0 == 0 {
            assert(after.len() == MAX_DEPTH);
            assert forall|i: int| 0 <= i < after_count implies #[trigger] out[i] == if i < m {
                levels[i]
            } else {
                levels[i + 1]
            } by {}
            assert forall|i: int, j: int| 0 <= i < j < out.len() implies ranks_ahead(
                is_bid,
                #[trigger] out[i].price.0,
                #[trigger] out[j].price.0,
            ) by {
                let ii = if i < m { i } else { i + 1 };
                let jj = if j < m { j } else { j + 1 };
                assert(levels[ii] == out[i]);
                assert(levels[jj] == out[j]);
                assert(ranks_ahead(is_bid, levels[ii].price.0, levels[jj].price.0));
            }
        } else {
            assert forall|i: int| 0 <= i < after_count implies #[trigger] out[i].price == levels[i].price by {}
            assert forall|i: int, j: int| 0 <= i < j < out.len() implies ranks_ahead(
                is_bid,
                #[trigger] out[i].price.0,
                #[trigger] out[j].price.0,
            ) by {
                assert(out[i].price == levels[i].price);
                assert(out[j].price == levels[j].price);
                assert(ranks_ahead(is_bid, levels[i].price.0, levels[j].price.0));
            }
        }
    } else if quantity.0 != 0 && k < MAX_DEPTH {
        let nl = BookUpdateLevel { price, quantity };
        let end = if count + 1 < MAX_DEPTH { count + 1 } else { MAX_DEPTH as int };
        assert(after.len() == MAX_DEPTH);
        assert forall|i: int| 0 <= i < after_count implies #[trigger] out[i] == if i < k {
            levels[i]
        } else if i == k {
            nl
        } else {
            levels[i - 1]
        } by {}
        // Every level before `k` ranks ahead of the new price, every later one behind it.
        assert forall|j: int| 0 <= j < k implies ranks_ahead(is_bid, levels[j].price.0, price.0) by {
            assert(!ranks_ahead(is_bid, price.0, levels[j].price.0));
            assert(levels[j].price.0 != price.0);
        }
        assert forall|j: int| k <= j < count implies ranks_ahead(is_bid, price.0, levels[j].price.0) by {
            if j > k {
                assert(ranks_ahead(is_bid, levels[k].price.0, levels[j].price.0));
            }
        }
        assert forall|i: int, j: int| 0 <= i < j < out.len() implies ranks_ahead(
            is_bid,
            #[trigger] out[i].price.0,
            #[trigger] out[j].price.0,
        ) by {
            if i < k && j < k {
                assert(ranks_ahead(is_bid, levels[i].price.0, levels[j].price.0));
            } else if i < k && j == k {
            } else if i < k {
                assert(ranks_ahead(is_bid, levels[i].price.0, levels[j - 1].price.0));
            } else if i == k {
                assert(k <= j - 1 < count);
            } else {
                assert(ranks_ahead(is_bid, levels[i - 1].price.0, levels[j - 1].price.0));
            }
        }
    } else {
        assert(out =~= levels);
    }
}

/// A side in its normal shape: within its slots, strictly ranked, every live level
/// with a non-zero quantity, and every slot past the live levels empty.
pub open spec fn side_is_canonical(slots: Seq<BookUpdateLevel>, count: int, is_bid: bool) -> bool {
    &&& slots.len() == MAX_DEPTH
    &&& 0 <= count <= MAX_DEPTH
    &&& side_is_ranked(slots.take(count), is_bid)
    &&& forall|i: int| 0 <= i < count ==> (#[trigger] slots[i]).quantity.0 != 0
    &&& forall|i: int| count <= i < MAX_DEPTH ==> #[trigger] slots[i] == empty_level()
}

/// Any single-level change keeps a side in its normal shape: strictly ranked,
/// non-zero quantities on the live levels and empty slots after them.
pub proof fn lemma_update_keeps_side_canonical(
    slots: Seq<BookUpdateLevel>,
    count: int,
    is_bid: bool,
    price: Decimal,
    quantity: Decimal,
)
    requires
        side_is_canonical(slots, count, is_bid),
    ensures
        ({
            let (after, after_count) = side_after_update(slots, count, is_bid, price, quantity);
            side_is_canonical(after, after_count, is_bid)
        }),
{
    lemma_update_keeps_side_ranked(slots, count, is_bid, price, quantity);
    let levels = slots.take(count);
    let (after, after_count) = side_after_update(slots, count, is_bid, price, quantity);
    lemma_price_index_props(levels, price.0);
    lemma_insert_index_props(levels, is_bid, price.0);
    let m = price_index(levels, price.0);
    let k = insert_index(levels, is_bid, price.0);
    if m < count {
        if quantity.0 == 0 {
            assert forall|i: int| 0 <= i < after_count implies (#[trigger] after[i]).quantity.0 != 0 by {
                if i < m {
                    assert(after[i] == slots[i]);
                } else {
                    assert(after[i] == slots[i + 1]);
                }
            }
            assert forall|i: int| after_count <= i < MAX_DEPTH implies #[trigger] after[i] == empty_level() by {
                if i > after_count {
                    assert(after[i] == slots[i]);
                }
            }
        } else {
            assert forall|i: int| 0 <= i < after_count implies (#[trigger] after[i]).quantity.0 != 0 by {
                if i != m {
                    assert(after[i] == slots[i]);
                }
            }
            assert forall|i: int| after_count <= i < MAX_DEPTH implies #[trigger] after[i] == empty_level() by {
                assert(after[i] == slots[i]);
            }
        }
    } else if quantity.0 != 0 && k < MAX_DEPTH {
        let end = if count + 1 < MAX_DEPTH { count + 1 } else { MAX_DEPTH as int };
        assert forall|i: int| 0 <= i < after_count implies (#[trigger] after[i]).quantity.0 != 0 by {
            if i < k {
                assert(after[i] == slots[i]);
            } else if i > k {
                assert(after[i] == slots[i - 1]);
            }
        }
        assert forall|i: int| after_count <= i < MAX_DEPTH implies #[trigger] after[i] == empty_level() by {
            assert(after[i] == slots[i]);
        }
    }
}

/// Inserting a new price into a side with room and then removing it again gives the
/// side back exactly, slots and count.
pub proof fn lemma_insert_then_delete_restores_side(
    slots: Seq<BookUpdateLevel>,
    count: int,
    is_bid: bool,
    price: Decimal,
    quantity: Decimal,
)
    requires
        side_is_canonical(slots, count, is_bid),
        count < MAX_DEPTH,
        forall|i: int| 0 <= i < count ==> (#[trigger] slots[i]).price != price,
        quantity.0 != 0,
    ensures
        ({
            let (s1, c1) = side_after_update(slots, count, is_bid, price, quantity);
            side_after_update(s1, c1, is_bid, price, Decimal(0)) == (slots, count)
        }),
{
    let levels = slots.take(count);
    lemma_price_index_props(levels, price.0);
    lemma_insert_index_props(levels, is_bid, price.0);
    let k = insert_index(levels, is_bid, price.0);
    assert(price_index(levels, price.0) == count) by {
        if price_index(levels, price.0) < count {
            assert(levels[price_index(levels, price.0)].price.0 == price.0);
        }
    }
    let (s1, c1) = side_after_update(slots, count, is_bid, price, quantity);
    assert(c1 == count + 1);
    let l1 = s1.take(c1);
    assert(s1[k] == BookUpdateLevel { price, quantity });
    assert forall|j: int| 0 <= j < k implies l1[j].price.0 != price.0 by {
        assert(s1[j] == slots[j]);
    }
    assert(is_first_price_match(l1, price.0, k));
    lemma_price_index_props(l1, price.0);
    assert(price_index(l1, price.0) == k) by {
        if price_index(l1, price.0) < k {
        } else if price_index(l1, price.0) > k {
        }
    }
    let (s2, c2) = side_after_update(s1, c1, is_bid, price, Decimal(0));
    assert(c2 == count);
    assert forall|i: int| 0 <= i < MAX_DEPTH implies s2[i] == slots[i] by {
        if i < k {
            assert(s2[i] == s1[i]);
        } else if i < count {
            assert(s2[i] == s1[i + 1]);
        } else if i == count {
            assert(s2[i] == empty_level());
        } else {
            assert(s2[i] == s1[i]);
        }
    }
    assert(s2 =~= slots);
}

/// The quantity quoted at `price`: that of the first level at that price, zero when none.
pub open spec fn quoted_quantity(levels: Seq<BookUpdateLevel>, price: u64) -> u64 {
    let m = price_index(levels, price);
    if m < levels.len() {
        levels[m].quantity.0
    } else {
        0
    }
}

/// The side takes a new level at `price`: it has room, already quotes the price,
/// or the price ranks ahead of one of its levels.
pub open spec fn accepts_price(levels: Seq<BookUpdateLevel>, is_bid: bool, price: u64) -> bool {
    levels.len() < MAX_DEPTH || exists|i: int|
        0 <= i < levels.len() && (levels[i].price.0 == price || ranks_ahead(
            is_bid,
            price,
            #[trigger] levels[i].price.0,
        ))
}

proof fn lemma_quote_of_ranked(levels: Seq<BookUpdateLevel>, is_bid: bool, price: u64, i: int)
    requires
        side_is_ranked(levels, is_bid),
        0 <= i < levels.len(),
        levels[i].price.0 == price,
    ensures
        quoted_quantity(levels, price) == levels[i].quantity.0,
{
    lemma_price_index_props(levels, price);
    let m = price_index(levels, price);
    if m < i {
        assert(ranks_ahead(is_bid, levels[m].price.0, levels[i].price.0));
    } else if m > i {
    }
}

proof fn lemma_quote_of_absent(levels: Seq<BookUpdateLevel>, price: u64)
    requires
        forall|j: int| 0 <= j < levels.len() ==> levels[j].price.0 != price,
    ensures
        quoted_quantity(levels, price) == 0,
{
    lemma_price_index_props(levels, price);
}

/// After a change at `price`, the side quotes exactly the new quantity there: a
/// non-zero quantity is quoted whenever the side accepts the price, and a zero
/// quantity removes the price from a strictly ranked side.
pub proof fn lemma_update_then_quote(
    slots: Seq<BookUpdateLevel>,
    count: int,
    is_bid: bool,
    price: Decimal,
    quantity: Decimal,
)
    requires
        slots.len() == MAX_DEPTH,
        0 <= count <= MAX_DEPTH,
        quantity.0 != 0 ==> accepts_price(slots.take(count), is_bid, price.0),
        quantity.0 == 0 ==> side_is_ranked(slots.take(count), is_bid),
    ensures
        ({
            let (after, after_count) = side_after_update(slots, count, is_bid, price, quantity);
            quoted_quantity(after.take(after_count), price.0) == quantity.0
        }),
{
    let levels = slots.take(count);
    let (after, after_count) = side_after_update(slots, count, is_bid, price, quantity);
    let out = after.take(after_count);
    lemma_price_index_props(levels, price.0);
    lemma_insert_index_props(levels, is_bid, price.0);
    let m = price_index(levels, price.0);
    let k = insert_index(levels, is_bid, price.0);
    if quantity.0 != 0 {
        if m < count {
            assert(out[m].price == price);
            assert forall|j: int| 0 <= j < m implies out[j].price.0 != price.0 by {
                assert(out[j] == levels[j]);
            }
            assert(is_first_price_match(out, price.0, m));
            lemma_price_index_props(out, price.0);
            if price_index(out, price.0) < m {
            } else if price_index(out, price.0) > m {
            }
        } else {
            if count == MAX_DEPTH {
                let w = choose|i: int|
                    0 <= i < levels.len() && (levels[i].price.0 == price.0 || ranks_ahead(
                        is_bid,
                        price.0,
                        #[trigger] levels[i].price.0,
                    ));
                assert(levels[w].price.0 != price.0);
                assert(k <= w);
            }
            assert(k < MAX_DEPTH);
            assert(out[k] == BookUpdateLevel { price, quantity });
            assert forall|j: int| 0 <= j < k implies out[j].price.0 != price.0 by {
                assert(out[j] == levels[j]);
            }
            assert(is_first_price_match(out, price.0, k));
            lemma_price_index_props(out, price.0);
            if price_index(out, price.0) < k {
            } else if price_index(out, price.0) > k {
            }
        }
    } else {
        lemma_update_keeps_side_ranked(slots, count, is_bid, price, quantity);
        if m < count {
            assert forall|j: int| 0 <= j < out.len() implies out[j].price.0 != price.0 by {
                if j < m {
                    assert(out[j] == levels[j]);
                } else {
                    assert(out[j] == levels[j + 1]);
                    assert(ranks_ahead(is_bid, levels[m].price.0, levels[j + 1].price.0));
                }
            }
        } else {
            assert(out =~= levels);
        }
        lemma_quote_of_absent(out, price.0);
    }
}

/// A change at one price leaves the quote at every other price of a strictly ranked
/// side as it was, except for the worst level of a full side, which a newly
/// inserted price pushes out.
pub proof fn lemma_update_keeps_other_quotes(
    slots: Seq<BookUpdateLevel>,
    count: int,
    is_bid: bool,
    price: Decimal,
    quantity: Decimal,
    other: u64,
)
    requires
        slots.len() == MAX_DEPTH,
        0 <= count <= MAX_DEPTH,
        side_is_ranked(slots.take(count), is_bid),
        other != price.0,
        !(count == MAX_DEPTH && quantity.0 != 0 && slots[count - 1].price.0 == other && accepts_price(
            slots.take(count),
            is_bid,
            price.0,
        )),
    ensures
        ({
            let (after, after_count) = side_after_update(slots, count, is_bid, price, quantity);
            quoted_quantity(after.take(after_count), other) == quoted_quantity(slots.take(count), other)
        }),
{
    let levels = slots.take(count);
    let (after, after_count) = side_after_update(slots, count, is_bid, price, quantity);
    let out = after.take(after_count);
    lemma_update_keeps_side_ranked(slots, count, is_bid, price, quantity);
    lemma_price_index_props(levels, price.0);
    lemma_insert_index_props(levels, is_bid, price.0);
    let m = price_index(levels, price.0);
    let k = insert_index(levels, is_bid, price.0);
    if exists|o: int| 0 <= o < count && levels[o].price.0 == other {
        let o = choose|o: int| 0 <= o < count && levels[o].price.0 == other;
        lemma_quote_of_ranked(levels, is_bid, other, o);
        assert(o != m);
        if m < count {
            if quantity.0 == 0 {
                let p = if o < m { o } else { o - 1 };
                assert(out[p] == levels[o]);
                lemma_quote_of_ranked(out, is_bid, other, p);
            } else {
                assert(out[o] == levels[o]);
                lemma_quote_of_ranked(out, is_bid, other, o);
            }
        } else if quantity.0 != 0 && k < MAX_DEPTH {
            let p = if o < k { o } else { o + 1 };
            if count == MAX_DEPTH && o == count - 1 && o >= k {
                assert(accepts_price(levels, is_bid, price.0)) by {
                    assert(ranks_ahead(is_bid, price.0, levels[k].price.0));
                }
            }
            assert(p < after_count);
            assert(out[p] == levels[o]);
            lemma_quote_of_ranked(out, is_bid, other, p);
        } else {
            assert(out =~= levels);
        }
    } else {
        lemma_quote_of_absent(levels, other);
        assert forall|j: int| 0 <= j < out.len() implies out[j].price.0 != other by {
            if m < count {
                if quantity.0 == 0 {
                    if j < m {
                        assert(out[j] == levels[j]);
                    } else {
                        assert(out[j] == levels[j + 1]);
                    }
                } else {
                    assert(out[j].price == levels[j].price);
                }
            } else if quantity.0 != 0 && k < MAX_DEPTH {
                if j < k {
                    assert(out[j] == levels[j]);
                } else if j > k {
                    assert(out[j] == levels[j - 1]);
                }
            } else {
                assert(out[j] == levels[j]);
            }
        }
        lemma_quote_of_absent(out, other);
    }
}

/// On a strictly ranked side the first level is the best one: every other live
/// level ranks behind it (the best bid is the highest, the best ask the lowest).
pub proof fn lemma_best_level_is_first(levels: Seq<BookUpdateLevel>, is_bid: bool)
    requires
        side_is_ranked(levels, is_bid),
        levels.len() > 0,
    ensures
        forall|i: int| 1 <= i < levels.len() ==> ranks_ahead(is_bid, levels[0].price.0, #[trigger] levels[i].price.0),
{
    assert forall|i: int| 1 <= i < levels.len() implies ranks_ahead(is_bid, levels[0].price.0, #[trigger] levels[i].price.0) by {
        assert(ranks_ahead(is_bid, levels[0].price.0, levels[i].price.0));
    }
}

/// A snapshot determines the book it leaves: applying the same update to the same
/// book always gives the same book.
pub proof fn lemma_snapshot_unique(before: OrderBook, a: OrderBook, b: OrderBook, update: BookUpdate)
    requires
        snapshot_applied(before, a, update),
        snapshot_applied(before, b, update),
    ensures
        a == b,
{
    broadcast use vstd::array::group_array_axioms;
    assert forall|i: int| 0 <= i < MAX_DEPTH implies a.bids[i] == b.bids[i] by {
        assert(a.bids@[i] == b.bids@[i]);
    }
    assert forall|i: int| 0 <= i < MAX_DEPTH implies a.asks[i] == b.asks[i] by {
        assert(a.asks@[i] == b.asks@[i]);
    }
    assert(a.bids =~= b.bids);
    assert(a.asks =~= b.asks);
}

/// The mid price exists exactly when both sides quote, and then lies between the
/// best bid and the best ask of an uncrossed book.
pub proof fn lemma_mid_price_between(book: OrderBook)
    ensures
        mid_price(book) is Some == (book.bid_count > 0 && book.ask_count > 0),
        mid_price(book) matches Some(mid) ==> (mid_price_fits(book) && book.bids@[0].price.0
            <= book.asks@[0].price.0 ==> book.bids@[0].price.0 <= mid.0 <= book.asks@[0].price.0 && 2 * mid.0
            <= book.bids@[0].price.0 + book.asks@[0].price.0 <= 2 * mid.0 + 1),
{
}

/// A snapshot replaces the live levels of each side by the snapshot's first levels,
/// at most `MAX_DEPTH` of them.
pub proof fn lemma_snapshot_sets_live_levels(before: OrderBook, after: OrderBook, update: BookUpdate)
    requires
        snapshot_applied(before, after, update),
    ensures
        after.bid_count == if update.bid_count <= 20 { update.bid_count } else { 20 },
        after.ask_count == if update.ask_count <= 20 { update.ask_count } else { 20 },
        after.bid_levels() == update.bids@.take(after.bid_count as int),
        after.ask_levels() == update.asks@.take(after.ask_count as int),
{
    assert(after.bid_levels() =~= update.bids@.take(after.bid_count as int));
    assert(after.ask_levels() =~= update.asks@.take(after.ask_count as int));
}

} // verus!
