//! Resting orders of one market, split into a bid side (best price first,
//! highest) and an ask side (best price first, lowest).
use vstd::prelude::*;

verus! {

/// Which side of the book an order rests on.
#[derive(Clone, Copy, Debug, PartialEq, Eq, Structural)]
pub enum Side {
    Bid,
    Ask,
}

/// One instruction to trade; `trader` holds the bytes of the owner's key.
#[derive(Clone, Copy, Debug)]
pub struct Order {
    pub id: u128,
    pub trader: [u8; 32],
    pub side: Side,
    pub price: u64,
    pub size: u64,
    pub timestamp: i64,
}

/// Two orders are equal when every field is, the trader's key compared byte by byte.
pub open spec fn same_order(a: Order, b: Order) -> bool {
    &&& a.id == b.id
    &&& a.trader@ == b.trader@
    &&& a.side == b.side
    &&& a.price == b.price
    &&& a.size == b.size
    &&& a.timestamp == b.timestamp
}

impl PartialEq for Order {
    fn eq(&self, o: &Order) -> (r: bool) {
        self.id == o.id && crate::same_key(&self.trader, &o.trader) && self.side == o.side
            && self.price == o.price && self.size == o.size && self.timestamp == o.timestamp
    }
}

impl vstd::std_specs::cmp::PartialEqSpecImpl for Order {
    open spec fn obeys_eq_spec() -> bool {
        true
    }

    open spec fn eq_spec(&self, o: &Order) -> bool {
        same_order(*self, *o)
    }
}

/// The only validation error of the book.
#[derive(Clone, Copy, Debug, PartialEq, Eq, Structural)]
pub enum BookError {
    /// An order of size zero was submitted.
    InvalidOrder,
}

#[derive(Clone, Debug)]
pub struct OrderBook {
    /// Sorted by price, highest first.
    pub bids: Vec<Order>,
    /// Sorted by price, lowest first.
    pub asks: Vec<Order>,
}

/// Prices never increase along `s`.
pub open spec fn sorted_desc(s: Seq<Order>) -> bool {
    forall|i: int, j: int| 0 <= i < j < s.len() ==> s[i].price >= s[j].price
}

/// Prices never decrease along `s`.
pub open spec fn sorted_asc(s: Seq<Order>) -> bool {
    forall|i: int, j: int| 0 <= i < j < s.len() ==> s[i].price <= s[j].price
}

/// Every order of `s` rests on `side` with a positive size.
pub open spec fn resting_on(s: Seq<Order>, side: Side) -> bool {
    forall|i: int| 0 <= i < s.len() ==> (#[trigger] s[i]).side == side && s[i].size > 0
}

/// No id occurs twice in `s`.
pub open spec fn unique_ids(s: Seq<Order>) -> bool {
    forall|i: int, j: int| 0 <= i < s.len() && 0 <= j < s.len() && i != j ==> s[i].id != s[j].id
}

/// No id of `a` occurs in `b`.
pub open spec fn disjoint_ids(a: Seq<Order>, b: Seq<Order>) -> bool {
    forall|i: int, j: int| 0 <= i < a.len() && 0 <= j < b.len() ==> a[i].id != b[j].id
}

pub open spec fn has_id(s: Seq<Order>, id: u128) -> bool {
    exists|i: int| 0 <= i < s.len() && s[i].id == id
}

/// `k` is where a new bid at `price` goes: after every bid at that price or
/// better, before every worse one.
pub open spec fn bid_slot(s: Seq<Order>, price: u64, k: int) -> bool {
    &&& 0 <= k <= s.len()
    &&& forall|i: int| 0 <= i < k ==> s[i].price >= price
    &&& forall|i: int| k <= i < s.len() ==> s[i].price < price
}

/// `k` is where a new ask at `price` goes: after every ask at that price or
/// better, before every worse one.
pub open spec fn ask_slot(s: Seq<Order>, price: u64, k: int) -> bool {
    &&& 0 <= k <= s.len()
    &&& forall|i: int| 0 <= i < k ==> s[i].price <= price
    &&& forall|i: int| k <= i < s.len() ==> s[i].price > price
}

/// `new` is `old` without the order of id `id`, or `old` itself if it has none.
pub open spec fn removed_id(old: Seq<Order>, new: Seq<Order>, id: u128) -> bool {
    if has_id(old, id) {
        exists|i: int| 0 <= i < old.len() && old[i].id == id && new == old.remove(i)
    } else {
        new == old
    }
}

impl Default for OrderBook {
    fn default() -> (r: Self)
        ensures
            r.wf(),
            r.bids@.len() == 0,
            r.asks@.len() == 0,
    {
        OrderBook::new()
    }
}

impl OrderBook {
    /// Both sides sorted by their priority, resting on the right side with
    /// positive sizes, and no id twice in the book.
    pub open spec fn wf(&self) -> bool {
        &&& sorted_desc(self.bids@)
        &&& sorted_asc(self.asks@)
        &&& resting_on(self.bids@, Side::Bid)
        &&& resting_on(self.asks@, Side::Ask)
        &&& unique_ids(self.bids@)
        &&& unique_ids(self.asks@)
        &&& disjoint_ids(self.bids@, self.asks@)
    }

    pub open spec fn holds_id(&self, id: u128) -> bool {
        has_id(self.bids@, id) || has_id(self.asks@, id)
    }

    pub fn new() -> (r: Self)
        ensures
            r.wf(),
            r.bids@.len() == 0,
            r.asks@.len() == 0,
    {
        OrderBook { bids: Vec::new(), asks: Vec::new() }
    }

    /// Whether an order of id `id` rests on either side.
    pub fn contains_order(&self, id: u128) -> (r: bool)
        ensures
            r == self.holds_id(id),
    {
        find_id(&self.bids, id).is_some() || find_id(&self.asks, id).is_some()
    }

    /// Best bid: the first of the bid side.
    pub fn best_bid(&self) -> (r: Option<Order>)
        ensures
            r == (if self.bids@.len() > 0 { Some(self.bids@[0]) } else { None::<Order> }),
    {
        if self.bids.len() > 0 { Some(self.bids[0]) } else { None }
    }

    /// Best ask: the first of the ask side.
    pub fn best_ask(&self) -> (r: Option<Order>)
        ensures
            r == (if self.asks@.len() > 0 { Some(self.asks@[0]) } else { None::<Order> }),
    {
        if self.asks.len() > 0 { Some(self.asks[0]) } else { None }
    }

    /// Inserts `order` on its side, behind every order at the same price.
    pub fn add_order(&mut self, order: Order) -> (r: Result<(), BookError>)
        requires
            old(self).wf(),
            !old(self).holds_id(order.id),
        ensures
            final(self).wf(),
            order.size == 0 <==> r == Err::<(), BookError>(BookError::InvalidOrder),
            order.size == 0 ==> *final(self) == *old(self),
            order.size > 0 ==> r == Ok::<(), BookError>(()),
            order.size > 0 && order.side == Side::Bid ==> final(self).asks@ == old(self).asks@
                && exists|k: int|
                bid_slot(old(self).bids@, order.price, k) && final(self).bids@ == old(
                    self,
                ).bids@.insert(k, order),
            order.size > 0 && order.side == Side::Ask ==> final(self).bids@ == old(self).bids@
                && exists|k: int|
                ask_slot(old(self).asks@, order.price, k) && final(self).asks@ == old(
                    self,
                ).asks@.insert(k, order),
    {
        if order.size == 0 {
            return Err(BookError::InvalidOrder);
        }
        match order.side {
            Side::Bid => {
                let mut k: usize = 0;
                while k < self.bids.len() && self.bids[k].price >= order.price
                    invariant
                        k <= self.bids@.len(),
                        forall|i: int| 0 <= i < k ==> self.bids@[i].price >= order.price,
                    decreases self.bids@.len() - k,
                {
                    k = k + 1;
                }
                let ghost old_bids = self.bids@;
                assert(bid_slot(old_bids, order.price, k as int)) by {
                    assert forall|i: int| k <= i < old_bids.len() implies old_bids[i].price
                        < order.price by {
                        if i > k {
                            assert(old_bids[k as int].price >= old_bids[i].price);
                        }
                    }
                }
                self.bids.insert(k, order);
                proof {
                    old_bids.insert_ensures(k as int, order);
                    lemma_insert_keeps_book(old_bids, order, k as int, self.asks@);
                }
            },
            Side::Ask => {
                let mut k: usize = 0;
                while k < self.asks.len() && self.asks[k].price <= order.price
                    invariant
                        k <= self.asks@.len(),
                        forall|i: int| 0 <= i < k ==> self.asks@[i].price <= order.price,
                    decreases self.asks@.len() - k,
                {
                    k = k + 1;
                }
                let ghost old_asks = self.asks@;
                assert(ask_slot(old_asks, order.price, k as int)) by {
                    assert forall|i: int| k <= i < old_asks.len() implies old_asks[i].price
                        > order.price by {
                        if i > k {
                            assert(old_asks[k as int].price <= old_asks[i].price);
                        }
                    }
                }
                self.asks.insert(k, order);
                proof {
                    old_asks.insert_ensures(k as int, order);
                    lemma_insert_keeps_book(old_asks, order, k as int, self.bids@);
                }
            },
        }
        Ok(())
    }

    /// Removes the order of id `order_id` from `side`; nothing happens if no
    /// such order rests there.
    pub fn remove_order(&mut self, order_id: u128, side: Side)
        requires
            old(self).wf(),
        ensures
            final(self).wf(),
            side == Side::Bid ==> final(self).asks@ == old(self).asks@ && removed_id(
                old(self).bids@,
                final(self).bids@,
                order_id,
            ),
            side == Side::Ask ==> final(self).bids@ == old(self).bids@ && removed_id(
                old(self).asks@,
                final(self).asks@,
                order_id,
            ),
    {
        match side {
            Side::Bid => {
                let ghost old_bids = self.bids@;
                match find_id(&self.bids, order_id) {
                    Some(i) => {
                        self.bids.remove(i);
                        proof {
                            old_bids.remove_ensures(i as int);
                        }
                    },
                    None => {},
                }
            },
            Side::Ask => {
                let ghost old_asks = self.asks@;
                match find_id(&self.asks, order_id) {
                    Some(i) => {
                        self.asks.remove(i);
                        proof {
                            old_asks.remove_ensures(i as int);
                        }
                    },
                    None => {},
                }
            },
        }
    }
}

/// In a well-formed book whose bid prices are pairwise distinct, bids are
/// strictly descending by price; likewise asks strictly ascending.
pub proof fn lemma_strict_order_when_prices_differ(book: OrderBook)
    requires
        book.wf(),
    ensures
        (forall|i: int, j: int|
            0 <= i < j < book.bids@.len() ==> book.bids@[i].price != book.bids@[j].price)
            ==> (forall|i: int, j: int|
            0 <= i < j < book.bids@.len() ==> book.bids@[i].price > book.bids@[j].price),
        (forall|i: int, j: int|
            0 <= i < j < book.asks@.len() ==> book.asks@[i].price != book.asks@[j].price)
            ==> (forall|i: int, j: int|
            0 <= i < j < book.asks@.len() ==> book.asks@[i].price < book.asks@[j].price),
{
}

/// Position of the order of id `id` in `v`, if any.
fn find_id(v: &Vec<Order>, id: u128) -> (r: Option<usize>)
    ensures
        r.is_none() <==> !has_id(v@, id),
        r.is_some() ==> r.unwrap() < v@.len() && v@[r.unwrap() as int].id == id,
{
    let mut i: usize = 0;
    while i < v.len()
        invariant
            i <= v@.len(),
            forall|j: int| 0 <= j < i ==> v@[j].id != id,
        decreases v@.len() - i,
    {
        if v[i].id == id {
            return Some(i);
        }
        i = i + 1;
    }
    None
}

/// Inserting an order of a fresh id at its price slot keeps a side sorted,
/// resting and free of repeated ids.
proof fn lemma_insert_keeps_book(s: Seq<Order>, o: Order, k: int, other: Seq<Order>)
    requires
        0 <= k <= s.len(),
        unique_ids(s),
        !has_id(s, o.id),
        !has_id(other, o.id),
        disjoint_ids(s, other) || disjoint_ids(other, s),
    ensures
        unique_ids(s.insert(k, o)),
        disjoint_ids(s, other) ==> disjoint_ids(s.insert(k, o), other),
        disjoint_ids(other, s) ==> disjoint_ids(other, s.insert(k, o)),
{
    let t = s.insert(k, o);
    s.insert_ensures(k, o);
    assert forall|i: int| 0 <= i < t.len() && i != k implies t[i] == s[if i < k { i } else { i - 1 }] by {
        if i > k {
            assert(t[(i - 1) + 1] == s[i - 1]);
        }
    }
}

} // verus!
