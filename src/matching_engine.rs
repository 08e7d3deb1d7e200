//! Crosses the best bid against the best ask until the book no longer crosses.
use vstd::prelude::*;

use crate::order_book::{
    OrderBook, Order, Side, sorted_asc, sorted_desc, resting_on, unique_ids, disjoint_ids,
};

verus! {

/// One executed cross. The resting ask is the maker, the bid the taker.
#[derive(Clone, Copy, Debug, PartialEq, Eq, Structural)]
pub struct TradeMatch {
    pub maker_order_id: u128,
    pub taker_order_id: u128,
    pub price: u64,
    pub size: u64,
}

pub open spec fn min_u64(a: u64, b: u64) -> u64 {
    if a <= b { a } else { b }
}

/// What is left of the front order of `s` after `q` of it traded: it leaves
/// the side when filled, else it stays in front with a smaller size.
pub open spec fn fill_front(s: Seq<Order>, q: u64) -> Seq<Order> {
    if s[0].size == q {
        s.drop_first()
    } else {
        s.update(0, Order { size: (s[0].size - q) as u64, ..s[0] })
    }
}

/// Whether the best bid reaches the best ask.
pub open spec fn crosses(bids: Seq<Order>, asks: Seq<Order>) -> bool {
    bids.len() > 0 && asks.len() > 0 && bids[0].price >= asks[0].price
}

/// The trades of a matching run on sides `bids` and `asks`, in the order
/// they happen, and the two sides it leaves.
pub open spec fn run_matches(bids: Seq<Order>, asks: Seq<Order>) -> (Seq<TradeMatch>, Seq<Order>, Seq<Order>)
    decreases bids.len() + asks.len(),
{
    if crosses(bids, asks) {
        let q = min_u64(bids[0].size, asks[0].size);
        let t = TradeMatch {
            maker_order_id: asks[0].id,
            taker_order_id: bids[0].id,
            price: asks[0].price,
            size: q,
        };
        let rest = run_matches(fill_front(bids, q), fill_front(asks, q));
        (seq![t] + rest.0, rest.1, rest.2)
    } else {
        (Seq::empty(), bids, asks)
    }
}

/// Sum of the sizes of the orders of `s`.
pub open spec fn total_size(s: Seq<Order>) -> int
    decreases s.len(),
{
    if s.len() == 0 { 0 } else { s[0].size + total_size(s.drop_first()) }
}

/// Sum of the sizes of the trades of `s`.
pub open spec fn traded_volume(s: Seq<TradeMatch>) -> int
    decreases s.len(),
{
    if s.len() == 0 { 0 } else { s[0].size + traded_volume(s.drop_first()) }
}

/// Matches the book until the best bid is below the best ask or a side is
/// empty, and returns the trades in the order they were made.
pub fn match_orders(book: &mut OrderBook) -> (r: Vec<TradeMatch>)
    requires
        old(book).wf(),
    ensures
        final(book).wf(),
        (r@, final(book).bids@, final(book).asks@) == run_matches(old(book).bids@, old(book).asks@),
        !crosses(final(book).bids@, final(book).asks@),
        total_size(old(book).bids@) - total_size(final(book).bids@) == traded_volume(r@),
        total_size(old(book).asks@) - total_size(final(book).asks@) == traded_volume(r@),
        forall|i: int| 0 <= i < r@.len() ==> (#[trigger] r@[i]).size > 0,
{
    let mut matches: Vec<TradeMatch> = Vec::new();
    let ghost b0 = book.bids@;
    let ghost a0 = book.asks@;
    while book.bids.len() > 0 && book.asks.len() > 0 && book.bids[0].price >= book.asks[0].price
        invariant
            book.wf(),
            run_matches(b0, a0) == (matches@ + run_matches(book.bids@, book.asks@).0,
                run_matches(book.bids@, book.asks@).1, run_matches(book.bids@, book.asks@).2),
            total_size(b0) - total_size(book.bids@) == traded_volume(matches@),
            total_size(a0) - total_size(book.asks@) == traded_volume(matches@),
            forall|i: int| 0 <= i < matches@.len() ==> (#[trigger] matches@[i]).size > 0,
        decreases book.bids@.len() + book.asks@.len(),
    {
        let best_bid = book.bids[0];
        let best_ask = book.asks[0];
        let size = if best_bid.size <= best_ask.size { best_bid.size } else { best_ask.size };
        let t = TradeMatch {
            maker_order_id: best_ask.id,
            taker_order_id: best_bid.id,
            price: best_ask.price,
            size,
        };
        let ghost bids_before = book.bids@;
        let ghost asks_before = book.asks@;
        let ghost matches_before = matches@;
        matches.push(t);
        if best_bid.size == size {
            book.bids.remove(0);
        } else {
            book.bids.set(0, Order { size: best_bid.size - size, ..best_bid });
        }
        if best_ask.size == size {
            book.asks.remove(0);
        } else {
            book.asks.set(0, Order { size: best_ask.size - size, ..best_ask });
        }
        proof {
            assert(book.bids@ =~= fill_front(bids_before, size));
            assert(book.asks@ =~= fill_front(asks_before, size));
            lemma_fill_front_keeps(bids_before, size, Side::Bid);
            lemma_fill_front_keeps(asks_before, size, Side::Ask);
            lemma_fill_front_disjoint(bids_before, asks_before, size);
            lemma_traded_volume_push(matches_before, t);
            assert(matches@ == matches_before.push(t));
            assert(seq![t] + run_matches(book.bids@, book.asks@).0 =~= seq![t].add(
                run_matches(book.bids@, book.asks@).0,
            ));
            assert(matches_before + (seq![t] + run_matches(book.bids@, book.asks@).0)
                =~= matches@ + run_matches(book.bids@, book.asks@).0);
        }
    }
    matches
}

/// Filling the front order keeps a side sorted, resting and free of repeated
/// ids, and takes exactly the filled amount off its total size.
proof fn lemma_fill_front_keeps(s: Seq<Order>, q: u64, side: Side)
    requires
        s.len() > 0,
        0 < q <= s[0].size,
        resting_on(s, side),
        unique_ids(s),
        side == Side::Bid ==> sorted_desc(s),
        side == Side::Ask ==> sorted_asc(s),
    ensures
        resting_on(fill_front(s, q), side),
        unique_ids(fill_front(s, q)),
        side == Side::Bid ==> sorted_desc(fill_front(s, q)),
        side == Side::Ask ==> sorted_asc(fill_front(s, q)),
        total_size(s) - total_size(fill_front(s, q)) == q,
        fill_front(s, q).len() <= s.len(),
        fill_front(s, q).len() == s.len() || fill_front(s, q).len() == s.len() - 1,
        forall|i: int| 0 <= i < fill_front(s, q).len() ==> exists|j: int| 0 <= j < s.len() && (#[trigger] fill_front(s, q)[i]).id == s[j].id,
{
    let t = fill_front(s, q);
    if s[0].size == q {
        assert(t =~= s.drop_first());
        assert forall|i: int| 0 <= i < t.len() implies exists|j: int| 0 <= j < s.len() && (#[trigger] t[i]).id == s[j].id by {
            assert(t[i] == s[i + 1]);
        }
    } else {
        assert(t.drop_first() =~= s.drop_first());
        assert forall|i: int| 0 <= i < t.len() implies exists|j: int| 0 <= j < s.len() && (#[trigger] t[i]).id == s[j].id by {
            assert(t[i].id == s[i].id);
        }
    }
}

/// Filling the front orders keeps the two sides free of shared ids.
proof fn lemma_fill_front_disjoint(b: Seq<Order>, a: Seq<Order>, q: u64)
    requires
        b.len() > 0,
        a.len() > 0,
        q <= b[0].size,
        q <= a[0].size,
        disjoint_ids(b, a),
    ensures
        disjoint_ids(fill_front(b, q), fill_front(a, q)),
{
    let tb = fill_front(b, q);
    let ta = fill_front(a, q);
    assert forall|i: int, j: int| 0 <= i < tb.len() && 0 <= j < ta.len() implies tb[i].id != ta[j].id by {
        let bi = if b[0].size == q { i + 1 } else { i };
        let aj = if a[0].size == q { j + 1 } else { j };
        assert(tb[i].id == b[bi].id);
        assert(ta[j].id == a[aj].id);
    }
}

proof fn lemma_traded_volume_push(s: Seq<TradeMatch>, t: TradeMatch)
    ensures
        traded_volume(s.push(t)) == traded_volume(s) + t.size,
    decreases s.len(),
{
    if s.len() > 0 {
        lemma_traded_volume_push(s.drop_first(), t);
        assert(s.push(t).drop_first() =~= s.drop_first().push(t));
        assert(s.push(t)[0] == s[0]);
    } else {
        assert(s.push(t).drop_first() =~= Seq::<TradeMatch>::empty());
        assert(traded_volume(Seq::<TradeMatch>::empty()) == 0);
        assert(s.push(t)[0] == t);
    }
}

} // verus!
