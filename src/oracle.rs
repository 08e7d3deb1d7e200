//! Latest price of each asset, one entry per asset, overwritten on update.
use vstd::prelude::*;

use crate::same_key;

verus! {

/// A price in the registry's shape: `price * 10^exponent`, with a confidence width.
#[derive(Clone, Copy, Debug, PartialEq, Eq, Structural)]
pub struct OraclePrice {
    pub price: u64,
    pub conf: u64,
    pub exponent: i32,
    pub timestamp: i64,
}

/// A price as the feed publishes it.
#[derive(Clone, Copy, Debug, PartialEq, Eq, Structural)]
pub struct LinkOraclePrice {
    pub price: u64,
    pub conf: u64,
    pub expo: i32,
    pub publish_time: i64,
}

/// A feed price in the registry's shape, field for field.
pub open spec fn normalized(p: LinkOraclePrice) -> OraclePrice {
    OraclePrice { price: p.price, conf: p.conf, exponent: p.expo, timestamp: p.publish_time }
}

impl From<LinkOraclePrice> for OraclePrice {
    fn from(p: LinkOraclePrice) -> (r: Self) {
        OraclePrice { price: p.price, conf: p.conf, exponent: p.expo, timestamp: p.publish_time }
    }
}

impl vstd::std_specs::convert::FromSpecImpl<LinkOraclePrice> for OraclePrice {
    open spec fn obeys_from_spec() -> bool {
        true
    }

    open spec fn from_spec(p: LinkOraclePrice) -> Self {
        normalized(p)
    }
}

/// Current prices, keyed by the bytes of each asset's key.
pub struct Oracle {
    pub prices: Vec<([u8; 32], OraclePrice)>,
}

impl Oracle {
    /// No asset has two entries.
    pub open spec fn wf(&self) -> bool {
        forall|i: int, j: int|
            0 <= i < self.prices@.len() && 0 <= j < self.prices@.len() && i != j
                ==> self.prices@[i].0@ != self.prices@[j].0@
    }

    pub open spec fn has_asset(&self, asset: Seq<u8>) -> bool {
        exists|i: int| 0 <= i < self.prices@.len() && self.prices@[i].0@ == asset
    }

    /// The registry holds `p` as the price of `asset`.
    pub open spec fn has_entry(&self, asset: Seq<u8>, p: OraclePrice) -> bool {
        exists|i: int|
            0 <= i < self.prices@.len() && self.prices@[i].0@ == asset && self.prices@[i].1 == p
    }

    /// `new` is `old` with `p` as the price of `asset` and every other asset's
    /// price as it was.
    pub open spec fn updated(old: Oracle, new: Oracle, asset: Seq<u8>, p: OraclePrice) -> bool {
        &&& new.wf()
        &&& new.has_entry(asset, p)
        &&& forall|k: Seq<u8>, q: OraclePrice|
            k != asset ==> (new.has_entry(k, q) <==> old.has_entry(k, q))
    }

    pub fn new() -> (r: Self)
        ensures
            r.wf(),
            r.prices@.len() == 0,
    {
        Oracle { prices: Vec::new() }
    }

    /// Stores `price` as the current price of `asset`, replacing any earlier one.
    pub fn update_price(&mut self, asset: [u8; 32], price: LinkOraclePrice)
        requires
            old(self).wf(),
        ensures
            Oracle::updated(*old(self), *final(self), asset@, normalized(price)),
    {
        let p = OraclePrice::from(price);
        let ghost before = self.prices@;
        let mut i: usize = 0;
        while i < self.prices.len()
            invariant
                i <= self.prices@.len(),
                self.prices@ == before,
                before == old(self).prices@,
                old(self).wf(),
                p == normalized(price),
                forall|j: int| 0 <= j < i ==> self.prices@[j].0@ != asset@,
            decreases self.prices@.len() - i,
        {
            if same_key(&self.prices[i].0, &asset) {
                self.prices.set(i, (asset, p));
                proof {
                    let now = self.prices@;
                    assert(now[i as int].0@ == asset@);
                    assert(now[i as int].1 == p);
                    assert(forall|j: int| 0 <= j < now.len() ==> now[j].0@ == before[j].0@);
                    assert(self.has_entry(asset@, p));
                    assert forall|a: int, b: int|
                        0 <= a < now.len() && 0 <= b < now.len() && a != b implies now[a].0@
                        != now[b].0@ by {
                        assert(now[a].0@ == before[a].0@);
                        assert(now[b].0@ == before[b].0@);
                    }
                    assert forall|k: Seq<u8>, q: OraclePrice| k != asset@ implies (
                    self.has_entry(k, q) <==> old(self).has_entry(k, q)) by {
                        if self.has_entry(k, q) {
                            let j = choose|j: int| 0 <= j < now.len() && now[j].0@ == k && now[j].1 == q;
                            assert(before[j] == now[j]);
                        }
                        if old(self).has_entry(k, q) {
                            let j = choose|j: int|
                                0 <= j < before.len() && before[j].0@ == k && before[j].1 == q;
                            assert(before[j] == now[j]);
                        }
                    }
                }
                return;
            }
            i = i + 1;
        }
        self.prices.push((asset, p));
        proof {
            let now = self.prices@;
            assert(now[before.len() as int] == (asset, p));
            assert forall|k: Seq<u8>, q: OraclePrice| k != asset@ implies (self.has_entry(k, q)
                <==> old(self).has_entry(k, q)) by {
                if self.has_entry(k, q) {
                    let j = choose|j: int| 0 <= j < now.len() && now[j].0@ == k && now[j].1 == q;
                    assert(before[j] == now[j]);
                }
                if old(self).has_entry(k, q) {
                    let j = choose|j: int| 0 <= j < before.len() && before[j].0@ == k && before[j].1 == q;
                    assert(before[j] == now[j]);
                }
            }
        }
    }

    /// The current price of `asset`, or `None` if it was never updated.
    pub fn get(&self, asset: &[u8; 32]) -> (r: Option<OraclePrice>)
        requires
            self.wf(),
        ensures
            r.is_none() <==> !self.has_asset(asset@),
            r.is_some() ==> self.has_entry(asset@, r.unwrap()),
    {
        let mut i: usize = 0;
        while i < self.prices.len()
            invariant
                i <= self.prices@.len(),
                forall|j: int| 0 <= j < i ==> self.prices@[j].0@ != asset@,
            decreases self.prices@.len() - i,
        {
            if same_key(&self.prices[i].0, asset) {
                return Some(self.prices[i].1);
            }
            i = i + 1;
        }
        None
    }
}

/// After two updates of one asset the registry holds only the second price
/// for it, in exactly one entry.
pub proof fn lemma_oracle_overwrite(
    o0: Oracle,
    o1: Oracle,
    o2: Oracle,
    asset: Seq<u8>,
    p1: OraclePrice,
    p2: OraclePrice,
)
    requires
        o0.wf(),
        Oracle::updated(o0, o1, asset, p1),
        Oracle::updated(o1, o2, asset, p2),
    ensures
        forall|q: OraclePrice| o2.has_entry(asset, q) <==> q == p2,
        exists|i: int|
            0 <= i < o2.prices@.len() && o2.prices@[i].0@ == asset && forall|j: int|
                0 <= j < o2.prices@.len() && o2.prices@[j].0@ == asset ==> j == i,
{
    let i = choose|i: int|
        0 <= i < o2.prices@.len() && o2.prices@[i].0@ == asset && o2.prices@[i].1 == p2;
    assert forall|q: OraclePrice| o2.has_entry(asset, q) implies q == p2 by {
        let j = choose|j: int|
            0 <= j < o2.prices@.len() && o2.prices@[j].0@ == asset && o2.prices@[j].1 == q;
        assert(i == j);
    }
    assert(forall|j: int|
        0 <= j < o2.prices@.len() && o2.prices@[j].0@ == asset ==> j == i);
}

} // verus!
