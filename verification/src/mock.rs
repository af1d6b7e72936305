use vstd::prelude::*;

use crate::address::Address;
use crate::keyed_map::KeyedMap;

verus! {

/// A stand-in for a reference oracle: it answers, for each asset, the last
/// price set for it, and 0 for an asset it has no price for.
pub struct MockReferenceOracle {
    prices: KeyedMap<Address, i128>,
}

impl View for MockReferenceOracle {
    type V = Map<Seq<char>, i128>;

    closed spec fn view(&self) -> Map<Seq<char>, i128> {
        self.prices@
    }
}

impl MockReferenceOracle {
    /// An oracle with no prices.
    pub fn new() -> (o: Self)
        ensures
            o@ == Map::<Seq<char>, i128>::empty(),
    {
        MockReferenceOracle { prices: KeyedMap::new() }
    }

    /// Sets the price of `asset`.
    pub fn set_price(&mut self, asset: Address, price: i128)
        ensures
            final(self)@ == old(self)@.insert(asset@, price),
    {
        self.prices.insert(asset, price);
    }

    /// The last price set for `asset`, or 0.
    pub fn lastprice(&self, asset: &Address) -> (p: i128)
        ensures
            p == if self@.contains_key(asset@) {
                self@[asset@]
            } else {
                0
            },
    {
        match self.prices.get(asset) {
            Some(p) => *p,
            None => 0,
        }
    }
}

} // verus!
