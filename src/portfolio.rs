use crate::dec::{clamp, tdiv, Dec, SCALE};
use crate::ticker::str_eq;
use vstd::prelude::*;

verus! {

broadcast use crate::dec::lemma_dec_bounded;

/// Holdings of one asset: `amount` is free, `locked` is reserved by open orders.
#[derive(Debug)]
pub struct Asset {
    pub symbol: String,
    pub amount: Dec,
    pub locked: Dec,
    pub value: Option<Dec>,
}

impl Clone for Asset {
    fn clone(&self) -> (r: Asset)
        ensures
            r == *self,
    {
        Asset { symbol: self.symbol.clone(), amount: self.amount, locked: self.locked, value: self.value }
    }
}

/// Assets by symbol, each symbol held once, with the total valuation.
#[derive(Debug)]
pub struct Portfolio {
    pub assets: Vec<Asset>,
    pub value: Option<Dec>,
}

/// Index of the asset with this symbol (the last one, should there be several), or -1.
pub open spec fn asset_index(s: Seq<Asset>, sym: Seq<char>) -> int
    decreases s.len(),
{
    if s.len() == 0 {
        -1
    } else if s.last().symbol@ == sym {
        s.len() - 1
    } else {
        asset_index(s.drop_last(), sym)
    }
}

pub open spec fn unique_symbols(s: Seq<Asset>) -> bool {
    forall|i: int, j: int|
        0 <= i < s.len() && 0 <= j < s.len() && i != j ==> #[trigger] s[i].symbol@ != #[trigger] s[j].symbol@
}

/// Sum of the valuations that are known, added in order.
pub open spec fn values_total(s: Seq<Asset>) -> int
    decreases s.len(),
{
    if s.len() == 0 {
        0
    } else {
        match s.last().value {
            Some(v) => clamp(values_total(s.drop_last()) + v@),
            None => values_total(s.drop_last()),
        }
    }
}

/// The entries of `n` are those of `o`, but at index `k`.
pub open spec fn others_unchanged(o: Seq<Asset>, n: Seq<Asset>, k: int) -> bool {
    &&& n.len() == o.len()
    &&& forall|j: int| 0 <= j < o.len() && j != k ==> #[trigger] n[j] == o[j]
}

/// Valuation of `units` units at `price`.
pub open spec fn valuation(units: int, price: int) -> int {
    clamp(tdiv(units * price, SCALE as int))
}

pub proof fn lemma_asset_index(s: Seq<Asset>, sym: Seq<char>)
    ensures
        -1 <= asset_index(s, sym) < s.len(),
        asset_index(s, sym) >= 0 ==> s[asset_index(s, sym)].symbol@ == sym,
        asset_index(s, sym) == -1 ==> forall|j: int| 0 <= j < s.len() ==> #[trigger] s[j].symbol@ != sym,
    decreases s.len(),
{
    if s.len() > 0 {
        lemma_asset_index(s.drop_last(), sym);
        if s.last().symbol@ != sym {
            assert forall|j: int| 0 <= j < s.len() - 1 implies #[trigger] s[j] == s.drop_last()[j] by {}
        }
    }
}


/// Free and locked amount of each symbol (the last entry wins, should a symbol repeat).
pub open spec fn balances(s: Seq<Asset>) -> Map<Seq<char>, (int, int)>
    decreases s.len(),
{
    if s.len() == 0 {
        Map::empty()
    } else {
        balances(s.drop_last()).insert(s.last().symbol@, (s.last().amount@, s.last().locked@))
    }
}

/// Adds `delta` to the free amount of a symbol (a new symbol holds just `delta`).
pub open spec fn credit_free(m: Map<Seq<char>, (int, int)>, sym: Seq<char>, delta: int) -> Map<
    Seq<char>,
    (int, int),
> {
    if m.contains_key(sym) {
        m.insert(sym, (clamp(m[sym].0 + delta), m[sym].1))
    } else {
        m.insert(sym, (delta, 0))
    }
}

/// Adds `delta` to the locked amount of a symbol (a new symbol holds just `delta` locked).
pub open spec fn credit_locked(m: Map<Seq<char>, (int, int)>, sym: Seq<char>, delta: int) -> Map<
    Seq<char>,
    (int, int),
> {
    if m.contains_key(sym) {
        m.insert(sym, (m[sym].0, clamp(m[sym].1 + delta)))
    } else {
        m.insert(sym, (0, delta))
    }
}

pub proof fn lemma_balances_dom(s: Seq<Asset>, sym: Seq<char>)
    ensures
        balances(s).contains_key(sym) <==> asset_index(s, sym) >= 0,
        asset_index(s, sym) >= 0 ==> balances(s)[sym] == (
            s[asset_index(s, sym)].amount@,
            s[asset_index(s, sym)].locked@,
        ),
    decreases s.len(),
{
    if s.len() > 0 {
        lemma_balances_dom(s.drop_last(), sym);
        if s.last().symbol@ != sym {
            lemma_asset_index(s.drop_last(), sym);
        }
    }
}

/// Replacing the entry at `k` by one of the same symbol changes only that symbol.
pub proof fn lemma_balances_set(s: Seq<Asset>, k: int, a: Asset)
    requires
        unique_symbols(s),
        0 <= k < s.len(),
        s[k].symbol@ == a.symbol@,
    ensures
        balances(s.update(k, a)) == balances(s).insert(a.symbol@, (a.amount@, a.locked@)),
    decreases s.len(),
{
    let n = s.update(k, a);
    if k == s.len() - 1 {
        assert(n.drop_last() =~= s.drop_last());
        lemma_balances_absent(s.drop_last(), a.symbol@);
        assert(balances(s.drop_last()).insert(a.symbol@, (a.amount@, a.locked@)) =~= balances(
            s.drop_last(),
        ).insert(s.last().symbol@, (s.last().amount@, s.last().locked@)).insert(
            a.symbol@,
            (a.amount@, a.locked@),
        ));
    } else {
        let d = s.drop_last();
        assert(n.drop_last() =~= d.update(k, a));
        assert(unique_symbols(d)) by {
            assert forall|i: int, j: int|
                0 <= i < d.len() && 0 <= j < d.len() && i != j implies #[trigger] d[i].symbol@
                != #[trigger] d[j].symbol@ by {
                assert(s[i].symbol@ != s[j].symbol@);
            }
        }
        lemma_balances_set(d, k, a);
        assert(s.last().symbol@ != a.symbol@) by {
            assert(s[s.len() - 1].symbol@ != s[k].symbol@);
        }
        assert(balances(n) =~= balances(s).insert(a.symbol@, (a.amount@, a.locked@)));
    }
}

proof fn lemma_balances_absent(s: Seq<Asset>, sym: Seq<char>)
    requires
        forall|j: int| 0 <= j < s.len() ==> #[trigger] s[j].symbol@ != sym,
    ensures
        !balances(s).contains_key(sym),
    decreases s.len(),
{
    if s.len() > 0 {
        assert forall|j: int| 0 <= j < s.drop_last().len() implies #[trigger] s.drop_last()[j].symbol@
            != sym by {
            assert(s.drop_last()[j] == s[j]);
        }
        lemma_balances_absent(s.drop_last(), sym);
    }
}

/// Sequences whose entries agree on symbols and amounts have the same balances.
pub proof fn lemma_balances_same_amounts(a: Seq<Asset>, b: Seq<Asset>)
    requires
        a.len() == b.len(),
        forall|i: int|
            0 <= i < a.len() ==> (#[trigger] a[i]).symbol == b[i].symbol && a[i].amount == b[i].amount
                && a[i].locked == b[i].locked,
    ensures
        balances(a) == balances(b),
    decreases a.len(),
{
    if a.len() > 0 {
        lemma_balances_same_amounts(a.drop_last(), b.drop_last());
    }
}

impl Portfolio {
    pub open spec fn wf(self) -> bool {
        unique_symbols(self.assets@)
    }

    /// Index of the asset with this symbol, or -1.
    pub open spec fn index_of(self, sym: Seq<char>) -> int {
        asset_index(self.assets@, sym)
    }

    pub fn new() -> (r: Portfolio)
        ensures
            r.assets@.len() == 0,
            r.value is None,
            r.wf(),
    {
        Portfolio { assets: Vec::new(), value: None }
    }

    /// Position of the asset with this symbol.
    pub fn find(&self, symbol: &str) -> (r: Option<usize>)
        ensures
            match r {
                Some(i) => i == self.index_of(symbol@) && i < self.assets@.len()
                    && self.assets@[i as int].symbol@ == symbol@,
                None => self.index_of(symbol@) == -1,
            },
    {
        let mut found: Option<usize> = None;
        let mut i: usize = 0;
        while i < self.assets.len()
            invariant
                i <= self.assets@.len(),
                match found {
                    Some(k) => k == asset_index(self.assets@.subrange(0, i as int), symbol@),
                    None => asset_index(self.assets@.subrange(0, i as int), symbol@) == -1,
                },
            decreases self.assets@.len() - i,
        {
            proof {
                assert(self.assets@.subrange(0, i + 1).drop_last() =~= self.assets@.subrange(0, i as int));
            }
            proof {
                lemma_asset_index(self.assets@.subrange(0, i as int), symbol@);
            }
            if str_eq(self.assets[i].symbol.as_str(), symbol) {
                found = Some(i);
            }
            i = i + 1;
        }
        proof {
            assert(self.assets@.subrange(0, i as int) =~= self.assets@);
            lemma_asset_index(self.assets@, symbol@);
        }
        found
    }

    /// Free amount of an asset: zero for one that is not held.
    pub fn free_amount(&self, symbol: &str) -> (r: Dec)
        ensures
            self.index_of(symbol@) >= 0 ==> r == self.assets@[self.index_of(symbol@)].amount,
            self.index_of(symbol@) < 0 ==> r@ == 0,
    {
        proof {
            lemma_asset_index(self.assets@, symbol@);
        }
        match self.find(symbol) {
            Some(i) => self.assets[i].amount,
            None => Dec::zero(),
        }
    }

    /// Revalues an asset at `price` and recomputes the total.
    pub fn update_asset_value(&mut self, symbol: &str, price: Dec)
        ensures
            old(self).index_of(symbol@) == -1 ==> *final(self) == *old(self),
            old(self).index_of(symbol@) >= 0 ==> {
                let k = old(self).index_of(symbol@);
                let a = old(self).assets@[k];
                &&& others_unchanged(old(self).assets@, final(self).assets@, k)
                &&& final(self).assets@[k].symbol == a.symbol
                &&& final(self).assets@[k].amount == a.amount
                &&& final(self).assets@[k].locked == a.locked
                &&& final(self).assets@[k].value is Some
                &&& final(self).assets@[k].value->Some_0@ == valuation(
                    clamp(a.locked@ + a.amount@),
                    price@,
                )
                &&& final(self).value is Some
                &&& final(self).value->Some_0@ == values_total(final(self).assets@)
            },
            old(self).wf() ==> final(self).wf(),
    {
        if let Some(i) = self.find(symbol) {
            let a = self.assets[i].clone();
            let v = a.locked.add(a.amount).mul(price);
            let na = Asset { symbol: a.symbol, amount: a.amount, locked: a.locked, value: Some(v) };
            self.assets.set(i, na);
            proof {
                assert forall|x: int, y: int|
                    0 <= x < self.assets@.len() && 0 <= y < self.assets@.len() && x != y implies
                    #[trigger] self.assets@[x].symbol@ != #[trigger] self.assets@[y].symbol@ || !old(self).wf() by {
                    if old(self).wf() {
                        assert(old(self).assets@[x].symbol@ != old(self).assets@[y].symbol@);
                    }
                }
            }
            self.update_value();
        }
    }

    /// Whether at least `required_amount` of the asset is free.
    pub fn check_funds(&self, asset: &str, required_amount: Dec) -> (r: bool)
        ensures
            r == (self.index_of(asset@) >= 0 && self.assets@[self.index_of(asset@)].amount@
                >= required_amount@),
    {
        match self.find(asset) {
            Some(i) => self.assets[i].amount.ge(&required_amount),
            None => false,
        }
    }

    /// Moves `amount` of an asset from free to locked. Fails, changing nothing, when the
    /// asset is not held or less than `amount` of it is free.
    pub fn reserve_funds(&mut self, asset: &str, amount: Dec) -> (r: Result<(), String>)
        ensures
            r is Ok <==> (old(self).index_of(asset@) >= 0 && old(self).assets@[old(
                self,
            ).index_of(asset@)].amount@ >= amount@),
            r is Err ==> *final(self) == *old(self),
            r is Ok ==> {
                let k = old(self).index_of(asset@);
                let a = old(self).assets@[k];
                &&& others_unchanged(old(self).assets@, final(self).assets@, k)
                &&& final(self).assets@[k].symbol == a.symbol
                &&& final(self).assets@[k].value == a.value
                &&& final(self).assets@[k].amount@ == clamp(a.amount@ - amount@)
                &&& final(self).assets@[k].locked@ == clamp(a.locked@ + amount@)
                &&& final(self).value == old(self).value
            },
            old(self).wf() ==> final(self).wf(),
    {
        match self.find(asset) {
            Some(i) => {
                let a = self.assets[i].clone();
                if a.amount.lt(&amount) {
                    return Err(String::from_str("Missing funds"));
                }
                proof {
                    crate::dec::lemma_dec_bounded(amount);
                }
                let na = Asset {
                    symbol: a.symbol,
                    amount: a.amount.sub(amount),
                    locked: a.locked.add(amount),
                    value: a.value,
                };
                self.assets.set(i, na);
                proof {
                    assert forall|x: int, y: int|
                        0 <= x < self.assets@.len() && 0 <= y < self.assets@.len() && x != y
                            && old(self).wf() implies #[trigger] self.assets@[x].symbol@
                        != #[trigger] self.assets@[y].symbol@ by {
                        assert(old(self).assets@[x].symbol@ != old(self).assets@[y].symbol@);
                    }
                }
                Ok(())
            },
            None => Err(String::from_str("Asset not in portfolio")),
        }
    }

    /// Moves `amount` of an asset back from locked to free; fails, changing nothing, when
    /// the asset is not held.
    pub fn release_funds(&mut self, asset: &str, amount: Dec) -> (r: Result<(), String>)
        ensures
            r is Ok <==> old(self).index_of(asset@) >= 0,
            r is Err ==> *final(self) == *old(self),
            final(self).value == old(self).value,
            old(self).wf() ==> final(self).wf(),
            old(self).wf() && r is Ok ==> balances(final(self).assets@) == balances(
                old(self).assets@,
            ).insert(
                asset@,
                (
                    clamp(balances(old(self).assets@)[asset@].0 + amount@),
                    clamp(balances(old(self).assets@)[asset@].1 - amount@),
                ),
            ),
    {
        proof {
            lemma_balances_dom(self.assets@, asset@);
            lemma_asset_index(self.assets@, asset@);
        }
        match self.find(asset) {
            Some(i) => {
                let a = self.assets[i].clone();
                let na = Asset {
                    symbol: a.symbol,
                    amount: a.amount.add(amount),
                    locked: a.locked.sub(amount),
                    value: a.value,
                };
                self.assets.set(i, na);
                proof {
                    if old(self).wf() {
                        lemma_balances_set(old(self).assets@, i as int, na);
                        assert forall|x: int, y: int|
                            0 <= x < self.assets@.len() && 0 <= y < self.assets@.len() && x != y
                                implies #[trigger] self.assets@[x].symbol@
                            != #[trigger] self.assets@[y].symbol@ by {
                            assert(old(self).assets@[x].symbol@ != old(self).assets@[y].symbol@);
                        }
                    }
                }
                Ok(())
            },
            None => Err(String::from_str("Asset not in portfolio")),
        }
    }

    /// Puts an asset in place of the one with the same symbol, or adds it.
    pub fn update_asset(&mut self, asset: Asset)
        ensures
            old(self).index_of(asset.symbol@) >= 0 ==> final(self).assets@ == old(
                self,
            ).assets@.update(old(self).index_of(asset.symbol@), asset),
            old(self).index_of(asset.symbol@) == -1 ==> final(self).assets@ == old(
                self,
            ).assets@.push(asset),
            final(self).value == old(self).value,
            old(self).wf() ==> final(self).wf(),
    {
        proof {
            lemma_asset_index(self.assets@, asset.symbol@);
        }
        match self.find(asset.symbol.as_str()) {
            Some(i) => {
                self.assets.set(i, asset);
            },
            None => {
                self.assets.push(asset);
            },
        }
        proof {
            assert forall|x: int, y: int|
                0 <= x < self.assets@.len() && 0 <= y < self.assets@.len() && x != y && old(
                    self,
                ).wf() implies #[trigger] self.assets@[x].symbol@ != #[trigger] self.assets@[y].symbol@ by {
                if x < old(self).assets@.len() && y < old(self).assets@.len() {
                    assert(old(self).assets@[x].symbol@ != old(self).assets@[y].symbol@ || x
                        == old(self).index_of(asset.symbol@) || y == old(self).index_of(asset.symbol@));
                }
            }
        }
    }

    /// Adds `delta` to the free amount of an asset (a new asset holds just `delta`),
    /// revalues it at `current_price` and recomputes the total.
    pub fn update_asset_amount(&mut self, symbol: &str, delta: Dec, current_price: Dec)
        ensures
            old(self).wf() ==> balances(final(self).assets@) == credit_free(
                balances(old(self).assets@),
                symbol@,
                delta@,
            ),
            old(self).index_of(symbol@) >= 0 ==> {
                let k = old(self).index_of(symbol@);
                let a = old(self).assets@[k];
                &&& others_unchanged(old(self).assets@, final(self).assets@, k)
                &&& final(self).assets@[k].symbol == a.symbol
                &&& final(self).assets@[k].locked == a.locked
                &&& final(self).assets@[k].amount@ == clamp(a.amount@ + delta@)
                &&& final(self).assets@[k].value is Some
                &&& final(self).assets@[k].value->Some_0@ == valuation(
                    clamp(final(self).assets@[k].amount@ + a.locked@),
                    current_price@,
                )
            },
            old(self).index_of(symbol@) == -1 ==> {
                let n = old(self).assets@.len() as int;
                &&& final(self).assets@.len() == n + 1
                &&& final(self).assets@.subrange(0, n) == old(self).assets@
                &&& final(self).assets@[n].symbol@ == symbol@
                &&& final(self).assets@[n].amount == delta
                &&& final(self).assets@[n].locked@ == 0
                &&& final(self).assets@[n].value is Some
                &&& final(self).assets@[n].value->Some_0@ == valuation(delta@, current_price@)
            },
            final(self).value is Some,
            final(self).value->Some_0@ == values_total(final(self).assets@),
            old(self).wf() ==> final(self).wf(),
    {
        proof {
            lemma_balances_dom(self.assets@, symbol@);
            lemma_asset_index(self.assets@, symbol@);
        }
        self.change_asset(symbol, delta, false, current_price);
        proof {
            let k = old(self).index_of(symbol@);
            if old(self).wf() {
                if k >= 0 {
                    assert(self.assets@ =~= old(self).assets@.update(k, self.assets@[k]));
                    lemma_balances_set(old(self).assets@, k, self.assets@[k]);
                } else {
                    let n = old(self).assets@.len() as int;
                    assert(self.assets@ =~= old(self).assets@.push(self.assets@[n]));
                    assert(self.assets@.drop_last() =~= old(self).assets@);
                }
            }
        }
    }

    /// Adds `delta` to the locked amount of an asset (a new asset holds `delta` locked),
    /// revalues it at `current_price` and recomputes the total.
    pub fn update_asset_locked(&mut self, symbol: &str, delta: Dec, current_price: Dec)
        ensures
            old(self).wf() ==> balances(final(self).assets@) == credit_locked(
                balances(old(self).assets@),
                symbol@,
                delta@,
            ),
            old(self).wf() ==> final(self).wf(),
    {
        proof {
            lemma_balances_dom(self.assets@, symbol@);
            lemma_asset_index(self.assets@, symbol@);
        }
        match self.find(symbol) {
            Some(i) => {
                let a = self.assets[i].clone();
                let locked = a.locked.add(delta);
                let v = a.amount.add(locked).mul(current_price);
                let na = Asset { symbol: a.symbol, amount: a.amount, locked, value: Some(v) };
                self.assets.set(i, na);
                proof {
                    if old(self).wf() {
                        lemma_balances_set(old(self).assets@, i as int, na);
                        assert forall|x: int, y: int|
                            0 <= x < self.assets@.len() && 0 <= y < self.assets@.len() && x != y
                                implies #[trigger] self.assets@[x].symbol@
                            != #[trigger] self.assets@[y].symbol@ by {
                            assert(old(self).assets@[x].symbol@ != old(self).assets@[y].symbol@);
                        }
                    }
                }
            },
            None => {
                let na = Asset {
                    symbol: String::from_str(symbol),
                    amount: Dec::zero(),
                    locked: delta,
                    value: Some(delta.mul(current_price)),
                };
                self.assets.push(na);
                proof {
                    assert(self.assets@.drop_last() =~= old(self).assets@);
                    assert forall|x: int, y: int|
                        0 <= x < self.assets@.len() && 0 <= y < self.assets@.len() && x != y
                            && old(self).wf() implies #[trigger] self.assets@[x].symbol@
                        != #[trigger] self.assets@[y].symbol@ by {
                        if x < old(self).assets@.len() && y < old(self).assets@.len() {
                            assert(old(self).assets@[x].symbol@ != old(self).assets@[y].symbol@);
                        }
                    }
                }
            },
        }
        self.update_value();
    }

    /// Takes `drain` from the locked amount of an asset (a new asset holds `-drain`
    /// free), revalues it at `current_price` and recomputes the total.
    pub fn drain_asset_locked(&mut self, symbol: &str, drain: Dec, current_price: Dec)
        ensures
            old(self).index_of(symbol@) >= 0 ==> {
                let k = old(self).index_of(symbol@);
                let a = old(self).assets@[k];
                &&& others_unchanged(old(self).assets@, final(self).assets@, k)
                &&& final(self).assets@[k].symbol == a.symbol
                &&& final(self).assets@[k].amount == a.amount
                &&& final(self).assets@[k].locked@ == clamp(a.locked@ - drain@)
                &&& final(self).assets@[k].value is Some
                &&& final(self).assets@[k].value->Some_0@ == valuation(
                    clamp(a.amount@ + final(self).assets@[k].locked@),
                    current_price@,
                )
            },
            old(self).index_of(symbol@) == -1 ==> {
                let n = old(self).assets@.len() as int;
                &&& final(self).assets@.len() == n + 1
                &&& final(self).assets@.subrange(0, n) == old(self).assets@
                &&& final(self).assets@[n].symbol@ == symbol@
                &&& final(self).assets@[n].amount@ == -drain@
                &&& final(self).assets@[n].locked@ == 0
                &&& final(self).assets@[n].value is Some
                &&& final(self).assets@[n].value->Some_0@ == valuation(-drain@, current_price@)
            },
            final(self).value is Some,
            final(self).value->Some_0@ == values_total(final(self).assets@),
            old(self).wf() ==> final(self).wf(),
    {
        let neg = drain.neg();
        self.change_asset(symbol, neg, true, current_price)
    }

    fn change_asset(&mut self, symbol: &str, delta: Dec, on_locked: bool, current_price: Dec)
        ensures
            old(self).index_of(symbol@) >= 0 ==> {
                let k = old(self).index_of(symbol@);
                let a = old(self).assets@[k];
                &&& others_unchanged(old(self).assets@, final(self).assets@, k)
                &&& final(self).assets@[k].symbol == a.symbol
                &&& !on_locked ==> final(self).assets@[k].locked == a.locked
                &&& !on_locked ==> final(self).assets@[k].amount@ == clamp(a.amount@ + delta@)
                &&& on_locked ==> final(self).assets@[k].amount == a.amount
                &&& on_locked ==> final(self).assets@[k].locked@ == clamp(a.locked@ + delta@)
                &&& final(self).assets@[k].value is Some
                &&& final(self).assets@[k].value->Some_0@ == valuation(
                    clamp(final(self).assets@[k].amount@ + final(self).assets@[k].locked@),
                    current_price@,
                )
            },
            old(self).index_of(symbol@) == -1 ==> {
                let n = old(self).assets@.len() as int;
                &&& final(self).assets@.len() == n + 1
                &&& final(self).assets@.subrange(0, n) == old(self).assets@
                &&& final(self).assets@[n].symbol@ == symbol@
                &&& final(self).assets@[n].amount == delta
                &&& final(self).assets@[n].locked@ == 0
                &&& final(self).assets@[n].value is Some
                &&& final(self).assets@[n].value->Some_0@ == valuation(delta@, current_price@)
            },
            final(self).value is Some,
            final(self).value->Some_0@ == values_total(final(self).assets@),
            old(self).wf() ==> final(self).wf(),
    {
        proof {
            lemma_asset_index(self.assets@, symbol@);
        }
        match self.find(symbol) {
            Some(i) => {
                let a = self.assets[i].clone();
                let (amount, locked) = if on_locked {
                    (a.amount, a.locked.add(delta))
                } else {
                    (a.amount.add(delta), a.locked)
                };
                let v = amount.add(locked).mul(current_price);
                let na = Asset { symbol: a.symbol, amount, locked, value: Some(v) };
                self.assets.set(i, na);
            },
            None => {
                let na = Asset {
                    symbol: String::from_str(symbol),
                    amount: delta,
                    locked: Dec::zero(),
                    value: Some(delta.mul(current_price)),
                };
                self.assets.push(na);
                proof {
                    assert(self.assets@.subrange(0, old(self).assets@.len() as int) =~= old(self).assets@);
                }
            },
        }
        proof {
            assert forall|x: int, y: int|
                0 <= x < self.assets@.len() && 0 <= y < self.assets@.len() && x != y && old(
                    self,
                ).wf() implies #[trigger] self.assets@[x].symbol@ != #[trigger] self.assets@[y].symbol@ by {
                if x < old(self).assets@.len() && y < old(self).assets@.len() {
                    assert(old(self).assets@[x].symbol@ != old(self).assets@[y].symbol@);
                    assert(x != old(self).index_of(symbol@) ==> self.assets@[x] == old(self).assets@[x]);
                    assert(y != old(self).index_of(symbol@) ==> self.assets@[y] == old(self).assets@[y]);
                }
            }
        }
        self.update_value();
    }

    /// Sets the total valuation to the sum of the known asset valuations.
    pub fn update_value(&mut self)
        ensures
            final(self).assets == old(self).assets,
            final(self).value is Some,
            final(self).value->Some_0@ == values_total(final(self).assets@),
    {
        let mut total = Dec::zero();
        let mut i: usize = 0;
        while i < self.assets.len()
            invariant
                i <= self.assets@.len(),
                total@ == values_total(self.assets@.subrange(0, i as int)),
            decreases self.assets@.len() - i,
        {
            proof {
                assert(self.assets@.subrange(0, i + 1).drop_last() =~= self.assets@.subrange(0, i as int));
            }
            if let Some(v) = self.assets[i].value {
                total = total.add(v);
            }
            i = i + 1;
        }
        proof {
            assert(self.assets@.subrange(0, i as int) =~= self.assets@);
        }
        self.value = Some(total);
    }
}

} // verus!
