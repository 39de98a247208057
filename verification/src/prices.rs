//! Price observations and the as-of price lookup.
//!
//! A price observation records that one asset traded at one price on one
//! calendar day. Valuing an asset "as of" a date means taking the latest
//! observation on or before that date; an asset with no observation yet is
//! deliberately valued at zero, which keeps every valuation total.

use vstd::prelude::*;

use crate::assets::{
    bond_registration, bond_registration_id, etf_registration, etf_registration_id,
    register_etf_asset, register_treasury_bond_asset, AssetStore,
};
use crate::MAX_PRICE;

verus! {

/// One recorded (asset, day, price) fact.
#[derive(Clone, Copy, PartialEq, Eq, Structural, Debug)]
pub struct PriceObs {
    pub asset_id: i32,
    pub date: i32,
    pub price: i64,
}

/// The price history: every observation recorded so far.
pub struct PriceStore {
    pub list: Vec<PriceObs>,
}

/// The latest observation for `asset_id` on or before `date`, if any.
/// Among observations of equal date the earliest-recorded one is kept;
/// a well-formed store never holds two for the same asset and day.
pub open spec fn latest_obs(prices: Seq<PriceObs>, asset_id: int, date: int) -> Option<PriceObs>
    decreases prices.len(),
{
    if prices.len() == 0 {
        None
    } else {
        let rest = latest_obs(prices.drop_last(), asset_id, date);
        let o = prices.last();
        if o.asset_id == asset_id && o.date <= date {
            match rest {
                None => Some(o),
                Some(b) => if o.date > b.date {
                    Some(o)
                } else {
                    Some(b)
                },
            }
        } else {
            rest
        }
    }
}

/// The as-of price: the latest observed price on or before `date`,
/// or zero when the asset has no observation yet.
pub open spec fn price_as_of(prices: Seq<PriceObs>, asset_id: int, date: int) -> int {
    match latest_obs(prices, asset_id, date) {
        None => 0,
        Some(o) => o.price as int,
    }
}

impl PriceStore {
    /// Prices are non-negative and bounded, and no asset has two
    /// observations on the same day.
    pub open spec fn wf(self) -> bool {
        &&& forall|i: int|
            0 <= i < self.list@.len() ==> 0 <= (#[trigger] self.list@[i]).price <= MAX_PRICE
        &&& forall|i: int, j: int|
            0 <= i < j < self.list@.len() ==> !((#[trigger] self.list@[i]).asset_id
                == (#[trigger] self.list@[j]).asset_id && self.list@[i].date == self.list@[j].date)
    }

    /// A store with no observations.
    pub fn new() -> (r: PriceStore)
        ensures
            r.wf(),
            r.list@ == Seq::<PriceObs>::empty(),
    {
        PriceStore { list: Vec::new() }
    }
}

/// The latest observation, when there is one, is an element of the history
/// that matches the asset and the date bound.
pub proof fn lemma_latest_obs_in(prices: Seq<PriceObs>, asset_id: int, date: int)
    ensures
        match latest_obs(prices, asset_id, date) {
            None => true,
            Some(o) => prices.contains(o) && o.asset_id == asset_id && o.date <= date,
        },
    decreases prices.len(),
{
    if prices.len() > 0 {
        lemma_latest_obs_in(prices.drop_last(), asset_id, date);
        match latest_obs(prices.drop_last(), asset_id, date) {
            None => {},
            Some(b) => {
                let i = choose|i: int|
                    0 <= i < prices.drop_last().len() && prices.drop_last()[i] == b;
                assert(prices[i] == b);
            },
        }
        assert(prices[prices.len() - 1] == prices.last());
    }
}

/// The as-of price of one asset, by a scan over the whole history.
pub fn latest_price(prices: &PriceStore, asset_id: i32, until_date: i32) -> (r: i64)
    requires
        prices.wf(),
    ensures
        r as int == price_as_of(prices.list@, asset_id as int, until_date as int),
        0 <= r <= MAX_PRICE,
{
    let ghost s = prices.list@;
    let mut best: Option<PriceObs> = None;
    let mut i: usize = 0;
    while i < prices.list.len()
        invariant
            prices.wf(),
            s == prices.list@,
            0 <= i <= s.len(),
            best == latest_obs(s.take(i as int), asset_id as int, until_date as int),
        decreases s.len() - i,
    {
        let o = prices.list[i];
        proof {
            assert(s.take(i + 1).drop_last() =~= s.take(i as int));
            assert(s.take(i + 1).last() == s[i as int]);
        }
        if o.asset_id == asset_id && o.date <= until_date {
            match best {
                None => {
                    best = Some(o);
                },
                Some(b) => {
                    if o.date > b.date {
                        best = Some(o);
                    }
                },
            }
        }
        i = i + 1;
    }
    proof {
        assert(s.take(s.len() as int) =~= s);
        lemma_latest_obs_in(s, asset_id as int, until_date as int);
    }
    match best {
        None => 0,
        Some(b) => b.price,
    }
}

/// The as-of price of each requested asset, in request order.
pub fn latest_prices(prices: &PriceStore, asset_ids: &Vec<i32>, until_date: i32) -> (r: Vec<i64>)
    requires
        prices.wf(),
    ensures
        r@.len() == asset_ids@.len(),
        forall|j: int|
            0 <= j < r@.len() ==> (#[trigger] r@[j]) as int == price_as_of(
                prices.list@,
                asset_ids@[j] as int,
                until_date as int,
            ),
        forall|j: int| 0 <= j < r@.len() ==> 0 <= #[trigger] r@[j] <= MAX_PRICE,
{
    let mut r: Vec<i64> = Vec::new();
    let mut j: usize = 0;
    while j < asset_ids.len()
        invariant
            prices.wf(),
            0 <= j <= asset_ids@.len(),
            r@.len() == j,
            forall|k: int|
                0 <= k < j ==> (#[trigger] r@[k]) as int == price_as_of(
                    prices.list@,
                    asset_ids@[k] as int,
                    until_date as int,
                ),
            forall|k: int| 0 <= k < j ==> 0 <= #[trigger] r@[k] <= MAX_PRICE,
        decreases asset_ids@.len() - j,
    {
        let p = latest_price(prices, asset_ids[j], until_date);
        r.push(p);
        j = j + 1;
    }
    r
}

/// How many observations the history holds for one asset.
pub open spec fn count_for(prices: Seq<PriceObs>, asset_id: int) -> int
    decreases prices.len(),
{
    if prices.len() == 0 {
        0
    } else {
        count_for(prices.drop_last(), asset_id) + if prices.last().asset_id == asset_id {
            1int
        } else {
            0int
        }
    }
}

/// The history with every observation of one asset removed, order kept.
pub open spec fn without_asset(prices: Seq<PriceObs>, asset_id: int) -> Seq<PriceObs>
    decreases prices.len(),
{
    if prices.len() == 0 {
        Seq::empty()
    } else {
        let rest = without_asset(prices.drop_last(), asset_id);
        if prices.last().asset_id == asset_id {
            rest
        } else {
            rest.push(prices.last())
        }
    }
}

/// The observations that a (day, price) list becomes for one asset, in
/// input order.
pub open spec fn obs_rows(asset_id: i32, ps: Seq<(i32, i64)>) -> Seq<PriceObs>
    decreases ps.len(),
{
    if ps.len() == 0 {
        Seq::empty()
    } else {
        obs_rows(asset_id, ps.drop_last()).push(
            PriceObs { asset_id, date: ps.last().0, price: ps.last().1 },
        )
    }
}

/// What replacing one asset's price history does to the store: when the
/// new list is no longer than what is already held, nothing changes and
/// nothing counts as new; otherwise the asset's old observations give way
/// to the new list, and the growth is the count of new observations.
pub open spec fn prices_replaced(
    pre: PriceStore,
    post: PriceStore,
    asset_id: int,
    ps: Seq<(i32, i64)>,
    r: int,
) -> bool {
    if ps.len() <= count_for(pre.list@, asset_id) {
        &&& post.list@ == pre.list@
        &&& r == 0
    } else {
        &&& post.list@ == without_asset(pre.list@, asset_id) + obs_rows(asset_id as i32, ps)
        &&& r == ps.len() - count_for(pre.list@, asset_id)
    }
}

/// Replaces one asset's whole price history by a fresh list, unless the
/// fresh list brings nothing new; returns how many observations are new.
/// The incoming list must price each day at most once.
pub fn replace_asset_prices(store: &mut PriceStore, asset_id: i32, prices: Vec<(i32, i64)>) -> (r:
    usize)
    requires
        old(store).wf(),
        forall|i: int| 0 <= i < prices@.len() ==> 0 <= (#[trigger] prices@[i]).1 <= MAX_PRICE,
        forall|i: int, j: int|
            0 <= i < j < prices@.len() ==> (#[trigger] prices@[i]).0 != (#[trigger] prices@[j]).0,
    ensures
        final(store).wf(),
        prices_replaced(*old(store), *final(store), asset_id as int, prices@, r as int),
{
    let ghost s = store.list@;
    let ghost aid = asset_id as int;

    let mut prev: usize = 0;
    let mut i: usize = 0;
    while i < store.list.len()
        invariant
            s == store.list@,
            aid == asset_id as int,
            0 <= i <= s.len(),
            prev <= i,
            prev as int == count_for(s.take(i as int), aid),
        decreases s.len() - i,
    {
        proof {
            assert(s.take(i + 1).drop_last() =~= s.take(i as int));
            assert(s.take(i + 1).last() == s[i as int]);
        }
        if store.list[i].asset_id == asset_id {
            prev = prev + 1;
        }
        i = i + 1;
    }
    proof {
        assert(s.take(s.len() as int) =~= s);
    }

    if prices.len() <= prev {
        return 0;
    }

    let mut kept: Vec<PriceObs> = Vec::new();
    let ghost mut idxs: Seq<int> = Seq::empty();
    let mut i: usize = 0;
    while i < store.list.len()
        invariant
            s == store.list@,
            aid == asset_id as int,
            old(store).wf(),
            *store == *old(store),
            0 <= i <= s.len(),
            kept@ == without_asset(s.take(i as int), aid),
            idxs.len() == kept@.len(),
            forall|k: int| 0 <= k < idxs.len() ==> 0 <= #[trigger] idxs[k] < i,
            forall|p: int, q: int| 0 <= p < q < idxs.len() ==> idxs[p] < idxs[q],
            forall|k: int| 0 <= k < kept@.len() ==> #[trigger] kept@[k] == s[idxs[k]],
            forall|k: int| 0 <= k < kept@.len() ==> (#[trigger] kept@[k]).asset_id != asset_id,
        decreases s.len() - i,
    {
        proof {
            assert(s.take(i + 1).drop_last() =~= s.take(i as int));
            assert(s.take(i + 1).last() == s[i as int]);
        }
        let o = store.list[i];
        if o.asset_id != asset_id {
            kept.push(o);
            proof {
                idxs = idxs.push(i as int);
            }
        }
        i = i + 1;
    }
    proof {
        assert(s.take(s.len() as int) =~= s);
    }
    let ghost wlen = kept@.len() as int;

    let mut j: usize = 0;
    while j < prices.len()
        invariant
            s == store.list@,
            aid == asset_id as int,
            old(store).wf(),
            *store == *old(store),
            forall|i2: int|
                0 <= i2 < prices@.len() ==> 0 <= (#[trigger] prices@[i2]).1 <= MAX_PRICE,
            forall|i2: int, j2: int|
                0 <= i2 < j2 < prices@.len() ==> (#[trigger] prices@[i2]).0 != (
                #[trigger] prices@[j2]).0,
            0 <= j <= prices@.len(),
            kept@.len() == wlen + j,
            kept@.take(wlen) == without_asset(s, aid),
            kept@ == without_asset(s, aid) + obs_rows(asset_id, prices@.take(j as int)),
            idxs.len() == wlen,
            forall|k: int| 0 <= k < idxs.len() ==> 0 <= #[trigger] idxs[k] < s.len(),
            forall|p: int, q: int| 0 <= p < q < idxs.len() ==> idxs[p] < idxs[q],
            forall|k: int| 0 <= k < wlen ==> #[trigger] kept@[k] == s[idxs[k]],
            forall|k: int| 0 <= k < wlen ==> (#[trigger] kept@[k]).asset_id != asset_id,
            forall|k: int|
                wlen <= k < kept@.len() ==> (#[trigger] kept@[k]).asset_id == asset_id
                    && kept@[k].date == prices@[k - wlen].0 && kept@[k].price == prices@[k
                    - wlen].1,
        decreases prices@.len() - j,
    {
        proof {
            assert(prices@.take(j + 1).drop_last() =~= prices@.take(j as int));
            assert(prices@.take(j + 1).last() == prices@[j as int]);
        }
        let p = prices[j];
        let ghost old_kept = kept@;
        kept.push(PriceObs { asset_id, date: p.0, price: p.1 });
        proof {
            assert(kept@ =~= without_asset(s, aid) + obs_rows(asset_id, prices@.take(j + 1)));
            assert(old_kept.take(wlen) =~= kept@.take(wlen));
        }
        j = j + 1;
    }
    proof {
        assert(prices@.take(prices@.len() as int) =~= prices@);
    }

    store.list = kept;
    proof {
        let t = store.list@;
        assert forall|p: int, q: int|
            0 <= p < q < t.len() implies !((#[trigger] t[p]).asset_id == (#[trigger] t[q]).asset_id
            && t[p].date == t[q].date) by {
            if q < wlen {
                assert(t[p] == s[idxs[p]]);
                assert(t[q] == s[idxs[q]]);
                assert(idxs[p] < idxs[q]);
            } else if p < wlen {
                assert(t[p].asset_id != asset_id);
                assert(t[q].asset_id == asset_id);
            } else {
                assert(t[p].date == prices@[p - wlen].0);
                assert(t[q].date == prices@[q - wlen].0);
            }
        }
    }
    prices.len() - prev
}

/// Registers the bond identity if need be, then replaces that asset's
/// whole price history; returns how many observations are new.
pub fn register_treasury_bond_prices(
    assets: &mut AssetStore,
    store: &mut PriceStore,
    key: &String,
    maturity_date: i32,
    prices: Vec<(i32, i64)>,
) -> (r: usize)
    requires
        old(assets).wf(),
        old(assets).next_id < i32::MAX,
        old(store).wf(),
        forall|i: int| 0 <= i < prices@.len() ==> 0 <= (#[trigger] prices@[i]).1 <= MAX_PRICE,
        forall|i: int, j: int|
            0 <= i < j < prices@.len() ==> (#[trigger] prices@[i]).0 != (#[trigger] prices@[j]).0,
    ensures
        final(assets).wf(),
        final(store).wf(),
        bond_registration(
            *old(assets),
            *final(assets),
            key@,
            maturity_date as int,
            bond_registration_id(*old(assets), key@, maturity_date as int),
        ),
        prices_replaced(
            *old(store),
            *final(store),
            bond_registration_id(*old(assets), key@, maturity_date as int),
            prices@,
            r as int,
        ),
{
    let asset_id = register_treasury_bond_asset(assets, key, maturity_date);
    replace_asset_prices(store, asset_id, prices)
}

/// Registers the ticker if need be, then replaces that asset's whole
/// price history; returns how many observations are new.
pub fn register_etf_prices(
    assets: &mut AssetStore,
    store: &mut PriceStore,
    ticker: &String,
    prices: Vec<(i32, i64)>,
) -> (r: usize)
    requires
        old(assets).wf(),
        old(assets).next_id < i32::MAX,
        old(store).wf(),
        forall|i: int| 0 <= i < prices@.len() ==> 0 <= (#[trigger] prices@[i]).1 <= MAX_PRICE,
        forall|i: int, j: int|
            0 <= i < j < prices@.len() ==> (#[trigger] prices@[i]).0 != (#[trigger] prices@[j]).0,
    ensures
        final(assets).wf(),
        final(store).wf(),
        etf_registration(
            *old(assets),
            *final(assets),
            ticker@,
            etf_registration_id(*old(assets), ticker@),
        ),
        prices_replaced(
            *old(store),
            *final(store),
            etf_registration_id(*old(assets), ticker@),
            prices@,
            r as int,
        ),
{
    let asset_id = register_etf_asset(assets, ticker);
    replace_asset_prices(store, asset_id, prices)
}

} // verus!
