//! The position snapshot engine.
//!
//! A snapshot answers "what does this portfolio hold, and what is it worth,
//! as of date `d`": every asset the portfolio has ever traded on or before
//! `d` appears once, in order of first trade, with its net quantity, its
//! as-of price, and their product; the portfolio amount is the sum of those
//! products. An asset whose net quantity is zero still appears, and an
//! asset with no price observation yet is valued at zero.

use vstd::prelude::*;

use crate::assets::{find_asset, retrieve_assetables, Assetable, AssetStore, LookupError};
use crate::prices::{latest_prices, price_as_of, PriceObs, PriceStore};
use crate::trades::{net_quantity_upto, trade_matches, Trade, TradeStore};
use crate::{MAX_PRICE, MAX_QUANTITY};

verus! {

/// One asset's line of a snapshot: the asset, its as-of price, the net
/// quantity held, and their product.
#[derive(Clone, Debug, PartialEq, Eq)]
pub struct AssetPosition {
    pub assetable: Assetable,
    pub price: i64,
    pub quantity: i128,
    pub amount: i128,
}

/// A whole snapshot: one line per held asset, and the summed amount.
#[derive(Clone, Debug, PartialEq, Eq)]
pub struct PortfolioPosition {
    pub amount: i128,
    pub assets: Vec<AssetPosition>,
}

/// The distinct asset ids the portfolio traded on or before `d`, in order
/// of first trade.
pub open spec fn touched_ids(trades: Seq<Trade>, pid: int, d: int) -> Seq<int>
    decreases trades.len(),
{
    if trades.len() == 0 {
        Seq::empty()
    } else {
        let rest = touched_ids(trades.drop_last(), pid, d);
        let t = trades.last();
        if trade_matches(t, pid, d) && !rest.contains(t.asset_id as int) {
            rest.push(t.asset_id as int)
        } else {
            rest
        }
    }
}

/// What one snapshot line must say about asset `id`.
pub open spec fn position_row_matches(
    assets: Seq<Assetable>,
    prices: Seq<PriceObs>,
    trades: Seq<Trade>,
    pid: int,
    d: int,
    id: int,
    row: AssetPosition,
) -> bool {
    &&& Some(row.assetable) == find_asset(assets, id)
    &&& row.price as int == price_as_of(prices, id, d)
    &&& row.quantity as int == net_quantity_upto(trades, pid, id, d)
    &&& row.amount as int == (row.price as int) * (row.quantity as int)
}

/// The sum of the per-asset amounts of a snapshot.
pub open spec fn sum_amounts(rows: Seq<AssetPosition>) -> int
    decreases rows.len(),
{
    if rows.len() == 0 {
        0
    } else {
        sum_amounts(rows.drop_last()) + rows.last().amount as int
    }
}

/// The whole contract of a snapshot: one line per touched asset, in first-
/// trade order, each line correct for its asset, and the portfolio amount
/// equal to the sum of the line amounts.
pub open spec fn position_matches(
    assets: Seq<Assetable>,
    prices: Seq<PriceObs>,
    trades: Seq<Trade>,
    pid: int,
    d: int,
    pp: PortfolioPosition,
) -> bool {
    let ids = touched_ids(trades, pid, d);
    &&& pp.assets@.len() == ids.len()
    &&& forall|j: int|
        0 <= j < ids.len() ==> position_row_matches(
            assets,
            prices,
            trades,
            pid,
            d,
            ids[j],
            #[trigger] pp.assets@[j],
        )
    &&& pp.amount as int == sum_amounts(pp.assets@)
}

/// Whether the id list holds `x`.
fn contains_id(v: &Vec<i32>, x: i32) -> (r: bool)
    ensures
        r <==> (exists|k: int| 0 <= k < v@.len() && v@[k] == x),
{
    let mut i: usize = 0;
    while i < v.len()
        invariant
            0 <= i <= v@.len(),
            forall|k: int| 0 <= k < i ==> v@[k] != x,
        decreases v@.len() - i,
    {
        if v[i] == x {
            return true;
        }
        i = i + 1;
    }
    false
}

/// Net quantity of one asset held by the portfolio as of `date`, by a scan
/// over the whole ledger.
pub fn net_quantity(trades: &TradeStore, portfolio_id: i32, asset_id: i32, date: i32) -> (r: i128)
    requires
        trades.wf(),
    ensures
        r as int == net_quantity_upto(
            trades.list@,
            portfolio_id as int,
            asset_id as int,
            date as int,
        ),
        -((trades.list@.len() as int) * (MAX_QUANTITY as int)) <= r as int <= (
        trades.list@.len() as int) * (MAX_QUANTITY as int),
{
    let ghost s = trades.list@;
    let mut acc: i128 = 0;
    let mut i: usize = 0;
    while i < trades.list.len()
        invariant
            trades.wf(),
            s == trades.list@,
            0 <= i <= s.len(),
            acc as int == net_quantity_upto(
                s.take(i as int),
                portfolio_id as int,
                asset_id as int,
                date as int,
            ),
            -((i as int) * (MAX_QUANTITY as int)) <= acc as int <= (i as int) * (
            MAX_QUANTITY as int),
        decreases s.len() - i,
    {
        proof {
            assert(s.take(i + 1).drop_last() =~= s.take(i as int));
            assert(s.take(i + 1).last() == s[i as int]);
        }
        let t = trades.list[i];
        if t.portfolio_id == portfolio_id && t.date <= date && t.asset_id == asset_id {
            acc = acc + t.quantity as i128;
        }
        i = i + 1;
    }
    proof {
        assert(s.take(s.len() as int) =~= s);
    }
    acc
}

/// The snapshot of one portfolio as of one date.
///
/// Succeeds exactly when every touched asset id resolves in the registry;
/// a single unresolvable id fails the whole snapshot, never a partial one.
pub fn position(
    assets: &AssetStore,
    prices: &PriceStore,
    trades: &TradeStore,
    portfolio_id: i32,
    date: i32,
) -> (r: Result<PortfolioPosition, LookupError>)
    requires
        assets.wf(),
        prices.wf(),
        trades.wf(),
    ensures
        r matches Ok(pp) ==> position_matches(
            assets.list@,
            prices.list@,
            trades.list@,
            portfolio_id as int,
            date as int,
            pp,
        ),
        r is Ok <==> (forall|j: int|
            0 <= j < touched_ids(trades.list@, portfolio_id as int, date as int).len()
                ==> find_asset(
                assets.list@,
                #[trigger] touched_ids(trades.list@, portfolio_id as int, date as int)[j],
            ) is Some),
        r matches Err(e) ==> e matches LookupError::AssetId(id) && touched_ids(
            trades.list@,
            portfolio_id as int,
            date as int,
        ).contains(id as int) && find_asset(assets.list@, id as int) is None,
{
    let ghost s = trades.list@;
    let ghost pid = portfolio_id as int;
    let ghost d = date as int;

    let mut ids: Vec<i32> = Vec::new();
    let mut i: usize = 0;
    while i < trades.list.len()
        invariant
            trades.wf(),
            s == trades.list@,
            pid == portfolio_id as int,
            d == date as int,
            0 <= i <= s.len(),
            ids@.len() == touched_ids(s.take(i as int), pid, d).len(),
            ids@.len() <= i,
            forall|k: int|
                0 <= k < ids@.len() ==> (#[trigger] ids@[k]) as int == touched_ids(
                    s.take(i as int),
                    pid,
                    d,
                )[k],
        decreases s.len() - i,
    {
        proof {
            assert(s.take(i + 1).drop_last() =~= s.take(i as int));
            assert(s.take(i + 1).last() == s[i as int]);
        }
        let t = trades.list[i];
        if t.portfolio_id == portfolio_id && t.date <= date {
            let ghost tch = touched_ids(s.take(i as int), pid, d);
            let ghost tid = s[i as int].asset_id as int;
            let c = contains_id(&ids, t.asset_id);
            proof {
                if c {
                    let k = choose|k: int| 0 <= k < ids@.len() && ids@[k] == t.asset_id;
                    assert(tch[k] == tid);
                    assert(tch.contains(tid));
                } else {
                    assert forall|k: int| 0 <= k < tch.len() implies tch[k] != tid by {
                        assert(tch[k] == ids@[k] as int);
                    }
                    assert(!tch.contains(tid));
                }
            }
            if !c {
                let ghost old_ids = ids@;
                ids.push(t.asset_id);
                proof {
                    assert(touched_ids(s.take(i + 1), pid, d) == tch.push(tid));
                    assert forall|k: int|
                        0 <= k < ids@.len() implies (#[trigger] ids@[k]) as int == touched_ids(
                        s.take(i + 1),
                        pid,
                        d,
                    )[k] by {
                        if k < old_ids.len() {
                            assert(ids@[k] == old_ids[k]);
                            assert(tch.push(tid)[k] == tch[k]);
                        } else {
                            assert(ids@[k] == s[i as int].asset_id);
                            assert(tch.push(tid)[k] == tid);
                        }
                    }
                }
            } else {
                proof {
                    assert(touched_ids(s.take(i + 1), pid, d) == tch);
                }
            }
        }
        i = i + 1;
    }
    proof {
        assert(s.take(s.len() as int) =~= s);
    }
    let ghost tch = touched_ids(s, pid, d);

    let price_list = latest_prices(prices, &ids, date);

    let assetables = match retrieve_assetables(assets, &ids) {
        Ok(v) => v,
        Err(e) => {
            proof {
                let ghost id = match e {
                    LookupError::AssetId(id) => id,
                    _ => 0,
                };
                let k = choose|k: int| 0 <= k < ids@.len() && ids@[k] == id;
                assert(tch[k] == id as int);
                assert(tch.contains(id as int));
                assert(find_asset(assets.list@, tch[k]) is None);
            }
            return Err(e);
        },
    };

    let mut rows: Vec<AssetPosition> = Vec::new();
    let mut total: i128 = 0;
    let mut j: usize = 0;
    while j < ids.len()
        invariant
            assets.wf(),
            prices.wf(),
            trades.wf(),
            s == trades.list@,
            pid == portfolio_id as int,
            d == date as int,
            tch == touched_ids(s, pid, d),
            ids@.len() == tch.len(),
            ids@.len() <= s.len(),
            forall|k: int| 0 <= k < ids@.len() ==> (#[trigger] ids@[k]) as int == tch[k],
            price_list@.len() == ids@.len(),
            forall|k: int|
                0 <= k < ids@.len() ==> (#[trigger] price_list@[k]) as int == price_as_of(
                    prices.list@,
                    ids@[k] as int,
                    d,
                ),
            forall|k: int| 0 <= k < ids@.len() ==> 0 <= #[trigger] price_list@[k] <= MAX_PRICE,
            assetables@.len() == ids@.len(),
            forall|k: int|
                0 <= k < ids@.len() ==> Some(#[trigger] assetables@[k]) == find_asset(
                    assets.list@,
                    ids@[k] as int,
                ),
            0 <= j <= ids@.len(),
            rows@.len() == j,
            forall|k: int|
                0 <= k < j ==> position_row_matches(
                    assets.list@,
                    prices.list@,
                    s,
                    pid,
                    d,
                    tch[k],
                    #[trigger] rows@[k],
                ),
            total as int == sum_amounts(rows@),
            -((j as int) * 10_000_000_000_000_000_000_000_000_000_000) <= total as int <= (
            j as int) * 10_000_000_000_000_000_000_000_000_000_000,
        decreases ids@.len() - j,
    {
        let price = price_list[j];
        let quantity = net_quantity(trades, portfolio_id, ids[j], date);
        proof {
            assert(trades.list@.len() <= 100_000);
            assert(-1_000_000_000_000_000_000 <= quantity as int <= 1_000_000_000_000_000_000);
            assert(-10_000_000_000_000_000_000_000_000_000_000 <= (price as int) * (
            quantity as int) <= 10_000_000_000_000_000_000_000_000_000_000) by (nonlinear_arith)
                requires
                    0 <= price as int <= 10_000_000_000_000,
                    -1_000_000_000_000_000_000 <= quantity as int <= 1_000_000_000_000_000_000,
            ;
        }
        let amount: i128 = (price as i128) * quantity;
        let row = AssetPosition { assetable: assetables[j].duplicate(), price, quantity, amount };
        let ghost old_rows = rows@;
        rows.push(row);
        total = total + amount;
        proof {
            assert(rows@.drop_last() =~= old_rows);
            assert(rows@.last() == row);
            assert(position_row_matches(
                assets.list@,
                prices.list@,
                s,
                pid,
                d,
                tch[j as int],
                row,
            ));
            assert forall|k: int|
                0 <= k < j + 1 implies position_row_matches(
                assets.list@,
                prices.list@,
                s,
                pid,
                d,
                tch[k],
                #[trigger] rows@[k],
            ) by {
                if k < j {
                    assert(rows@[k] == old_rows[k]);
                }
            }
        }
        j = j + 1;
    }

    proof {
        assert forall|k: int|
            0 <= k < tch.len() implies find_asset(assets.list@, #[trigger] tch[k]) is Some by {
            assert(Some(assetables@[k]) == find_asset(assets.list@, ids@[k] as int));
        }
    }
    Ok(PortfolioPosition { amount: total, assets: rows })
}

/// The snapshot is a pure function of the ledger and its inputs: any two
/// results that satisfy the snapshot contract for the same registry, price
/// history, trades, portfolio and date are the same snapshot, line by line.
pub proof fn lemma_position_deterministic(
    assets: Seq<Assetable>,
    prices: Seq<PriceObs>,
    trades: Seq<Trade>,
    pid: int,
    d: int,
    pp1: PortfolioPosition,
    pp2: PortfolioPosition,
)
    requires
        position_matches(assets, prices, trades, pid, d, pp1),
        position_matches(assets, prices, trades, pid, d, pp2),
    ensures
        pp1.amount == pp2.amount,
        pp1.assets@ == pp2.assets@,
{
    let ids = touched_ids(trades, pid, d);
    assert forall|j: int| 0 <= j < ids.len() implies pp1.assets@[j] == pp2.assets@[j] by {
        let r1 = pp1.assets@[j];
        let r2 = pp2.assets@[j];
        assert(position_row_matches(assets, prices, trades, pid, d, ids[j], r1));
        assert(position_row_matches(assets, prices, trades, pid, d, ids[j], r2));
        assert(r1.assetable == r2.assetable);
        assert(r1.price == r2.price);
        assert(r1.quantity == r2.quantity);
        assert(r1.amount == r2.amount);
    }
    assert(pp1.assets@ =~= pp2.assets@);
}

} // verus!
