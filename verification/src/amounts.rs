//! The daily valuation series engine.
//!
//! For a portfolio the series holds one row per calendar day — every day,
//! trading or not — from the portfolio's first trade date through "today",
//! supplied by the caller. Each row carries the cumulative cost basis
//! invested as of that day and the portfolio's mark-to-market value as of
//! that day: every held asset at its latest known price on or before the
//! day, zero when none is known yet. A portfolio with no trades, or a
//! "today" before the first trade, yields an empty series.

use vstd::prelude::*;

use crate::assets::Assetable;
use crate::positions::{
    position_matches, position_row_matches, sum_amounts, touched_ids, AssetPosition,
    PortfolioPosition,
};
use crate::prices::{latest_price, price_as_of, PriceObs, PriceStore};
use crate::trades::{
    first_trade_date, invested_total, invested_upto, lemma_first_trade_date_witness,
    net_quantity_upto, trade_matches, Trade, TradeStore,
};

verus! {

/// One row of the series: the day, the cost basis invested as of that day,
/// and the mark-to-market value as of that day.
#[derive(Clone, Copy, PartialEq, Eq, Structural, Debug)]
pub struct PortfolioAmount {
    pub gross_total: i128,
    pub invested: i128,
    pub date: i32,
}

/// Mark-to-market value of the portfolio as of `d`: over every trade on or
/// before `d`, its signed quantity times the as-of price of its asset.
pub open spec fn gross_upto(trades: Seq<Trade>, prices: Seq<PriceObs>, pid: int, d: int) -> int
    decreases trades.len(),
{
    if trades.len() == 0 {
        0
    } else {
        gross_upto(trades.drop_last(), prices, pid, d) + {
            let t = trades.last();
            if trade_matches(t, pid, d) {
                (t.quantity as int) * price_as_of(prices, t.asset_id as int, d)
            } else {
                0
            }
        }
    }
}

/// The first trade date of the portfolio, or zero when it never traded;
/// meaningful only where the series is non-empty.
pub open spec fn series_first(trades: Seq<Trade>, pid: int) -> int {
    match first_trade_date(trades, pid) {
        None => 0,
        Some(f) => f,
    }
}

/// How many rows the series has: one per day from the first trade date
/// through `today` inclusive, none when there are no trades or `today`
/// precedes them all.
pub open spec fn series_len(trades: Seq<Trade>, pid: int, today: int) -> int {
    match first_trade_date(trades, pid) {
        None => 0,
        Some(first) => if today < first {
            0
        } else {
            today - first + 1
        },
    }
}

/// The whole contract of a series: one row per day in ascending order,
/// each carrying that day's cumulative cost basis and as-of market value.
pub open spec fn series_matches(
    trades: Seq<Trade>,
    prices: Seq<PriceObs>,
    pid: int,
    today: int,
    r: Seq<PortfolioAmount>,
) -> bool {
    &&& r.len() == series_len(trades, pid, today)
    &&& forall|i: int|
        0 <= i < r.len() ==> {
            let day = series_first(trades, pid) + i;
            &&& (#[trigger] r[i]).date as int == day
            &&& r[i].invested as int == invested_upto(trades, pid, day)
            &&& r[i].gross_total as int == gross_upto(trades, prices, pid, day)
        }
}

/// The inclusive daily calendar from `first_date` through `last_date`;
/// empty when `last_date` precedes `first_date`. Day numbers are never
/// negative.
pub fn date_series(first_date: i32, last_date: i32) -> (r: Vec<i32>)
    requires
        0 <= first_date,
    ensures
        r@.len() == if last_date < first_date {
            0int
        } else {
            last_date - first_date + 1
        },
        forall|i: int| 0 <= i < r@.len() ==> (#[trigger] r@[i]) as int == first_date + i,
{
    let mut r: Vec<i32> = Vec::new();
    if last_date < first_date {
        return r;
    }
    let diff: i64 = (last_date as i64) - (first_date as i64) + 1;
    let n: usize = diff as usize;
    proof {
        assert(0 <= diff);
        assert(n as int == diff as int);
    }
    let mut k: usize = 0;
    while k < n
        invariant
            n == (last_date as int) - (first_date as int) + 1,
            first_date <= last_date,
            0 <= k <= n,
            r@.len() == k,
            forall|i: int| 0 <= i < k ==> (#[trigger] r@[i]) as int == first_date + i,
        decreases n - k,
    {
        let day: i32 = ((first_date as i64) + (k as i64)) as i32;
        r.push(day);
        k = k + 1;
    }
    r
}

/// The first trade date of the portfolio, by a scan over the ledger.
pub fn first_date_of(trades: &TradeStore, portfolio_id: i32) -> (r: Option<i32>)
    ensures
        match r {
            None => first_trade_date(trades.list@, portfolio_id as int) is None,
            Some(f) => first_trade_date(trades.list@, portfolio_id as int) == Some(f as int),
        },
{
    let ghost s = trades.list@;
    let mut best: Option<i32> = None;
    let mut i: usize = 0;
    while i < trades.list.len()
        invariant
            s == trades.list@,
            0 <= i <= s.len(),
            match best {
                None => first_trade_date(s.take(i as int), portfolio_id as int) is None,
                Some(f) => first_trade_date(s.take(i as int), portfolio_id as int) == Some(
                    f as int,
                ),
            },
        decreases s.len() - i,
    {
        proof {
            assert(s.take(i + 1).drop_last() =~= s.take(i as int));
            assert(s.take(i + 1).last() == s[i as int]);
        }
        let t = trades.list[i];
        if t.portfolio_id == portfolio_id {
            best = match best {
                None => Some(t.date),
                Some(f) => if t.date < f {
                    Some(t.date)
                } else {
                    Some(f)
                },
            };
        }
        i = i + 1;
    }
    proof {
        assert(s.take(s.len() as int) =~= s);
    }
    best
}

/// The daily valuation series of one portfolio through `today`.
pub fn run(prices: &PriceStore, trades: &TradeStore, portfolio_id: i32, today: i32) -> (r: Vec<
    PortfolioAmount,
>)
    requires
        prices.wf(),
        trades.wf(),
    ensures
        series_matches(trades.list@, prices.list@, portfolio_id as int, today as int, r@),
{
    let ghost s = trades.list@;
    let ghost pid = portfolio_id as int;

    let mut r: Vec<PortfolioAmount> = Vec::new();

    let first = match first_date_of(trades, portfolio_id) {
        None => {
            return r;
        },
        Some(f) => f,
    };
    if today < first {
        return r;
    }
    proof {
        lemma_first_trade_date_witness(s, pid);
        assert(0 <= first);
    }

    let diff: i64 = (today as i64) - (first as i64) + 1;
    let n: usize = diff as usize;
    proof {
        assert(0 <= diff);
        assert(n as int == diff as int);
    }
    let mut k: usize = 0;
    while k < n
        invariant
            prices.wf(),
            trades.wf(),
            s == trades.list@,
            pid == portfolio_id as int,
            first_trade_date(s, pid) == Some(first as int),
            first <= today,
            n == (today as int) - (first as int) + 1,
            0 <= k <= n,
            r@.len() == k,
            forall|i: int|
                0 <= i < k ==> {
                    let day = (first as int) + i;
                    &&& (#[trigger] r@[i]).date as int == day
                    &&& r@[i].invested as int == invested_upto(s, pid, day)
                    &&& r@[i].gross_total as int == gross_upto(s, prices.list@, pid, day)
                },
        decreases n - k,
    {
        let day: i32 = ((first as i64) + (k as i64)) as i32;

        let mut invested: i128 = 0;
        let mut gross: i128 = 0;
        let mut ti: usize = 0;
        while ti < trades.list.len()
            invariant
                prices.wf(),
                trades.wf(),
                s == trades.list@,
                pid == portfolio_id as int,
                0 <= ti <= s.len(),
                invested as int == invested_upto(s.take(ti as int), pid, day as int),
                gross as int == gross_upto(s.take(ti as int), prices.list@, pid, day as int),
                -((ti as int) * 100_000_000_000_000_000_000_000_000) <= invested as int <= (
                ti as int) * 100_000_000_000_000_000_000_000_000,
                -((ti as int) * 100_000_000_000_000_000_000_000_000) <= gross as int <= (
                ti as int) * 100_000_000_000_000_000_000_000_000,
            decreases s.len() - ti,
        {
            proof {
                assert(s.take(ti + 1).drop_last() =~= s.take(ti as int));
                assert(s.take(ti + 1).last() == s[ti as int]);
            }
            let t = trades.list[ti];
            if t.portfolio_id == portfolio_id && t.date <= day {
                proof {
                    assert(-100_000_000_000_000_000_000_000_000 <= (t.price as int) * (
                    t.quantity as int) <= 100_000_000_000_000_000_000_000_000) by (nonlinear_arith)
                        requires
                            0 <= t.price as int <= 10_000_000_000_000,
                            -10_000_000_000_000 <= t.quantity as int <= 10_000_000_000_000,
                    ;
                }
                invested = invested + (t.price as i128) * (t.quantity as i128);
                let p = latest_price(prices, t.asset_id, day);
                proof {
                    assert(-100_000_000_000_000_000_000_000_000 <= (t.quantity as int) * (
                    p as int) <= 100_000_000_000_000_000_000_000_000) by (nonlinear_arith)
                        requires
                            0 <= p as int <= 10_000_000_000_000,
                            -10_000_000_000_000 <= t.quantity as int <= 10_000_000_000_000,
                    ;
                }
                gross = gross + (t.quantity as i128) * (p as i128);
            }
            ti = ti + 1;
        }
        proof {
            assert(s.take(s.len() as int) =~= s);
        }

        r.push(PortfolioAmount { gross_total: gross, invested, date: day });
        k = k + 1;
    }
    r
}

/// The series is a pure function of the ledger and its inputs: any two
/// results that satisfy the series contract for the same trades, price
/// history, portfolio and day are equal, row by row.
pub proof fn lemma_series_deterministic(
    trades: Seq<Trade>,
    prices: Seq<PriceObs>,
    pid: int,
    today: int,
    r1: Seq<PortfolioAmount>,
    r2: Seq<PortfolioAmount>,
)
    requires
        series_matches(trades, prices, pid, today, r1),
        series_matches(trades, prices, pid, today, r2),
    ensures
        r1 == r2,
{
    assert forall|i: int| 0 <= i < r1.len() implies r1[i] == r2[i] by {
        assert(r1[i].date == r2[i].date);
        assert(r1[i].invested == r2[i].invested);
        assert(r1[i].gross_total == r2[i].gross_total);
    }
    assert(r1 =~= r2);
}

/// Once every trade of the portfolio lies on or before `today`, the cost
/// basis of the series' last day is the cost basis over all its trades:
/// invested is time-invariant once all trades are included.
pub proof fn lemma_invested_complete(trades: Seq<Trade>, pid: int, today: int)
    requires
        forall|i: int|
            0 <= i < trades.len() && (#[trigger] trades[i]).portfolio_id == pid ==> trades[i].date
                <= today,
    ensures
        invested_upto(trades, pid, today) == invested_total(trades, pid),
    decreases trades.len(),
{
    if trades.len() > 0 {
        lemma_invested_complete(trades.drop_last(), pid, today);
        assert forall|i: int|
            0 <= i < trades.drop_last().len() && (#[trigger] trades.drop_last()[i]).portfolio_id
                == pid implies trades.drop_last()[i].date <= today by {
            assert(trades.drop_last()[i] == trades[i]);
        }
        assert(trades.last() == trades[trades.len() - 1]);
    }
}

/// The last row of a non-empty series that covers every trade carries the
/// portfolio's full cost basis: its invested figure is the sum of price
/// times signed quantity over all trades of the portfolio.
pub proof fn lemma_series_final_invested(
    trades: Seq<Trade>,
    prices: Seq<PriceObs>,
    pid: int,
    today: int,
    r: Seq<PortfolioAmount>,
)
    requires
        series_matches(trades, prices, pid, today, r),
        r.len() > 0,
        forall|i: int|
            0 <= i < trades.len() && (#[trigger] trades[i]).portfolio_id == pid ==> trades[i].date
                <= today,
    ensures
        r.last().invested as int == invested_total(trades, pid),
{
    lemma_invested_complete(trades, pid, today);
    let first = series_first(trades, pid);
    assert(r.len() == today - first + 1);
    assert(r.last() == r[r.len() - 1]);
    assert(first + (r.len() - 1) == today);
}

/// Cost basis responds to the sign of quantities: while the portfolio only
/// buys (and prices are non-negative), invested never decreases from one
/// day to a later one. A sell can make it decrease.
pub proof fn lemma_invested_monotonic(trades: Seq<Trade>, pid: int, d1: int, d2: int)
    requires
        d1 <= d2,
        forall|i: int|
            0 <= i < trades.len() && (#[trigger] trades[i]).portfolio_id == pid ==> trades[i].quantity
                >= 0 && trades[i].price >= 0,
    ensures
        invested_upto(trades, pid, d1) <= invested_upto(trades, pid, d2),
    decreases trades.len(),
{
    if trades.len() > 0 {
        lemma_invested_monotonic(trades.drop_last(), pid, d1, d2);
        assert forall|i: int|
            0 <= i < trades.drop_last().len() && (#[trigger] trades.drop_last()[i]).portfolio_id
                == pid implies trades.drop_last()[i].quantity >= 0 && trades.drop_last()[i].price
            >= 0 by {
            assert(trades.drop_last()[i] == trades[i]);
        }
        let t = trades.last();
        assert(t == trades[trades.len() - 1]);
        if t.portfolio_id == pid {
            assert(t.price * t.quantity >= 0) by (nonlinear_arith)
                requires
                    t.price >= 0,
                    t.quantity >= 0,
            ;
        }
    }
}

/// The as-of value of a chosen list of assets: for each id in turn, its
/// as-of price times the portfolio's net quantity of it.
spec fn gross_of_ids(
    trades: Seq<Trade>,
    prices: Seq<PriceObs>,
    pid: int,
    d: int,
    ids: Seq<int>,
) -> int
    decreases ids.len(),
{
    if ids.len() == 0 {
        0
    } else {
        gross_of_ids(trades, prices, pid, d, ids.drop_last()) + price_as_of(prices, ids.last(), d)
            * net_quantity_upto(trades, pid, ids.last(), d)
    }
}

/// No asset id appears twice among the touched ids.
proof fn lemma_touched_ids_distinct(trades: Seq<Trade>, pid: int, d: int)
    ensures
        forall|p: int, q: int|
            0 <= p < q < touched_ids(trades, pid, d).len() ==> touched_ids(trades, pid, d)[p]
                != touched_ids(trades, pid, d)[q],
    decreases trades.len(),
{
    if trades.len() > 0 {
        lemma_touched_ids_distinct(trades.drop_last(), pid, d);
        let rest = touched_ids(trades.drop_last(), pid, d);
        let whole = touched_ids(trades, pid, d);
        let t = trades.last();
        if trade_matches(t, pid, d) && !rest.contains(t.asset_id as int) {
            assert forall|p: int, q: int| 0 <= p < q < whole.len() implies whole[p] != whole[q] by {
                if q < whole.len() - 1 {
                    assert(whole[p] == rest[p] && whole[q] == rest[q]);
                } else {
                    assert(whole[p] == rest[p]);
                    assert(whole[q] == t.asset_id as int);
                    assert(rest.contains(rest[p]));
                }
            }
        }
    }
}

/// An id is touched exactly when some trade of the portfolio on or before
/// `d` carries it.
proof fn lemma_touched_ids_contains(trades: Seq<Trade>, pid: int, d: int, id: int)
    ensures
        touched_ids(trades, pid, d).contains(id) <==> exists|i: int|
            0 <= i < trades.len() && trade_matches(#[trigger] trades[i], pid, d)
                && trades[i].asset_id == id,
    decreases trades.len(),
{
    if trades.len() > 0 {
        lemma_touched_ids_contains(trades.drop_last(), pid, d, id);
        let rest = touched_ids(trades.drop_last(), pid, d);
        let whole = touched_ids(trades, pid, d);
        let t = trades.last();
        assert(t == trades[trades.len() - 1]);
        if rest.contains(id) {
            let k = choose|k: int| 0 <= k < rest.len() && rest[k] == id;
            assert(whole[k] == id);
            assert(whole.contains(id));
            let i = choose|i: int|
                0 <= i < trades.drop_last().len() && trade_matches(
                    #[trigger] trades.drop_last()[i],
                    pid,
                    d,
                ) && trades.drop_last()[i].asset_id == id;
            assert(trades[i] == trades.drop_last()[i]);
        } else if trade_matches(t, pid, d) && t.asset_id == id {
            assert(whole == if rest.contains(t.asset_id as int) {
                rest
            } else {
                rest.push(t.asset_id as int)
            });
            assert(whole.last() == id);
            assert(whole.contains(id));
        } else {
            if whole.contains(id) {
                let k = choose|k: int| 0 <= k < whole.len() && whole[k] == id;
                if trade_matches(t, pid, d) && !rest.contains(t.asset_id as int) {
                    assert(k < whole.len() - 1);
                    assert(rest[k] == id);
                } else {
                    assert(rest[k] == id);
                }
                assert(rest.contains(id));
            }
            if exists|i: int|
                0 <= i < trades.len() && trade_matches(#[trigger] trades[i], pid, d)
                    && trades[i].asset_id == id {
                let i = choose|i: int|
                    0 <= i < trades.len() && trade_matches(#[trigger] trades[i], pid, d)
                        && trades[i].asset_id == id;
                assert(i < trades.len() - 1);
                assert(trades.drop_last()[i] == trades[i]);
            }
        }
    }
}

/// An asset no trade of the portfolio carries has net quantity zero.
proof fn lemma_net_quantity_absent(trades: Seq<Trade>, pid: int, id: int, d: int)
    requires
        forall|i: int|
            0 <= i < trades.len() ==> !(trade_matches(#[trigger] trades[i], pid, d)
                && trades[i].asset_id == id),
    ensures
        net_quantity_upto(trades, pid, id, d) == 0,
    decreases trades.len(),
{
    if trades.len() > 0 {
        assert forall|i: int|
            0 <= i < trades.drop_last().len() implies !(trade_matches(
            #[trigger] trades.drop_last()[i],
            pid,
            d,
        ) && trades.drop_last()[i].asset_id == id) by {
            assert(trades.drop_last()[i] == trades[i]);
        }
        lemma_net_quantity_absent(trades.drop_last(), pid, id, d);
        assert(trades.last() == trades[trades.len() - 1]);
    }
}

/// Dropping the last trade changes the value of a duplicate-free id list
/// by exactly that trade's contribution, when its asset is in the list.
proof fn lemma_gross_of_ids_step(
    trades: Seq<Trade>,
    prices: Seq<PriceObs>,
    pid: int,
    d: int,
    ids: Seq<int>,
)
    requires
        trades.len() > 0,
        forall|p: int, q: int| 0 <= p < q < ids.len() ==> ids[p] != ids[q],
    ensures
        gross_of_ids(trades, prices, pid, d, ids) == gross_of_ids(
            trades.drop_last(),
            prices,
            pid,
            d,
            ids,
        ) + if trade_matches(trades.last(), pid, d) && ids.contains(
            trades.last().asset_id as int,
        ) {
            price_as_of(prices, trades.last().asset_id as int, d) * (
            trades.last().quantity as int)
        } else {
            0
        },
    decreases ids.len(),
{
    let t = trades.last();
    let tid = t.asset_id as int;
    if ids.len() == 0 {
        assert(!ids.contains(tid));
    } else {
        let a = ids.last();
        let rest = ids.drop_last();
        assert forall|p: int, q: int| 0 <= p < q < rest.len() implies rest[p] != rest[q] by {
            assert(rest[p] == ids[p] && rest[q] == ids[q]);
        }
        lemma_gross_of_ids_step(trades, prices, pid, d, rest);
        let pa = price_as_of(prices, a, d);
        let nq_old = net_quantity_upto(trades.drop_last(), pid, a, d);
        if trade_matches(t, pid, d) && tid == a {
            assert(net_quantity_upto(trades, pid, a, d) == nq_old + t.quantity);
            assert(pa * (nq_old + t.quantity) == pa * nq_old + pa * (t.quantity as int))
                by (nonlinear_arith);
            assert forall|p: int| 0 <= p < rest.len() implies rest[p] != tid by {
                assert(ids[p] == rest[p] && ids[ids.len() - 1] == a);
            }
            if rest.contains(tid) {
                let k = choose|k: int| 0 <= k < rest.len() && rest[k] == tid;
                assert(false);
            }
            assert(ids.contains(tid)) by {
                assert(ids[ids.len() - 1] == tid);
            }
        } else {
            assert(net_quantity_upto(trades, pid, a, d) == nq_old);
            if ids.contains(tid) {
                let k = choose|k: int| 0 <= k < ids.len() && ids[k] == tid;
                if trade_matches(t, pid, d) {
                    assert(k < ids.len() - 1);
                    assert(rest[k] == tid);
                    assert(rest.contains(tid));
                }
            }
            if rest.contains(tid) {
                let k = choose|k: int| 0 <= k < rest.len() && rest[k] == tid;
                assert(ids[k] == tid);
                assert(ids.contains(tid));
            }
        }
    }
}

/// Valuing asset by asset equals valuing trade by trade: the grouped sum
/// over the touched assets is the per-trade gross measure.
proof fn lemma_gross_by_asset(trades: Seq<Trade>, prices: Seq<PriceObs>, pid: int, d: int)
    ensures
        gross_of_ids(trades, prices, pid, d, touched_ids(trades, pid, d)) == gross_upto(
            trades,
            prices,
            pid,
            d,
        ),
    decreases trades.len(),
{
    if trades.len() > 0 {
        let s2 = trades.drop_last();
        let t = trades.last();
        let tid = t.asset_id as int;
        let rest = touched_ids(s2, pid, d);
        lemma_gross_by_asset(s2, prices, pid, d);
        lemma_touched_ids_distinct(s2, pid, d);
        lemma_gross_of_ids_step(trades, prices, pid, d, rest);
        assert(price_as_of(prices, tid, d) * (t.quantity as int) == (t.quantity as int)
            * price_as_of(prices, tid, d)) by (nonlinear_arith);
        if !trade_matches(t, pid, d) {
            assert(touched_ids(trades, pid, d) == rest);
        } else if rest.contains(tid) {
            assert(touched_ids(trades, pid, d) == rest);
        } else {
            let whole = touched_ids(trades, pid, d);
            assert(whole == rest.push(tid));
            assert(whole.drop_last() =~= rest);
            assert(whole.last() == tid);
            lemma_touched_ids_contains(s2, pid, d, tid);
            lemma_net_quantity_absent(s2, pid, tid, d);
            assert(net_quantity_upto(trades, pid, tid, d) == t.quantity);
            assert(gross_of_ids(trades, prices, pid, d, whole) == gross_of_ids(
                trades,
                prices,
                pid,
                d,
                rest,
            ) + price_as_of(prices, tid, d) * (t.quantity as int));
        }
    }
}

/// The amounts of snapshot lines sum to the grouped per-asset value of
/// their ids.
proof fn lemma_sum_amounts_rows(
    assets: Seq<Assetable>,
    prices: Seq<PriceObs>,
    trades: Seq<Trade>,
    pid: int,
    d: int,
    ids: Seq<int>,
    rows: Seq<AssetPosition>,
)
    requires
        rows.len() == ids.len(),
        forall|j: int|
            0 <= j < ids.len() ==> position_row_matches(
                assets,
                prices,
                trades,
                pid,
                d,
                ids[j],
                #[trigger] rows[j],
            ),
    ensures
        sum_amounts(rows) == gross_of_ids(trades, prices, pid, d, ids),
    decreases rows.len(),
{
    if rows.len() > 0 {
        assert forall|j: int|
            0 <= j < ids.drop_last().len() implies position_row_matches(
            assets,
            prices,
            trades,
            pid,
            d,
            ids.drop_last()[j],
            #[trigger] rows.drop_last()[j],
        ) by {
            assert(rows.drop_last()[j] == rows[j] && ids.drop_last()[j] == ids[j]);
        }
        lemma_sum_amounts_rows(assets, prices, trades, pid, d, ids.drop_last(), rows.drop_last());
        assert(rows[rows.len() - 1] == rows.last() && ids[ids.len() - 1] == ids.last());
        assert(position_row_matches(assets, prices, trades, pid, d, ids.last(), rows.last()));
    }
}

/// The two engines agree: a snapshot's total for a day is exactly the
/// series' gross figure for that day.
pub proof fn lemma_position_total_is_gross(
    assets: Seq<Assetable>,
    prices: Seq<PriceObs>,
    trades: Seq<Trade>,
    pid: int,
    d: int,
    pp: PortfolioPosition,
)
    requires
        position_matches(assets, prices, trades, pid, d, pp),
    ensures
        pp.amount as int == gross_upto(trades, prices, pid, d),
{
    lemma_sum_amounts_rows(
        assets,
        prices,
        trades,
        pid,
        d,
        touched_ids(trades, pid, d),
        pp.assets@,
    );
    lemma_gross_by_asset(trades, prices, pid, d);
}

} // verus!
