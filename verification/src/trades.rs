//! The trade ledger.
//!
//! A trade is a signed quantity of one asset, transacted on one date at one
//! price, inside one portfolio; sells carry a negative quantity. Trades are
//! immutable once recorded and never move between portfolios. The spec
//! functions here — net quantity held and cumulative cost basis up to a
//! date — are the measures every valuation is stated over.

use vstd::prelude::*;

use crate::assets::{
    assetable_id, find_bond, find_bond_in, find_etf, find_etf_in, AssetStore, Assetable,
    LookupError,
};
use crate::{MAX_PRICE, MAX_QUANTITY, MAX_TRADES};

verus! {

/// One recorded trade.
#[derive(Clone, Copy, PartialEq, Eq, Structural, Debug)]
pub struct Trade {
    pub portfolio_id: i32,
    pub asset_id: i32,
    pub date: i32,
    pub quantity: i64,
    pub price: i64,
}

/// A fund trade as handed in by the importing caller: the fund is named by
/// ticker, not yet by asset id.
#[derive(Clone, Debug, PartialEq, Eq)]
pub struct EtfTrade {
    pub ticker: String,
    pub date: i32,
    pub price: i64,
    pub quantity: i64,
}

/// A bond trade as handed in by the importing caller: the bond is named by
/// its key and maturity, not yet by asset id.
#[derive(Clone, Debug, PartialEq, Eq)]
pub struct TreasuryBondTrade {
    pub key: String,
    pub maturity: i32,
    pub date: i32,
    pub price: i64,
    pub quantity: i64,
}

/// Whether a trade belongs to the portfolio and happened on or before `d`.
pub open spec fn trade_matches(t: Trade, pid: int, d: int) -> bool {
    t.portfolio_id == pid && t.date <= d
}

/// Quantity and price of one trade stay inside the ledger limits, and its
/// date is a day number, never negative.
pub open spec fn trade_bounded(t: Trade) -> bool {
    &&& -MAX_QUANTITY <= t.quantity <= MAX_QUANTITY
    &&& 0 <= t.price <= MAX_PRICE
    &&& 0 <= t.date
}

/// Every trade of the sequence stays inside the ledger limits.
pub open spec fn trades_bounded(trades: Seq<Trade>) -> bool {
    forall|i: int| 0 <= i < trades.len() ==> trade_bounded(#[trigger] trades[i])
}

/// Net quantity of one asset held by the portfolio as of `d`: the sum of
/// the signed quantities of its trades on or before `d`.
pub open spec fn net_quantity_upto(trades: Seq<Trade>, pid: int, asset_id: int, d: int) -> int
    decreases trades.len(),
{
    if trades.len() == 0 {
        0
    } else {
        net_quantity_upto(trades.drop_last(), pid, asset_id, d) + {
            let t = trades.last();
            if trade_matches(t, pid, d) && t.asset_id == asset_id {
                t.quantity as int
            } else {
                0
            }
        }
    }
}

/// Cost basis invested by the portfolio as of `d`: the sum of price times
/// signed quantity over its trades on or before `d`, never revalued.
pub open spec fn invested_upto(trades: Seq<Trade>, pid: int, d: int) -> int
    decreases trades.len(),
{
    if trades.len() == 0 {
        0
    } else {
        invested_upto(trades.drop_last(), pid, d) + {
            let t = trades.last();
            if trade_matches(t, pid, d) {
                t.price * t.quantity
            } else {
                0
            }
        }
    }
}

/// Cost basis over every trade of the portfolio, whatever its date.
pub open spec fn invested_total(trades: Seq<Trade>, pid: int) -> int
    decreases trades.len(),
{
    if trades.len() == 0 {
        0
    } else {
        invested_total(trades.drop_last(), pid) + {
            let t = trades.last();
            if t.portfolio_id == pid {
                t.price * t.quantity
            } else {
                0
            }
        }
    }
}

/// The earliest trade date of the portfolio, if it has traded at all.
pub open spec fn first_trade_date(trades: Seq<Trade>, pid: int) -> Option<int>
    decreases trades.len(),
{
    if trades.len() == 0 {
        None
    } else {
        let rest = first_trade_date(trades.drop_last(), pid);
        let t = trades.last();
        if t.portfolio_id == pid {
            match rest {
                None => Some(t.date as int),
                Some(d) => if t.date < d {
                    Some(t.date as int)
                } else {
                    Some(d)
                },
            }
        } else {
            rest
        }
    }
}

/// The first trade date, when there is one, is the date of a trade of the
/// portfolio; when there is none, the portfolio has no trade at all.
pub proof fn lemma_first_trade_date_witness(trades: Seq<Trade>, pid: int)
    ensures
        match first_trade_date(trades, pid) {
            None => forall|i: int|
                0 <= i < trades.len() ==> (#[trigger] trades[i]).portfolio_id != pid,
            Some(x) => exists|i: int|
                0 <= i < trades.len() && (#[trigger] trades[i]).portfolio_id == pid
                    && trades[i].date == x,
        },
    decreases trades.len(),
{
    if trades.len() > 0 {
        lemma_first_trade_date_witness(trades.drop_last(), pid);
        let t = trades.last();
        assert(t == trades[trades.len() - 1]);
        match first_trade_date(trades.drop_last(), pid) {
            None => {
                assert forall|i: int|
                    0 <= i < trades.len() - 1 implies (#[trigger] trades[i]).portfolio_id
                    != pid by {
                    assert(trades.drop_last()[i] == trades[i]);
                }
            },
            Some(x) => {
                let i = choose|i: int|
                    0 <= i < trades.drop_last().len() && (#[trigger] trades.drop_last()[i]).portfolio_id
                        == pid && trades.drop_last()[i].date == x;
                assert(trades[i] == trades.drop_last()[i]);
            },
        }
    }
}

/// The trade ledger: every recorded trade, and the id the next imported
/// portfolio will receive.
pub struct TradeStore {
    pub list: Vec<Trade>,
    pub next_portfolio_id: i32,
}

impl TradeStore {
    /// The ledger stays within its limits, and every trade belongs to a
    /// portfolio that has been created.
    pub open spec fn wf(self) -> bool {
        &&& 1 <= self.next_portfolio_id
        &&& self.list@.len() <= MAX_TRADES
        &&& trades_bounded(self.list@)
        &&& forall|i: int|
            0 <= i < self.list@.len() ==> 1 <= (#[trigger] self.list@[i]).portfolio_id
                < self.next_portfolio_id
    }

    /// A ledger with no trades and no portfolios.
    pub fn new() -> (r: TradeStore)
        ensures
            r.wf(),
            r.list@ == Seq::<Trade>::empty(),
            r.next_portfolio_id == 1,
    {
        TradeStore { list: Vec::new(), next_portfolio_id: 1 }
    }
}

/// The ledger row a fund trade becomes once its ticker resolves.
pub open spec fn etf_trade_row(assets: Seq<Assetable>, pid: i32, t: EtfTrade) -> Trade {
    Trade {
        portfolio_id: pid,
        asset_id: (match find_etf(assets, t.ticker@) {
            Some(a) => assetable_id(a),
            None => 0,
        }) as i32,
        date: t.date,
        quantity: t.quantity,
        price: t.price,
    }
}

/// The ledger row a bond trade becomes once its identity resolves.
pub open spec fn bond_trade_row(
    assets: Seq<Assetable>,
    pid: i32,
    t: TreasuryBondTrade,
) -> Trade {
    Trade {
        portfolio_id: pid,
        asset_id: (match find_bond(assets, t.key@, t.maturity as int) {
            Some(a) => assetable_id(a),
            None => 0,
        }) as i32,
        date: t.date,
        quantity: t.quantity,
        price: t.price,
    }
}

/// The ledger rows of a list of fund trades, in input order.
pub open spec fn etf_rows(assets: Seq<Assetable>, pid: i32, ts: Seq<EtfTrade>) -> Seq<
    Trade,
>
    decreases ts.len(),
{
    if ts.len() == 0 {
        Seq::empty()
    } else {
        etf_rows(assets, pid, ts.drop_last()).push(etf_trade_row(assets, pid, ts.last()))
    }
}

/// The ledger rows of a list of bond trades, in input order.
pub open spec fn bond_rows(
    assets: Seq<Assetable>,
    pid: i32,
    ts: Seq<TreasuryBondTrade>,
) -> Seq<Trade>
    decreases ts.len(),
{
    if ts.len() == 0 {
        Seq::empty()
    } else {
        bond_rows(assets, pid, ts.drop_last()).push(bond_trade_row(assets, pid, ts.last()))
    }
}

/// Every fund trade names a registered ticker.
pub open spec fn etf_trades_resolvable(
    assets: Seq<Assetable>,
    ts: Seq<EtfTrade>,
) -> bool {
    forall|i: int| 0 <= i < ts.len() ==> find_etf(assets, (#[trigger] ts[i]).ticker@) is Some
}

/// Every bond trade names a registered bond identity.
pub open spec fn bond_trades_resolvable(
    assets: Seq<Assetable>,
    ts: Seq<TreasuryBondTrade>,
) -> bool {
    forall|i: int|
        0 <= i < ts.len() ==> find_bond(
            assets,
            (#[trigger] ts[i]).key@,
            ts[i].maturity as int,
        ) is Some
}

/// Imports a batch of trades as one new portfolio and returns its id.
///
/// Every named asset must already be registered: on the first trade whose
/// ticker or bond identity resolves to nothing the whole import fails and
/// the ledger is left untouched — no partial import exists. On success the
/// resolved fund rows and then the resolved bond rows are appended, each
/// list in its input order.
pub fn register_trades(
    assets: &AssetStore,
    store: &mut TradeStore,
    etf_trades: &Vec<EtfTrade>,
    treasury_bond_trades: &Vec<TreasuryBondTrade>,
) -> (r: Result<i32, LookupError>)
    requires
        assets.wf(),
        old(store).wf(),
        old(store).next_portfolio_id < i32::MAX,
        old(store).list@.len() + etf_trades@.len() + treasury_bond_trades@.len() <= MAX_TRADES,
        forall|i: int|
            0 <= i < etf_trades@.len() ==> -MAX_QUANTITY <= (#[trigger] etf_trades@[i]).quantity
                <= MAX_QUANTITY && 0 <= etf_trades@[i].price <= MAX_PRICE && 0
                <= etf_trades@[i].date,
        forall|i: int|
            0 <= i < treasury_bond_trades@.len() ==> -MAX_QUANTITY <= (#[trigger] treasury_bond_trades@[i]).quantity
                <= MAX_QUANTITY && 0 <= treasury_bond_trades@[i].price <= MAX_PRICE && 0
                <= treasury_bond_trades@[i].date,
    ensures
        final(store).wf(),
        r is Ok <==> etf_trades_resolvable(assets.list@, etf_trades@) && bond_trades_resolvable(
            assets.list@,
            treasury_bond_trades@,
        ),
        r matches Ok(pid) ==> {
            &&& pid == old(store).next_portfolio_id
            &&& final(store).next_portfolio_id == old(store).next_portfolio_id + 1
            &&& final(store).list@ == old(store).list@ + etf_rows(assets.list@, pid, etf_trades@)
                + bond_rows(assets.list@, pid, treasury_bond_trades@)
        },
        r matches Err(e) ==> {
            &&& final(store).list@ == old(store).list@
            &&& final(store).next_portfolio_id == old(store).next_portfolio_id
            &&& match e {
                LookupError::EtfTicker(i) => i < etf_trades@.len() && find_etf(
                    assets.list@,
                    etf_trades@[i as int].ticker@,
                ) is None,
                LookupError::BondIdentity(i) => i < treasury_bond_trades@.len() && find_bond(
                    assets.list@,
                    treasury_bond_trades@[i as int].key@,
                    treasury_bond_trades@[i as int].maturity as int,
                ) is None,
                LookupError::AssetId(_) => false,
            }
        },
{
    let mut etf_ids: Vec<i32> = Vec::new();
    let mut i: usize = 0;
    while i < etf_trades.len()
        invariant
            0 <= i <= etf_trades@.len(),
            etf_ids@.len() == i,
            *store == *old(store),
            old(store).wf(),
            forall|k: int|
                0 <= k < i ==> (find_etf(assets.list@, (#[trigger] etf_trades@[k]).ticker@)
                    matches Some(a) && assetable_id(a) == etf_ids@[k] as int),
        decreases etf_trades@.len() - i,
    {
        match find_etf_in(assets, &etf_trades[i].ticker) {
            Some(id) => {
                etf_ids.push(id);
            },
            None => {
                return Err(LookupError::EtfTicker(i));
            },
        }
        i = i + 1;
    }

    let mut bond_ids: Vec<i32> = Vec::new();
    let mut i: usize = 0;
    while i < treasury_bond_trades.len()
        invariant
            0 <= i <= treasury_bond_trades@.len(),
            bond_ids@.len() == i,
            *store == *old(store),
            old(store).wf(),
            forall|k: int|
                0 <= k < i ==> (find_bond(
                    assets.list@,
                    (#[trigger] treasury_bond_trades@[k]).key@,
                    treasury_bond_trades@[k].maturity as int,
                ) matches Some(a) && assetable_id(a) == bond_ids@[k] as int),
        decreases treasury_bond_trades@.len() - i,
    {
        match find_bond_in(assets, &treasury_bond_trades[i].key, treasury_bond_trades[i].maturity) {
            Some(id) => {
                bond_ids.push(id);
            },
            None => {
                return Err(LookupError::BondIdentity(i));
            },
        }
        i = i + 1;
    }

    let pid = store.next_portfolio_id;
    let ghost base = store.list@;

    let mut i: usize = 0;
    while i < etf_trades.len()
        invariant
            0 <= i <= etf_trades@.len(),
            etf_ids@.len() == etf_trades@.len(),
            forall|k: int|
                0 <= k < etf_trades@.len() ==> (find_etf(
                    assets.list@,
                    (#[trigger] etf_trades@[k]).ticker@,
                ) matches Some(a) && assetable_id(a) == etf_ids@[k] as int),
            forall|k: int|
                0 <= k < etf_trades@.len() ==> -MAX_QUANTITY <= (#[trigger] etf_trades@[k]).quantity
                    <= MAX_QUANTITY && 0 <= etf_trades@[k].price <= MAX_PRICE && 0
                    <= etf_trades@[k].date,
            1 <= pid,
            store.next_portfolio_id == pid,
            store.list@ == base + etf_rows(assets.list@, pid, etf_trades@.take(i as int)),
            store.list@.len() == base.len() + i,
            trades_bounded(store.list@),
            forall|k: int|
                0 <= k < store.list@.len() ==> 1 <= (#[trigger] store.list@[k]).portfolio_id <= pid,
            base.len() + etf_trades@.len() + treasury_bond_trades@.len() <= MAX_TRADES,
        decreases etf_trades@.len() - i,
    {
        let t = &etf_trades[i];
        let row = Trade {
            portfolio_id: pid,
            asset_id: etf_ids[i],
            date: t.date,
            quantity: t.quantity,
            price: t.price,
        };
        proof {
            assert(etf_trades@.take(i + 1).drop_last() =~= etf_trades@.take(i as int));
            assert(etf_trades@.take(i + 1).last() == etf_trades@[i as int]);
            assert(row == etf_trade_row(assets.list@, pid, etf_trades@[i as int]));
            assert(etf_rows(assets.list@, pid, etf_trades@.take(i + 1)) == etf_rows(
                assets.list@,
                pid,
                etf_trades@.take(i as int),
            ).push(row));
        }
        store.list.push(row);
        proof {
            assert(store.list@ =~= base + etf_rows(assets.list@, pid, etf_trades@.take(i + 1)));
        }
        i = i + 1;
    }
    proof {
        assert(etf_trades@.take(etf_trades@.len() as int) =~= etf_trades@);
    }

    let ghost mid = store.list@;
    let mut i: usize = 0;
    while i < treasury_bond_trades.len()
        invariant
            0 <= i <= treasury_bond_trades@.len(),
            bond_ids@.len() == treasury_bond_trades@.len(),
            forall|k: int|
                0 <= k < treasury_bond_trades@.len() ==> (find_bond(
                    assets.list@,
                    (#[trigger] treasury_bond_trades@[k]).key@,
                    treasury_bond_trades@[k].maturity as int,
                ) matches Some(a) && assetable_id(a) == bond_ids@[k] as int),
            forall|k: int|
                0 <= k < treasury_bond_trades@.len() ==> -MAX_QUANTITY <= (
                #[trigger] treasury_bond_trades@[k]).quantity <= MAX_QUANTITY && 0
                    <= treasury_bond_trades@[k].price <= MAX_PRICE && 0
                    <= treasury_bond_trades@[k].date,
            1 <= pid,
            store.next_portfolio_id == pid,
            mid == base + etf_rows(assets.list@, pid, etf_trades@),
            mid.len() == base.len() + etf_trades@.len(),
            store.list@ == mid + bond_rows(assets.list@, pid, treasury_bond_trades@.take(i as int)),
            store.list@.len() == mid.len() + i,
            trades_bounded(store.list@),
            forall|k: int|
                0 <= k < store.list@.len() ==> 1 <= (#[trigger] store.list@[k]).portfolio_id <= pid,
            base.len() + etf_trades@.len() + treasury_bond_trades@.len() <= MAX_TRADES,
        decreases treasury_bond_trades@.len() - i,
    {
        let t = &treasury_bond_trades[i];
        let row = Trade {
            portfolio_id: pid,
            asset_id: bond_ids[i],
            date: t.date,
            quantity: t.quantity,
            price: t.price,
        };
        proof {
            assert(treasury_bond_trades@.take(i + 1).drop_last() =~= treasury_bond_trades@.take(
                i as int,
            ));
            assert(treasury_bond_trades@.take(i + 1).last() == treasury_bond_trades@[i as int]);
            assert(row == bond_trade_row(assets.list@, pid, treasury_bond_trades@[i as int]));
            assert(bond_rows(assets.list@, pid, treasury_bond_trades@.take(i + 1)) == bond_rows(
                assets.list@,
                pid,
                treasury_bond_trades@.take(i as int),
            ).push(row));
        }
        store.list.push(row);
        proof {
            assert(store.list@ =~= mid + bond_rows(
                assets.list@,
                pid,
                treasury_bond_trades@.take(i + 1),
            ));
        }
        i = i + 1;
    }
    proof {
        assert(treasury_bond_trades@.take(treasury_bond_trades@.len() as int)
            =~= treasury_bond_trades@);
        assert(store.list@ =~= base + etf_rows(assets.list@, pid, etf_trades@) + bond_rows(
            assets.list@,
            pid,
            treasury_bond_trades@,
        ));
    }

    store.next_portfolio_id = pid + 1;
    Ok(pid)
}

} // verus!
