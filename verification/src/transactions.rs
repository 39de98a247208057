//! The transaction-history readout.
//!
//! A thin sibling of the valuation engines: it lists every trade of one
//! portfolio, in ledger order, with its asset resolved to a typed identity
//! and its transaction amount (price times signed quantity) computed.

use vstd::prelude::*;

use crate::assets::{find_asset, find_asset_in, Assetable, AssetStore, LookupError};
use crate::trades::{Trade, TradeStore};

verus! {

/// One listed trade: the resolved asset, the trade's date, price, signed
/// quantity, and their product.
#[derive(Clone, Debug, PartialEq, Eq)]
pub struct Transaction {
    pub assetable: Assetable,
    pub date: i32,
    pub price: i64,
    pub quantity: i64,
    pub amount: i128,
}

/// The trades of one portfolio, in ledger order.
pub open spec fn portfolio_trades(trades: Seq<Trade>, pid: int) -> Seq<Trade>
    decreases trades.len(),
{
    if trades.len() == 0 {
        Seq::empty()
    } else {
        let rest = portfolio_trades(trades.drop_last(), pid);
        if trades.last().portfolio_id == pid {
            rest.push(trades.last())
        } else {
            rest
        }
    }
}

/// What one listed row must say about the trade it renders.
pub open spec fn transaction_matches(assets: Seq<Assetable>, t: Trade, x: Transaction) -> bool {
    &&& Some(x.assetable) == find_asset(assets, t.asset_id as int)
    &&& x.date == t.date
    &&& x.price == t.price
    &&& x.quantity == t.quantity
    &&& x.amount as int == (t.price as int) * (t.quantity as int)
}

/// The transaction history of one portfolio.
///
/// Succeeds exactly when every asset the portfolio traded resolves in the
/// registry; one unresolvable id fails the whole readout.
pub fn run(assets: &AssetStore, trades: &TradeStore, portfolio_id: i32) -> (r: Result<
    Vec<Transaction>,
    LookupError,
>)
    requires
        assets.wf(),
        trades.wf(),
    ensures
        r is Ok <==> (forall|i: int|
            0 <= i < trades.list@.len() && (#[trigger] trades.list@[i]).portfolio_id
                == portfolio_id ==> find_asset(
                assets.list@,
                trades.list@[i].asset_id as int,
            ) is Some),
        r matches Ok(v) ==> {
            let pt = portfolio_trades(trades.list@, portfolio_id as int);
            v@.len() == pt.len() && (forall|k: int|
                0 <= k < pt.len() ==> transaction_matches(assets.list@, pt[k], #[trigger] v@[k]))
        },
        r matches Err(e) ==> e matches LookupError::AssetId(id) && find_asset(
            assets.list@,
            id as int,
        ) is None && (exists|i: int|
            0 <= i < trades.list@.len() && (#[trigger] trades.list@[i]).portfolio_id == portfolio_id
                && trades.list@[i].asset_id == id),
{
    let ghost s = trades.list@;
    let ghost pid = portfolio_id as int;

    let mut v: Vec<Transaction> = Vec::new();
    let mut i: usize = 0;
    while i < trades.list.len()
        invariant
            assets.wf(),
            trades.wf(),
            s == trades.list@,
            pid == portfolio_id as int,
            0 <= i <= s.len(),
            v@.len() == portfolio_trades(s.take(i as int), pid).len(),
            forall|k: int|
                0 <= k < v@.len() ==> transaction_matches(
                    assets.list@,
                    portfolio_trades(s.take(i as int), pid)[k],
                    #[trigger] v@[k],
                ),
            forall|k: int|
                0 <= k < i && (#[trigger] s[k]).portfolio_id == pid ==> find_asset(
                    assets.list@,
                    s[k].asset_id as int,
                ) is Some,
        decreases s.len() - i,
    {
        proof {
            assert(s.take(i + 1).drop_last() =~= s.take(i as int));
            assert(s.take(i + 1).last() == s[i as int]);
        }
        let t = trades.list[i];
        if t.portfolio_id == portfolio_id {
            match find_asset_in(assets, t.asset_id) {
                None => {
                    return Err(LookupError::AssetId(t.asset_id));
                },
                Some(a) => {
                    proof {
                        assert(-100_000_000_000_000_000_000_000_000 <= (t.price as int) * (
                        t.quantity as int) <= 100_000_000_000_000_000_000_000_000)
                            by (nonlinear_arith)
                            requires
                                0 <= t.price as int <= 10_000_000_000_000,
                                -10_000_000_000_000 <= t.quantity as int <= 10_000_000_000_000,
                        ;
                    }
                    let amount: i128 = (t.price as i128) * (t.quantity as i128);
                    v.push(
                        Transaction {
                            assetable: a,
                            date: t.date,
                            price: t.price,
                            quantity: t.quantity,
                            amount,
                        },
                    );
                },
            }
        }
        i = i + 1;
    }
    proof {
        assert(s.take(s.len() as int) =~= s);
    }
    Ok(v)
}

/// The readout is a pure function of the ledger: any two results that
/// satisfy its row contract for the same registry, trades and portfolio
/// agree on every field of every row.
pub proof fn lemma_transactions_deterministic(
    assets: Seq<Assetable>,
    trades: Seq<Trade>,
    pid: int,
    v1: Seq<Transaction>,
    v2: Seq<Transaction>,
)
    requires
        v1.len() == portfolio_trades(trades, pid).len(),
        forall|k: int|
            0 <= k < v1.len() ==> transaction_matches(
                assets,
                portfolio_trades(trades, pid)[k],
                #[trigger] v1[k],
            ),
        v2.len() == portfolio_trades(trades, pid).len(),
        forall|k: int|
            0 <= k < v2.len() ==> transaction_matches(
                assets,
                portfolio_trades(trades, pid)[k],
                #[trigger] v2[k],
            ),
    ensures
        v1.len() == v2.len(),
        forall|k: int| 0 <= k < v1.len() ==> #[trigger] v1[k] == v2[k],
{
    assert forall|k: int| 0 <= k < v1.len() implies #[trigger] v1[k] == v2[k] by {
        let t = portfolio_trades(trades, pid)[k];
        assert(transaction_matches(assets, t, v1[k]));
        assert(transaction_matches(assets, t, v2[k]));
        assert(v1[k].assetable == v2[k].assetable);
    }
}

} // verus!
