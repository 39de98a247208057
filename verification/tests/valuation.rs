//! Scenario tests for the snapshot and daily-series engines.
//!
//! Quantities and prices are plain scaled integers; these tests use a
//! scale of one unit, so a price of 100 is just 100.

use portfolio::amounts::{date_series, run as series, PortfolioAmount};
use portfolio::assets::{AssetStore, Assetable, LookupError};
use portfolio::positions::position;
use portfolio::prices::{register_etf_prices, PriceStore};
use portfolio::trades::{register_trades, EtfTrade, Trade, TradeStore, TreasuryBondTrade};

fn etf_trade(ticker: &str, date: i32, price: i64, quantity: i64) -> EtfTrade {
    EtfTrade { ticker: ticker.to_string(), date, price, quantity }
}

/// Scenario: one fund bought 10 units at 100 on day 1, priced 110 on day
/// 2; the series through day 2 holds two rows with the documented values.
#[test]
fn one_fund_two_days() {
    let mut assets = AssetStore::new();
    let mut prices = PriceStore::new();
    let mut trades = TradeStore::new();

    let ticker = String::from("ETF1");
    register_etf_prices(&mut assets, &mut prices, &ticker, vec![(1, 100), (2, 110)]);
    let pid = register_trades(&assets, &mut trades, &vec![etf_trade("ETF1", 1, 100, 10)], &vec![])
        .unwrap();

    let rows = series(&prices, &trades, pid, 2);
    assert_eq!(
        rows,
        vec![
            PortfolioAmount { gross_total: 1000, invested: 1000, date: 1 },
            PortfolioAmount { gross_total: 1100, invested: 1000, date: 2 },
        ]
    );
}

/// Scenario: a portfolio with no trades yields an empty series and an
/// empty snapshot with total zero.
#[test]
fn empty_portfolio() {
    let assets = AssetStore::new();
    let prices = PriceStore::new();
    let trades = TradeStore::new();

    let rows = series(&prices, &trades, 1, 10);
    assert!(rows.is_empty());

    let pp = position(&assets, &prices, &trades, 1, 10).unwrap();
    assert!(pp.assets.is_empty());
    assert_eq!(pp.amount, 0);
}

/// Scenario: an asset with trades but no price observation on or before
/// the as-of date is valued at zero yet still appears in the snapshot.
#[test]
fn traded_asset_without_price() {
    let mut assets = AssetStore::new();
    let prices = PriceStore::new();
    let mut trades = TradeStore::new();

    let ticker = String::from("ETF1");
    let id = portfolio::assets::register_etf_asset(&mut assets, &ticker);
    let pid = register_trades(&assets, &mut trades, &vec![etf_trade("ETF1", 3, 50, 4)], &vec![])
        .unwrap();

    let pp = position(&assets, &prices, &trades, pid, 5).unwrap();
    assert_eq!(pp.assets.len(), 1);
    assert_eq!(pp.assets[0].price, 0);
    assert_eq!(pp.assets[0].quantity, 4);
    assert_eq!(pp.assets[0].amount, 0);
    assert_eq!(pp.amount, 0);
    match &pp.assets[0].assetable {
        Assetable::Etf(e) => {
            assert_eq!(e.id, id);
            assert_eq!(e.ticker, "ETF1");
        },
        Assetable::TreasuryBond(_) => panic!("resolved to the wrong kind"),
    }

    let rows = series(&prices, &trades, pid, 4);
    assert_eq!(rows.len(), 2);
    assert_eq!(rows[0].gross_total, 0);
    assert_eq!(rows[1].gross_total, 0);
    assert_eq!(rows[0].invested, 200);
}

/// Scenario: two same-day trades of one asset (buy 5 at 10, buy 3 at 12)
/// contribute 86 to that day's invested, as one combined figure.
#[test]
fn same_day_trades_combine() {
    let mut assets = AssetStore::new();
    let mut prices = PriceStore::new();
    let mut trades = TradeStore::new();

    let ticker = String::from("ETF1");
    register_etf_prices(&mut assets, &mut prices, &ticker, vec![(1, 10)]);
    let pid = register_trades(
        &assets,
        &mut trades,
        &vec![etf_trade("ETF1", 1, 10, 5), etf_trade("ETF1", 1, 12, 3)],
        &vec![],
    )
    .unwrap();

    let rows = series(&prices, &trades, pid, 1);
    assert_eq!(rows.len(), 1);
    assert_eq!(rows[0].invested, 86);
    assert_eq!(rows[0].gross_total, 80);
}

/// The series has one row per day from the first trade through today, and
/// none when today precedes the first trade.
#[test]
fn series_row_count() {
    let mut assets = AssetStore::new();
    let mut prices = PriceStore::new();
    let mut trades = TradeStore::new();

    let ticker = String::from("ETF1");
    register_etf_prices(&mut assets, &mut prices, &ticker, vec![(5, 7)]);
    let pid = register_trades(&assets, &mut trades, &vec![etf_trade("ETF1", 5, 7, 1)], &vec![])
        .unwrap();

    assert_eq!(series(&prices, &trades, pid, 9).len(), 5);
    assert_eq!(series(&prices, &trades, pid, 5).len(), 1);
    assert!(series(&prices, &trades, pid, 4).is_empty());
}

/// The last row's invested equals price times quantity summed over every
/// trade of the portfolio, once today covers them all.
#[test]
fn invested_reaches_full_cost_basis() {
    let mut assets = AssetStore::new();
    let mut prices = PriceStore::new();
    let mut trades = TradeStore::new();

    let ticker = String::from("ETF1");
    register_etf_prices(&mut assets, &mut prices, &ticker, vec![(1, 10)]);
    let pid = register_trades(
        &assets,
        &mut trades,
        &vec![etf_trade("ETF1", 1, 10, 2), etf_trade("ETF1", 3, 11, 5), etf_trade("ETF1", 6, 9, 1)],
        &vec![],
    )
    .unwrap();

    let rows = series(&prices, &trades, pid, 8);
    assert_eq!(rows.last().unwrap().invested, 2 * 10 + 5 * 11 + 9);
}

/// Invested responds to the sign of quantities: buys only keep it
/// non-decreasing, while a sell makes it decrease.
#[test]
fn invested_follows_sign() {
    let mut assets = AssetStore::new();
    let mut prices = PriceStore::new();
    let mut trades = TradeStore::new();

    let ticker = String::from("ETF1");
    register_etf_prices(&mut assets, &mut prices, &ticker, vec![(1, 10)]);

    let pid_buys = register_trades(
        &assets,
        &mut trades,
        &vec![etf_trade("ETF1", 1, 10, 10), etf_trade("ETF1", 3, 10, 2)],
        &vec![],
    )
    .unwrap();
    let rows = series(&prices, &trades, pid_buys, 4);
    for w in rows.windows(2) {
        assert!(w[0].invested <= w[1].invested);
    }

    let pid_sell = register_trades(
        &assets,
        &mut trades,
        &vec![etf_trade("ETF1", 1, 10, 10), etf_trade("ETF1", 3, 10, -5)],
        &vec![],
    )
    .unwrap();
    let rows = series(&prices, &trades, pid_sell, 4);
    assert_eq!(rows[0].invested, 100);
    assert_eq!(rows[3].invested, 50);
}

/// The snapshot total equals the sum of its per-asset amounts.
#[test]
fn snapshot_total_is_sum_of_amounts() {
    let mut assets = AssetStore::new();
    let mut prices = PriceStore::new();
    let mut trades = TradeStore::new();

    let t1 = String::from("ETF1");
    let t2 = String::from("ETF2");
    register_etf_prices(&mut assets, &mut prices, &t1, vec![(1, 100)]);
    register_etf_prices(&mut assets, &mut prices, &t2, vec![(1, 30)]);
    let pid = register_trades(
        &assets,
        &mut trades,
        &vec![etf_trade("ETF1", 1, 100, 3), etf_trade("ETF2", 2, 30, 7)],
        &vec![],
    )
    .unwrap();

    let pp = position(&assets, &prices, &trades, pid, 2).unwrap();
    assert_eq!(pp.assets.len(), 2);
    let summed: i128 = pp.assets.iter().map(|a| a.amount).sum();
    assert_eq!(pp.amount, summed);
    assert_eq!(pp.amount, 3 * 100 + 7 * 30);
}

/// A snapshot keeps an asset whose net quantity has gone back to zero.
#[test]
fn snapshot_keeps_closed_position() {
    let mut assets = AssetStore::new();
    let mut prices = PriceStore::new();
    let mut trades = TradeStore::new();

    let ticker = String::from("ETF1");
    register_etf_prices(&mut assets, &mut prices, &ticker, vec![(1, 10)]);
    let pid = register_trades(
        &assets,
        &mut trades,
        &vec![etf_trade("ETF1", 1, 10, 5), etf_trade("ETF1", 2, 11, -5)],
        &vec![],
    )
    .unwrap();

    let pp = position(&assets, &prices, &trades, pid, 3).unwrap();
    assert_eq!(pp.assets.len(), 1);
    assert_eq!(pp.assets[0].quantity, 0);
    assert_eq!(pp.assets[0].amount, 0);
    assert_eq!(pp.amount, 0);
}

/// Running snapshot or series twice over the same ledger yields the same
/// output.
#[test]
fn repeated_runs_agree() {
    let mut assets = AssetStore::new();
    let mut prices = PriceStore::new();
    let mut trades = TradeStore::new();

    let ticker = String::from("ETF1");
    register_etf_prices(&mut assets, &mut prices, &ticker, vec![(1, 100), (3, 90)]);
    let pid = register_trades(&assets, &mut trades, &vec![etf_trade("ETF1", 1, 100, 10)], &vec![])
        .unwrap();

    assert_eq!(series(&prices, &trades, pid, 4), series(&prices, &trades, pid, 4));
    let pp1 = position(&assets, &prices, &trades, pid, 4).unwrap();
    let pp2 = position(&assets, &prices, &trades, pid, 4).unwrap();
    assert_eq!(pp1, pp2);
}

/// A trade that references an unregistered asset id corrupts the ledger:
/// snapshot and transaction readout fail whole, with the id named.
#[test]
fn unresolvable_asset_id_fails_whole_call() {
    let assets = AssetStore::new();
    let prices = PriceStore::new();
    let trades = TradeStore {
        list: vec![Trade { portfolio_id: 1, asset_id: 9, date: 1, quantity: 1, price: 10 }],
        next_portfolio_id: 2,
    };

    assert_eq!(position(&assets, &prices, &trades, 1, 2), Err(LookupError::AssetId(9)));
    assert_eq!(
        portfolio::transactions::run(&assets, &trades, 1),
        Err(LookupError::AssetId(9))
    );
}

/// The daily calendar is inclusive on both ends and empty when the last
/// day precedes the first.
#[test]
fn calendar_bounds() {
    let days = date_series(3, 6);
    assert_eq!(days, vec![3, 4, 5, 6]);
    assert_eq!(date_series(4, 4), vec![4]);
    assert!(date_series(5, 4).is_empty());
}

/// The two engines agree: the snapshot total for a day equals that day's
/// gross figure in the series.
#[test]
fn snapshot_agrees_with_series() {
    let mut assets = AssetStore::new();
    let mut prices = PriceStore::new();
    let mut trades = TradeStore::new();

    let t1 = String::from("ETF1");
    let t2 = String::from("ETF2");
    register_etf_prices(&mut assets, &mut prices, &t1, vec![(1, 100), (3, 95)]);
    register_etf_prices(&mut assets, &mut prices, &t2, vec![(2, 40)]);
    let pid = register_trades(
        &assets,
        &mut trades,
        &vec![
            etf_trade("ETF1", 1, 100, 3),
            etf_trade("ETF2", 2, 40, 7),
            etf_trade("ETF1", 4, 95, -1),
        ],
        &vec![],
    )
    .unwrap();

    let rows = series(&prices, &trades, pid, 5);
    for row in rows {
        let pp = position(&assets, &prices, &trades, pid, row.date).unwrap();
        assert_eq!(pp.amount, row.gross_total);
    }
}

/// A bond position values like any other asset: registered by key and
/// maturity, priced as of the day, resolved back to its bond identity.
#[test]
fn bond_position_snapshot() {
    let mut assets = AssetStore::new();
    let mut prices = PriceStore::new();
    let mut trades = TradeStore::new();

    let key = String::from("LFT");
    portfolio::prices::register_treasury_bond_prices(
        &mut assets,
        &mut prices,
        &key,
        9000,
        vec![(1, 105), (2, 106)],
    );
    let pid = register_trades(
        &assets,
        &mut trades,
        &vec![],
        &vec![TreasuryBondTrade {
            key: key.clone(),
            maturity: 9000,
            date: 1,
            price: 105,
            quantity: 2,
        }],
    )
    .unwrap();

    let pp = position(&assets, &prices, &trades, pid, 2).unwrap();
    assert_eq!(pp.assets.len(), 1);
    assert_eq!(pp.assets[0].price, 106);
    assert_eq!(pp.assets[0].amount, 212);
    match &pp.assets[0].assetable {
        Assetable::TreasuryBond(b) => {
            assert_eq!(b.key, "LFT");
            assert_eq!(b.maturity_date, 9000);
        },
        Assetable::Etf(_) => panic!("resolved to the wrong kind"),
    }
}
