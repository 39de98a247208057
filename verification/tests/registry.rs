//! Tests for asset registration, price replacement, trade import and the
//! transaction readout.

use portfolio::assets::{
    find_asset_in, register_etf_asset, register_treasury_bond_asset, retrieve_assetables,
    AssetStore, Assetable, LookupError,
};
use portfolio::prices::{latest_price, register_etf_prices, replace_asset_prices, PriceStore};
use portfolio::trades::{register_trades, EtfTrade, TreasuryBondTrade, TradeStore};
use portfolio::transactions::run as transactions;

fn bond_trade(key: &str, maturity: i32, date: i32, price: i64, quantity: i64) -> TreasuryBondTrade {
    TreasuryBondTrade { key: key.to_string(), maturity, date, price, quantity }
}

/// Registering the same identity twice yields the same id and no second
/// asset; distinct identities get distinct ids.
#[test]
fn registration_is_idempotent() {
    let mut assets = AssetStore::new();
    let lft = String::from("LFT");
    let etf = String::from("BOVA11");

    let b1 = register_treasury_bond_asset(&mut assets, &lft, 4000);
    let b2 = register_treasury_bond_asset(&mut assets, &lft, 4000);
    assert_eq!(b1, b2);

    let b3 = register_treasury_bond_asset(&mut assets, &lft, 5000);
    assert_ne!(b1, b3);

    let e1 = register_etf_asset(&mut assets, &etf);
    let e2 = register_etf_asset(&mut assets, &etf);
    assert_eq!(e1, e2);
    assert_ne!(e1, b1);
    assert_eq!(assets.list.len(), 3);
}

/// An id resolves to the variant it was registered under, permanently.
#[test]
fn resolution_returns_the_registered_variant() {
    let mut assets = AssetStore::new();
    let ntnb = String::from("NTN-B");
    let etf = String::from("IVVB11");

    let bond_id = register_treasury_bond_asset(&mut assets, &ntnb, 7300);
    let etf_id = register_etf_asset(&mut assets, &etf);

    match find_asset_in(&assets, bond_id) {
        Some(Assetable::TreasuryBond(b)) => {
            assert_eq!(b.key, "NTN-B");
            assert_eq!(b.maturity_date, 7300);
        },
        _ => panic!("bond id resolved wrongly"),
    }
    match find_asset_in(&assets, etf_id) {
        Some(Assetable::Etf(e)) => assert_eq!(e.ticker, "IVVB11"),
        _ => panic!("fund id resolved wrongly"),
    }
    assert!(find_asset_in(&assets, 99).is_none());
}

/// Resolving a list of ids keeps order and id correspondence, and fails
/// with the offending id when one is unknown.
#[test]
fn retrieval_preserves_order() {
    let mut assets = AssetStore::new();
    let lft = String::from("LFT");
    let etf = String::from("SMAL11");
    let bond_id = register_treasury_bond_asset(&mut assets, &lft, 2000);
    let etf_id = register_etf_asset(&mut assets, &etf);

    let resolved = retrieve_assetables(&assets, &vec![etf_id, bond_id]).unwrap();
    assert_eq!(resolved.len(), 2);
    assert!(matches!(resolved[0], Assetable::Etf(_)));
    assert!(matches!(resolved[1], Assetable::TreasuryBond(_)));

    assert_eq!(
        retrieve_assetables(&assets, &vec![etf_id, 42]),
        Err(LookupError::AssetId(42))
    );
}

/// A price import shorter than what is already held changes nothing; a
/// longer one replaces the history and reports only the growth.
#[test]
fn price_replacement_only_grows() {
    let mut assets = AssetStore::new();
    let mut prices = PriceStore::new();
    let ticker = String::from("BOVA11");

    let added = register_etf_prices(&mut assets, &mut prices, &ticker, vec![(1, 50), (2, 60)]);
    assert_eq!(added, 2);
    let id = register_etf_asset(&mut assets, &ticker);

    let added = register_etf_prices(&mut assets, &mut prices, &ticker, vec![(1, 99)]);
    assert_eq!(added, 0);
    assert_eq!(latest_price(&prices, id, 2), 60);

    let added = register_etf_prices(&mut assets, &mut prices, &ticker, vec![(1, 51), (2, 61), (3, 71)]);
    assert_eq!(added, 1);
    assert_eq!(latest_price(&prices, id, 2), 61);
    assert_eq!(latest_price(&prices, id, 9), 71);
}

/// The as-of lookup takes the latest observation on or before the date
/// and zero before any observation exists.
#[test]
fn as_of_price_lookup() {
    let mut prices = PriceStore::new();
    replace_asset_prices(&mut prices, 1, vec![(5, 100), (8, 120)]);
    replace_asset_prices(&mut prices, 2, vec![(6, 7)]);

    assert_eq!(latest_price(&prices, 1, 4), 0);
    assert_eq!(latest_price(&prices, 1, 5), 100);
    assert_eq!(latest_price(&prices, 1, 7), 100);
    assert_eq!(latest_price(&prices, 1, 8), 120);
    assert_eq!(latest_price(&prices, 2, 9), 7);
    assert_eq!(latest_price(&prices, 3, 9), 0);
}

/// Importing trades creates one portfolio per call and appends the rows
/// under the resolved asset ids.
#[test]
fn trade_import_creates_portfolios() {
    let mut assets = AssetStore::new();
    let mut trades = TradeStore::new();
    let lft = String::from("LFT");
    let etf = String::from("BOVA11");
    let bond_id = register_treasury_bond_asset(&mut assets, &lft, 2000);
    let etf_id = register_etf_asset(&mut assets, &etf);

    let p1 = register_trades(
        &assets,
        &mut trades,
        &vec![EtfTrade { ticker: etf.clone(), date: 1, price: 10, quantity: 2 }],
        &vec![bond_trade("LFT", 2000, 2, 100, 1)],
    )
    .unwrap();
    let p2 = register_trades(&assets, &mut trades, &vec![], &vec![bond_trade("LFT", 2000, 3, 101, 1)])
        .unwrap();

    assert_ne!(p1, p2);
    assert_eq!(trades.list.len(), 3);
    assert_eq!(trades.list[0].portfolio_id, p1);
    assert_eq!(trades.list[0].asset_id, etf_id);
    assert_eq!(trades.list[1].asset_id, bond_id);
    assert_eq!(trades.list[2].portfolio_id, p2);
}

/// An import naming an unregistered identity fails whole: no portfolio,
/// no trades, and the offending input is named.
#[test]
fn trade_import_fails_whole() {
    let mut assets = AssetStore::new();
    let mut trades = TradeStore::new();
    let etf = String::from("BOVA11");
    register_etf_asset(&mut assets, &etf);

    let r = register_trades(
        &assets,
        &mut trades,
        &vec![
            EtfTrade { ticker: etf.clone(), date: 1, price: 10, quantity: 2 },
            EtfTrade { ticker: String::from("NOPE"), date: 1, price: 10, quantity: 2 },
        ],
        &vec![],
    );
    assert_eq!(r, Err(LookupError::EtfTicker(1)));
    assert!(trades.list.is_empty());
    assert_eq!(trades.next_portfolio_id, 1);

    let r = register_trades(&assets, &mut trades, &vec![], &vec![bond_trade("LFT", 2000, 1, 5, 1)]);
    assert_eq!(r, Err(LookupError::BondIdentity(0)));
    assert!(trades.list.is_empty());
}

/// The readout lists every trade of one portfolio with its resolved asset
/// and its transaction amount.
#[test]
fn transaction_readout() {
    let mut assets = AssetStore::new();
    let mut trades = TradeStore::new();
    let etf = String::from("BOVA11");
    register_etf_asset(&mut assets, &etf);

    let pid = register_trades(
        &assets,
        &mut trades,
        &vec![
            EtfTrade { ticker: etf.clone(), date: 1, price: 10, quantity: 2 },
            EtfTrade { ticker: etf.clone(), date: 2, price: 12, quantity: -1 },
        ],
        &vec![],
    )
    .unwrap();
    register_trades(&assets, &mut trades, &vec![EtfTrade { ticker: etf, date: 5, price: 9, quantity: 1 }], &vec![])
        .unwrap();

    let ts = transactions(&assets, &trades, pid).unwrap();
    assert_eq!(ts.len(), 2);
    assert_eq!(ts[0].amount, 20);
    assert_eq!(ts[1].amount, -12);
    assert_eq!(ts[1].quantity, -1);
    assert!(matches!(ts[0].assetable, Assetable::Etf(_)));
}
