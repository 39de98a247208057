//! The asset registry and resolver.
//!
//! An asset is either a government bond, identified by an issuance key and a
//! maturity date, or an exchange-traded fund, identified by its ticker. Each
//! distinct identity is registered once, receives a numeric id, and is
//! immutable thereafter; resolving an id always yields the same variant.

use vstd::prelude::*;

verus! {

/// A government bond: identity is the pair (issuance key, maturity date).
#[derive(Clone, Debug, PartialEq, Eq)]
pub struct TreasuryBond {
    pub id: i32,
    pub maturity_date: i32,
    pub key: String,
}

/// An exchange-traded fund: identity is the ticker.
#[derive(Clone, Debug, PartialEq, Eq)]
pub struct Etf {
    pub id: i32,
    pub ticker: String,
}

/// A registered asset, one of the two concrete kinds.
#[derive(Clone, Debug, PartialEq, Eq)]
pub enum Assetable {
    TreasuryBond(TreasuryBond),
    Etf(Etf),
}

/// An identity that resolves to no registered asset: ledger corruption,
/// fatal to the call that met it. The payload names the unresolvable
/// asset id, or the position of the offending trade in its input list.
#[derive(Clone, Copy, PartialEq, Eq, Structural, Debug)]
pub enum LookupError {
    AssetId(i32),
    EtfTicker(usize),
    BondIdentity(usize),
}

/// The numeric id of an asset, whichever kind it is.
pub open spec fn assetable_id(a: Assetable) -> int {
    match a {
        Assetable::TreasuryBond(b) => b.id as int,
        Assetable::Etf(e) => e.id as int,
    }
}

/// Whether `a` is the bond with this key and maturity.
pub open spec fn is_bond_of(a: Assetable, key: Seq<char>, maturity_date: int) -> bool {
    match a {
        Assetable::TreasuryBond(b) => b.key@ == key && b.maturity_date == maturity_date,
        Assetable::Etf(_) => false,
    }
}

/// Whether `a` is the fund with this ticker.
pub open spec fn is_etf_of(a: Assetable, ticker: Seq<char>) -> bool {
    match a {
        Assetable::TreasuryBond(_) => false,
        Assetable::Etf(e) => e.ticker@ == ticker,
    }
}

/// Whether two assets are of the same kind and carry the same identity:
/// bonds the same key and maturity, funds the same ticker.
pub open spec fn same_identity(a: Assetable, b: Assetable) -> bool {
    match (a, b) {
        (Assetable::TreasuryBond(x), Assetable::TreasuryBond(y)) => x.key@ == y.key@
            && x.maturity_date == y.maturity_date,
        (Assetable::Etf(x), Assetable::Etf(y)) => x.ticker@ == y.ticker@,
        _ => false,
    }
}

/// The earliest-registered asset satisfying `p`, if any.
pub open spec fn find_first(assets: Seq<Assetable>, p: spec_fn(Assetable) -> bool) -> Option<
    Assetable,
>
    decreases assets.len(),
{
    if assets.len() == 0 {
        None
    } else {
        match find_first(assets.drop_last(), p) {
            Some(a) => Some(a),
            None => if p(assets.last()) {
                Some(assets.last())
            } else {
                None
            },
        }
    }
}

/// The registered asset with this id, if any.
pub open spec fn find_asset(assets: Seq<Assetable>, id: int) -> Option<Assetable> {
    find_first(assets, |a: Assetable| assetable_id(a) == id)
}

/// The registered bond with this key and maturity, if any.
pub open spec fn find_bond(assets: Seq<Assetable>, key: Seq<char>, maturity_date: int) -> Option<
    Assetable,
> {
    find_first(assets, |a: Assetable| is_bond_of(a, key, maturity_date))
}

/// The registered fund with this ticker, if any.
pub open spec fn find_etf(assets: Seq<Assetable>, ticker: Seq<char>) -> Option<Assetable> {
    find_first(assets, |a: Assetable| is_etf_of(a, ticker))
}

impl Assetable {
    /// The numeric id of this asset.
    pub fn id(&self) -> (r: i32)
        ensures
            r as int == assetable_id(*self),
    {
        match self {
            Assetable::TreasuryBond(b) => b.id,
            Assetable::Etf(e) => e.id,
        }
    }

    /// An exact copy; unlike a derived clone, its contract says so.
    pub fn duplicate(&self) -> (r: Assetable)
        ensures
            r == *self,
    {
        match self {
            Assetable::TreasuryBond(b) => Assetable::TreasuryBond(
                TreasuryBond { id: b.id, maturity_date: b.maturity_date, key: b.key.clone() },
            ),
            Assetable::Etf(e) => Assetable::Etf(Etf { id: e.id, ticker: e.ticker.clone() }),
        }
    }
}

/// The asset registry: every registered asset, and the id the next
/// registration will receive.
pub struct AssetStore {
    pub list: Vec<Assetable>,
    pub next_id: i32,
}

impl AssetStore {
    /// Ids are positive, below `next_id` and distinct; no two assets share
    /// an identity.
    pub open spec fn wf(self) -> bool {
        &&& 1 <= self.next_id
        &&& forall|i: int|
            0 <= i < self.list@.len() ==> 1 <= assetable_id(#[trigger] self.list@[i]) < self.next_id
        &&& forall|i: int, j: int|
            0 <= i < j < self.list@.len() ==> assetable_id(#[trigger] self.list@[i])
                != assetable_id(#[trigger] self.list@[j])
        &&& forall|i: int, j: int|
            0 <= i < j < self.list@.len() ==> !same_identity(
                #[trigger] self.list@[i],
                #[trigger] self.list@[j],
            )
    }

    /// A registry with no assets.
    pub fn new() -> (r: AssetStore)
        ensures
            r.wf(),
            r.list@ == Seq::<Assetable>::empty(),
            r.next_id == 1,
    {
        AssetStore { list: Vec::new(), next_id: 1 }
    }
}

/// The registered asset with this id, duplicated out of the registry.
pub fn find_asset_in(assets: &AssetStore, id: i32) -> (r: Option<Assetable>)
    ensures
        r == find_asset(assets.list@, id as int),
{
    let ghost s = assets.list@;
    let mut found: Option<Assetable> = None;
    let mut i: usize = 0;
    while i < assets.list.len()
        invariant
            s == assets.list@,
            0 <= i <= s.len(),
            found == find_asset(s.take(i as int), id as int),
        decreases s.len() - i,
    {
        proof {
            assert(s.take(i + 1).drop_last() =~= s.take(i as int));
            assert(s.take(i + 1).last() == s[i as int]);
        }
        if found.is_none() && assets.list[i].id() == id {
            found = Some(assets.list[i].duplicate());
        }
        i = i + 1;
    }
    proof {
        assert(s.take(s.len() as int) =~= s);
    }
    found
}

/// For each requested id, the registered asset of that id, in request
/// order; fails on the first id that resolves to nothing.
pub fn retrieve_assetables(assets: &AssetStore, asset_ids: &Vec<i32>) -> (r: Result<
    Vec<Assetable>,
    LookupError,
>)
    ensures
        r is Ok <==> (forall|j: int|
            0 <= j < asset_ids@.len() ==> find_asset(
                assets.list@,
                #[trigger] asset_ids@[j] as int,
            ) is Some),
        r matches Ok(v) ==> v@.len() == asset_ids@.len() && (forall|j: int|
            0 <= j < asset_ids@.len() ==> Some(#[trigger] v@[j]) == find_asset(
                assets.list@,
                asset_ids@[j] as int,
            )),
        r matches Err(e) ==> e matches LookupError::AssetId(id) && asset_ids@.contains(id)
            && find_asset(assets.list@, id as int) is None,
{
    let mut v: Vec<Assetable> = Vec::new();
    let mut j: usize = 0;
    while j < asset_ids.len()
        invariant
            0 <= j <= asset_ids@.len(),
            v@.len() == j,
            forall|k: int|
                0 <= k < j ==> Some(#[trigger] v@[k]) == find_asset(
                    assets.list@,
                    asset_ids@[k] as int,
                ),
        decreases asset_ids@.len() - j,
    {
        match find_asset_in(assets, asset_ids[j]) {
            Some(a) => {
                v.push(a);
            },
            None => {
                return Err(LookupError::AssetId(asset_ids[j]));
            },
        }
        j = j + 1;
    }
    proof {
        assert forall|k: int|
            0 <= k < asset_ids@.len() implies find_asset(
            assets.list@,
            #[trigger] asset_ids@[k] as int,
        ) is Some by {
            assert(Some(v@[k]) == find_asset(assets.list@, asset_ids@[k] as int));
        }
    }
    Ok(v)
}

/// What registering a bond identity does to the registry: an existing
/// identity leaves it untouched and yields its id; a new one is appended
/// under the next fresh id.
pub open spec fn bond_registration(
    pre: AssetStore,
    post: AssetStore,
    key: Seq<char>,
    maturity_date: int,
    id: int,
) -> bool {
    match find_bond(pre.list@, key, maturity_date) {
        Some(a) => {
            &&& id == assetable_id(a)
            &&& post.list@ == pre.list@
            &&& post.next_id == pre.next_id
        },
        None => {
            &&& post.list@.len() == pre.list@.len() + 1
            &&& post.list@.drop_last() == pre.list@
            &&& is_bond_of(post.list@.last(), key, maturity_date)
            &&& assetable_id(post.list@.last()) == pre.next_id
            &&& id == pre.next_id
            &&& post.next_id == pre.next_id + 1
        },
    }
}

/// The id that registering this bond identity yields.
pub open spec fn bond_registration_id(pre: AssetStore, key: Seq<char>, maturity_date: int) -> int {
    match find_bond(pre.list@, key, maturity_date) {
        Some(a) => assetable_id(a),
        None => pre.next_id as int,
    }
}

/// What registering a ticker does to the registry: an existing ticker
/// leaves it untouched and yields its id; a new one is appended under the
/// next fresh id.
pub open spec fn etf_registration(pre: AssetStore, post: AssetStore, ticker: Seq<char>, id: int) -> bool {
    match find_etf(pre.list@, ticker) {
        Some(a) => {
            &&& id == assetable_id(a)
            &&& post.list@ == pre.list@
            &&& post.next_id == pre.next_id
        },
        None => {
            &&& post.list@.len() == pre.list@.len() + 1
            &&& post.list@.drop_last() == pre.list@
            &&& is_etf_of(post.list@.last(), ticker)
            &&& assetable_id(post.list@.last()) == pre.next_id
            &&& id == pre.next_id
            &&& post.next_id == pre.next_id + 1
        },
    }
}

/// The id that registering this ticker yields.
pub open spec fn etf_registration_id(pre: AssetStore, ticker: Seq<char>) -> int {
    match find_etf(pre.list@, ticker) {
        Some(a) => assetable_id(a),
        None => pre.next_id as int,
    }
}

/// The id of the registered bond with this key and maturity, if any; when
/// there is none, no registered asset carries that identity.
pub fn find_bond_in(assets: &AssetStore, key: &String, maturity_date: i32) -> (r: Option<i32>)
    ensures
        match r {
            Some(id) => find_bond(assets.list@, key@, maturity_date as int) matches Some(a)
                && assetable_id(a) == id as int,
            None => find_bond(assets.list@, key@, maturity_date as int) is None && (forall|j: int|
                0 <= j < assets.list@.len() ==> !is_bond_of(
                    #[trigger] assets.list@[j],
                    key@,
                    maturity_date as int,
                )),
        },
{
    let ghost s = assets.list@;
    let mut found: Option<i32> = None;
    let mut i: usize = 0;
    while i < assets.list.len()
        invariant
            s == assets.list@,
            0 <= i <= s.len(),
            match found {
                Some(id) => find_bond(s.take(i as int), key@, maturity_date as int) matches Some(a)
                    && assetable_id(a) == id as int,
                None => find_bond(s.take(i as int), key@, maturity_date as int) is None && (forall|
                    j: int,
                |
                    0 <= j < i ==> !is_bond_of(#[trigger] s[j], key@, maturity_date as int)),
            },
        decreases s.len() - i,
    {
        proof {
            assert(s.take(i + 1).drop_last() =~= s.take(i as int));
            assert(s.take(i + 1).last() == s[i as int]);
        }
        if found.is_none() {
            let hit = match &assets.list[i] {
                Assetable::TreasuryBond(b) => b.maturity_date == maturity_date && b.key == *key,
                Assetable::Etf(_) => false,
            };
            if hit {
                found = Some(assets.list[i].id());
            }
        }
        i = i + 1;
    }
    proof {
        assert(s.take(s.len() as int) =~= s);
    }
    found
}

/// The id of the registered fund with this ticker, if any; when there is
/// none, no registered asset carries that identity.
pub fn find_etf_in(assets: &AssetStore, ticker: &String) -> (r: Option<i32>)
    ensures
        match r {
            Some(id) => find_etf(assets.list@, ticker@) matches Some(a) && assetable_id(a)
                == id as int,
            None => find_etf(assets.list@, ticker@) is None && (forall|j: int|
                0 <= j < assets.list@.len() ==> !is_etf_of(#[trigger] assets.list@[j], ticker@)),
        },
{
    let ghost s = assets.list@;
    let mut found: Option<i32> = None;
    let mut i: usize = 0;
    while i < assets.list.len()
        invariant
            s == assets.list@,
            0 <= i <= s.len(),
            match found {
                Some(id) => find_etf(s.take(i as int), ticker@) matches Some(a) && assetable_id(a)
                    == id as int,
                None => find_etf(s.take(i as int), ticker@) is None && (forall|j: int|
                    0 <= j < i ==> !is_etf_of(#[trigger] s[j], ticker@)),
            },
        decreases s.len() - i,
    {
        proof {
            assert(s.take(i + 1).drop_last() =~= s.take(i as int));
            assert(s.take(i + 1).last() == s[i as int]);
        }
        if found.is_none() {
            let hit = match &assets.list[i] {
                Assetable::TreasuryBond(_) => false,
                Assetable::Etf(e) => e.ticker == *ticker,
            };
            if hit {
                found = Some(assets.list[i].id());
            }
        }
        i = i + 1;
    }
    proof {
        assert(s.take(s.len() as int) =~= s);
    }
    found
}

/// The id of the bond with this key and maturity, registering it first if
/// it is new. A bond identity is registered at most once.
pub fn register_treasury_bond_asset(store: &mut AssetStore, key: &String, maturity_date: i32) -> (r:
    i32)
    requires
        old(store).wf(),
        old(store).next_id < i32::MAX,
    ensures
        final(store).wf(),
        bond_registration(*old(store), *final(store), key@, maturity_date as int, r as int),
        r as int == bond_registration_id(*old(store), key@, maturity_date as int),
{
    let ghost s = store.list@;
    match find_bond_in(store, key, maturity_date) {
        Some(id) => id,
        None => {
            let id = store.next_id;
            let bond = TreasuryBond { id, maturity_date, key: key.clone() };
            store.list.push(Assetable::TreasuryBond(bond));
            store.next_id = id + 1;
            proof {
                assert(store.list@.drop_last() =~= s);
                assert forall|i2: int, j2: int|
                    0 <= i2 < j2 < store.list@.len() implies !same_identity(
                    #[trigger] store.list@[i2],
                    #[trigger] store.list@[j2],
                ) by {
                    if j2 == store.list@.len() - 1 {
                        assert(!is_bond_of(s[i2], key@, maturity_date as int));
                    }
                }
            }
            id
        },
    }
}

/// The id of the fund with this ticker, registering it first if it is new.
/// A ticker is registered at most once.
pub fn register_etf_asset(store: &mut AssetStore, ticker: &String) -> (r: i32)
    requires
        old(store).wf(),
        old(store).next_id < i32::MAX,
    ensures
        final(store).wf(),
        etf_registration(*old(store), *final(store), ticker@, r as int),
        r as int == etf_registration_id(*old(store), ticker@),
{
    let ghost s = store.list@;
    match find_etf_in(store, ticker) {
        Some(id) => id,
        None => {
            let id = store.next_id;
            let etf = Etf { id, ticker: ticker.clone() };
            store.list.push(Assetable::Etf(etf));
            store.next_id = id + 1;
            proof {
                assert(store.list@.drop_last() =~= s);
                assert forall|i2: int, j2: int|
                    0 <= i2 < j2 < store.list@.len() implies !same_identity(
                    #[trigger] store.list@[i2],
                    #[trigger] store.list@[j2],
                ) by {
                    if j2 == store.list@.len() - 1 {
                        assert(!is_etf_of(s[i2], ticker@));
                    }
                }
            }
            id
        },
    }
}

} // verus!
