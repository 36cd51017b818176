use crate::error::CatalogError;
use crate::naming::{template_of, version_of};
use crate::web::{AssetData, AssetDataView};
use vstd::prelude::*;
use vstd::seq_lib::to_multiset_contains;

verus! {

/// The index of a release: template name, then version, then asset.
pub type Catalog = Map<Seq<char>, Map<Seq<char>, AssetDataView>>;

/// The views of a sequence of assets.
pub open spec fn views_of(assets: Seq<AssetData>) -> Seq<AssetDataView> {
    assets.map_values(|a: AssetData| a@)
}

/// The slot that an asset's name stands for: a template and a version.
pub open spec fn key_of(asset: AssetDataView) -> (Seq<char>, Seq<char>) {
    (template_of(asset.name), version_of(asset.name))
}

/// The slot of each asset, in the order of the assets.
pub open spec fn keys_of(assets: Seq<AssetDataView>) -> Seq<(Seq<char>, Seq<char>)> {
    assets.map_values(|a: AssetDataView| key_of(a))
}

/// The asset that a release offers for `template` and `version`: the last
/// one of the listing whose name stands for that slot.
pub open spec fn latest_at(
    assets: Seq<AssetDataView>,
    template: Seq<char>,
    version: Seq<char>,
) -> Option<AssetDataView> {
    match keys_of(assets).index_of_last((template, version)) {
        Some(i) => Some(assets[i]),
        None => None,
    }
}

/// The catalog of a release that lists `assets`.
///
/// A template is present when some asset's name stands for it, a version
/// of it when some asset's name stands for both, and the asset found there
/// is the last such one.
pub open spec fn catalog_of(assets: Seq<AssetDataView>) -> Catalog {
    Map::new(
        |t: Seq<char>| exists|i: int| 0 <= i < assets.len() && template_of(assets[i].name) == t,
        |t: Seq<char>|
            Map::new(
                |v: Seq<char>| latest_at(assets, t, v) is Some,
                |v: Seq<char>| latest_at(assets, t, v).unwrap(),
            ),
    )
}

/// The catalog `c` after `asset` has been put at `template` and `version`,
/// in place of what stood there.
pub open spec fn placed(
    c: Catalog,
    template: Seq<char>,
    version: Seq<char>,
    asset: AssetDataView,
) -> Catalog {
    let versions = if c.contains_key(template) {
        c[template]
    } else {
        Map::empty()
    };
    c.insert(template, versions.insert(version, asset))
}

/// What a query for the support of `version` by `template` answers.
pub open spec fn supported(c: Catalog, template: Seq<char>, version: Seq<char>) -> Result<
    bool,
    CatalogError,
> {
    if c.contains_key(template) {
        Ok(c[template].contains_key(version))
    } else {
        Err(CatalogError::UnknownTemplate)
    }
}

/// What a query for the asset of `template` at `version` answers.
pub open spec fn resolved(c: Catalog, template: Seq<char>, version: Seq<char>) -> Result<
    AssetDataView,
    CatalogError,
> {
    if !c.contains_key(template) {
        Err(CatalogError::UnknownTemplate)
    } else if !c[template].contains_key(version) {
        Err(CatalogError::UnsupportedVersion)
    } else {
        Ok(c[template][version])
    }
}

/// The latest asset of a slot is one of the listing, and its name stands
/// for the slot; a slot has one exactly when some asset's name stands for it.
pub proof fn lemma_latest_at(assets: Seq<AssetDataView>, template: Seq<char>, version: Seq<char>)
    ensures
        latest_at(assets, template, version) is Some <==> exists|i: int|
            0 <= i < assets.len() && key_of(assets[i]) == (template, version),
        latest_at(assets, template, version) is Some ==> {
            let found = latest_at(assets, template, version).unwrap();
            &&& assets.contains(found)
            &&& key_of(found) == (template, version)
        },
{
    let keys = keys_of(assets);
    keys.index_of_last_ensures((template, version));
    if latest_at(assets, template, version) is Some {
        let i = keys.index_of_last((template, version)).unwrap();
        assert(key_of(assets[i]) == (template, version));
    }
    if exists|i: int| 0 <= i < assets.len() && key_of(assets[i]) == (template, version) {
        let i = choose|i: int| 0 <= i < assets.len() && key_of(assets[i]) == (template, version);
        assert(keys[i] == (template, version));
    }
}

/// One more asset at the end of the listing takes its own slot and leaves
/// the others as they were.
pub proof fn lemma_latest_at_push(
    assets: Seq<AssetDataView>,
    asset: AssetDataView,
    template: Seq<char>,
    version: Seq<char>,
)
    ensures
        latest_at(assets.push(asset), template, version) == if key_of(asset) == (
            template,
            version,
        ) {
            Some(asset)
        } else {
            latest_at(assets, template, version)
        },
{
    let key = (template, version);
    let keys = keys_of(assets);
    let more = keys_of(assets.push(asset));
    assert(more =~= keys.push(key_of(asset)));
    keys.index_of_last_ensures(key);
    more.index_of_last_ensures(key);
    if key_of(asset) == key {
        assert(more[assets.len() as int] == key);
    } else if more.contains(key) {
        let i = choose|i: int| 0 <= i < more.len() && more[i] == key;
        assert(keys[i] == key);
        let m = more.index_of_last(key).unwrap();
        let k = keys.index_of_last(key).unwrap();
        assert(keys[m] == key);
        assert(more[k] == key);
        assert(m == k);
    } else if keys.contains(key) {
        let i = choose|i: int| 0 <= i < keys.len() && keys[i] == key;
        assert(more[i] == key);
    }
}

/// A listing without assets has an empty catalog.
pub proof fn lemma_catalog_of_empty()
    ensures
        catalog_of(Seq::empty()) == Map::<Seq<char>, Map<Seq<char>, AssetDataView>>::empty(),
{
    assert(catalog_of(Seq::empty()) =~= Map::<Seq<char>, Map<Seq<char>, AssetDataView>>::empty());
}

/// One more asset at the end of the listing is put at its slot, in place
/// of what stood there.
pub proof fn lemma_catalog_of_push(assets: Seq<AssetDataView>, asset: AssetDataView)
    ensures
        catalog_of(assets.push(asset)) == placed(
            catalog_of(assets),
            template_of(asset.name),
            version_of(asset.name),
            asset,
        ),
{
    let more = assets.push(asset);
    let a = catalog_of(more);
    let c = catalog_of(assets);
    let b = placed(c, template_of(asset.name), version_of(asset.name), asset);
    assert forall|t: Seq<char>| a.contains_key(t) == b.contains_key(t) by {
        if a.contains_key(t) {
            let i = choose|i: int| 0 <= i < more.len() && template_of(more[i].name) == t;
            if i < assets.len() {
                assert(template_of(assets[i].name) == t);
            }
        }
        if c.contains_key(t) {
            let i = choose|i: int| 0 <= i < assets.len() && template_of(assets[i].name) == t;
            assert(template_of(more[i].name) == t);
        }
        if t == template_of(asset.name) {
            assert(template_of(more[assets.len() as int].name) == t);
        }
    }
    assert forall|t: Seq<char>| a.contains_key(t) implies a[t] =~= b[t] by {
        assert forall|v: Seq<char>| #[trigger]
            a[t].contains_key(v) == b[t].contains_key(v) && (a[t].contains_key(v) ==> a[t][v]
                == b[t][v]) by {
            lemma_latest_at_push(assets, asset, t, v);
            lemma_latest_at(assets, t, v);
            if latest_at(assets, t, v) is Some {
                let i = choose|i: int| 0 <= i < assets.len() && key_of(assets[i]) == (t, v);
                assert(template_of(assets[i].name) == t);
            }
        }
        assert(forall|v: Seq<char>| b[t].contains_key(v) ==> a[t].contains_key(v));
    }
    assert(a =~= b);
}

/// Every template of the catalog is offered for some version.
pub proof fn lemma_template_has_version(assets: Seq<AssetDataView>, template: Seq<char>)
    requires
        catalog_of(assets).contains_key(template),
    ensures
        exists|version: Seq<char>| catalog_of(assets)[template].contains_key(version),
{
    let i = choose|i: int| 0 <= i < assets.len() && template_of(assets[i].name) == template;
    let version = version_of(assets[i].name);
    lemma_latest_at(assets, template, version);
    assert(key_of(assets[i]) == (template, version));
    assert(catalog_of(assets)[template].contains_key(version));
}

/// What the catalog holds at a slot is an asset of the listing whose name
/// stands for that slot, so no asset is found at two slots.
pub proof fn lemma_found_at_own_slot(
    assets: Seq<AssetDataView>,
    template: Seq<char>,
    version: Seq<char>,
)
    ensures
        match resolved(catalog_of(assets), template, version) {
            Ok(found) => assets.contains(found) && key_of(found) == (template, version),
            Err(_) => true,
        },
{
    lemma_latest_at(assets, template, version);
}

/// Every listed asset is found at the slot that its name stands for, and
/// at no other, unless a later and different asset of the listing took
/// that slot.
pub proof fn lemma_asset_reachable(assets: Seq<AssetDataView>, i: int)
    requires
        0 <= i < assets.len(),
        forall|j: int|
            i < j < assets.len() && key_of(assets[j]) == key_of(assets[i]) ==> assets[j]
                == assets[i],
    ensures
        resolved(catalog_of(assets), template_of(assets[i].name), version_of(assets[i].name))
            == Ok::<AssetDataView, CatalogError>(assets[i]),
        forall|template: Seq<char>, version: Seq<char>|
            resolved(catalog_of(assets), template, version) == Ok::<AssetDataView, CatalogError>(
                assets[i],
            ) ==> (template, version) == key_of(assets[i]),
{
    let key = key_of(assets[i]);
    let keys = keys_of(assets);
    keys.index_of_last_ensures(key);
    assert(keys[i] == key);
    let last = keys.index_of_last(key).unwrap();
    assert(last >= i);
    assert(key_of(assets[last]) == key);
    assert(template_of(assets[i].name) == key.0);
    assert forall|template: Seq<char>, version: Seq<char>|
        resolved(catalog_of(assets), template, version) == Ok::<AssetDataView, CatalogError>(
            assets[i],
        ) implies (template, version) == key_of(assets[i]) by {
        lemma_found_at_own_slot(assets, template, version);
    }
}

/// The templates of a catalog, and the versions of each, do not depend on
/// the order in which the release lists its assets.
pub proof fn lemma_templates_order_independent(a: Seq<AssetDataView>, b: Seq<AssetDataView>)
    requires
        a.to_multiset() == b.to_multiset(),
    ensures
        catalog_of(a).dom() == catalog_of(b).dom(),
        forall|template: Seq<char>| #[trigger]
            catalog_of(a).contains_key(template) ==> catalog_of(a)[template].dom() == catalog_of(
                b,
            )[template].dom(),
{
    lemma_same_slots(a, b);
    lemma_same_slots(b, a);
    assert(catalog_of(a).dom() =~= catalog_of(b).dom());
    assert forall|template: Seq<char>| #[trigger]
        catalog_of(a).contains_key(template) implies catalog_of(a)[template].dom() == catalog_of(
        b,
    )[template].dom() by {
        assert(catalog_of(a)[template].dom() =~= catalog_of(b)[template].dom());
    }
}

/// Where no two assets of a release stand for the same slot, the whole
/// catalog does not depend on the order in which the release lists them.
pub proof fn lemma_catalog_order_independent(a: Seq<AssetDataView>, b: Seq<AssetDataView>)
    requires
        a.to_multiset() == b.to_multiset(),
        keys_of(a).no_duplicates(),
    ensures
        catalog_of(a) == catalog_of(b),
{
    lemma_same_slots(a, b);
    lemma_same_slots(b, a);
    assert forall|t: Seq<char>| #[trigger]
        catalog_of(a).contains_key(t) implies catalog_of(a)[t] =~= catalog_of(b)[t] by {
        assert forall|v: Seq<char>| #[trigger]
            catalog_of(a)[t].contains_key(v) implies catalog_of(a)[t][v] == catalog_of(b)[t][v] by {
            lemma_latest_at(a, t, v);
            lemma_latest_at(b, t, v);
            let x = latest_at(a, t, v).unwrap();
            let y = latest_at(b, t, v).unwrap();
            lemma_listed_in_both(b, a, y);
            let i = choose|i: int| 0 <= i < a.len() && a[i] == x;
            let j = choose|j: int| 0 <= j < a.len() && a[j] == y;
            assert(keys_of(a)[i] == (t, v));
            assert(keys_of(a)[j] == (t, v));
        }
    }
    assert(catalog_of(a) =~= catalog_of(b));
}

/// Two listings of the same assets hold the same assets.
proof fn lemma_listed_in_both(a: Seq<AssetDataView>, b: Seq<AssetDataView>, asset: AssetDataView)
    requires
        a.to_multiset() == b.to_multiset(),
        a.contains(asset),
    ensures
        b.contains(asset),
{
    to_multiset_contains(a, asset);
    to_multiset_contains(b, asset);
}

/// Every template and slot that one listing fills is filled by any listing
/// of the same assets.
proof fn lemma_same_slots(a: Seq<AssetDataView>, b: Seq<AssetDataView>)
    requires
        a.to_multiset() == b.to_multiset(),
    ensures
        forall|t: Seq<char>| #[trigger]
            catalog_of(a).contains_key(t) ==> catalog_of(b).contains_key(t),
        forall|t: Seq<char>, v: Seq<char>|
            latest_at(a, t, v) is Some ==> latest_at(b, t, v) is Some,
{
    assert forall|t: Seq<char>| #[trigger] catalog_of(a).contains_key(t) implies catalog_of(
        b,
    ).contains_key(t) by {
        let i = choose|i: int| 0 <= i < a.len() && template_of(a[i].name) == t;
        assert(a.contains(a[i]));
        lemma_listed_in_both(a, b, a[i]);
        let j = choose|j: int| 0 <= j < b.len() && b[j] == a[i];
        assert(template_of(b[j].name) == t);
    }
    assert forall|t: Seq<char>, v: Seq<char>| latest_at(a, t, v) is Some implies latest_at(
        b,
        t,
        v,
    ) is Some by {
        lemma_latest_at(a, t, v);
        lemma_latest_at(b, t, v);
        let x = latest_at(a, t, v).unwrap();
        lemma_listed_in_both(a, b, x);
        let j = choose|j: int| 0 <= j < b.len() && b[j] == x;
        assert(key_of(b[j]) == (t, v));
    }
}

} // verus!
