use crate::catalog::{
    catalog_of, lemma_catalog_of_empty, lemma_catalog_of_push, placed, resolved, supported,
    views_of, Catalog,
};
use crate::error::{CatalogError, CommandError};
use crate::naming::{parse_asset_name, AssetKey};
use crate::table::{
    keyed_at, keys_distinct, lemma_table_entry, lemma_table_keys, lemma_table_put, table, Entries,
};
use crate::text::{same_text, texts};
use vstd::prelude::*;

verus! {

/// One file uploaded to a release.
#[derive(Debug)]
pub struct AssetData {
    /// Where the data needed to download the file is fetched from.
    pub url: String,
    /// The identifier that the host gave the file.
    pub id: u32,
    /// The file name as it was published.
    pub name: String,
}

/// What an [`AssetData`] holds, as mathematical values.
pub struct AssetDataView {
    pub url: Seq<char>,
    pub id: u32,
    pub name: Seq<char>,
}

impl View for AssetData {
    type V = AssetDataView;

    open spec fn view(&self) -> AssetDataView {
        AssetDataView { url: self.url@, id: self.id, name: self.name@ }
    }
}

impl Clone for AssetData {
    fn clone(&self) -> (r: Self)
        ensures
            r@ == self@,
    {
        AssetData { url: self.url.clone(), id: self.id, name: self.name.clone() }
    }
}

/// The assets of one release, as the host lists them.
#[derive(Debug)]
pub struct ReleaseData {
    pub assets: Vec<AssetData>,
}

/// One version of a template, with its asset.
#[derive(Debug)]
struct VersionSlot {
    version: String,
    asset: AssetData,
}

/// One template, with the versions it is offered for.
#[derive(Debug)]
struct TemplateSlot {
    template: String,
    versions: Vec<VersionSlot>,
}

spec fn version_entries(vs: Seq<VersionSlot>) -> Entries<AssetDataView> {
    vs.map_values(|s: VersionSlot| (s.version@, s.asset@))
}

spec fn template_entries(ts: Seq<TemplateSlot>) -> Entries<Map<Seq<char>, AssetDataView>> {
    ts.map_values(|t: TemplateSlot| (t.template@, table(version_entries(t.versions@))))
}

/// No template stands twice, and each has versions, none of them twice.
spec fn slots_wf(ts: Seq<TemplateSlot>) -> bool {
    &&& keys_distinct(template_entries(ts))
    &&& forall|i: int|
        0 <= i < ts.len() ==> (#[trigger] ts[i]).versions@.len() > 0 && keys_distinct(
            version_entries(ts[i].versions@),
        )
}

spec fn slots_model(ts: Seq<TemplateSlot>) -> Catalog {
    table(template_entries(ts))
}

fn find_version(vs: &Vec<VersionSlot>, version: &str) -> (r: Option<usize>)
    ensures
        match r {
            Some(j) => keyed_at(version_entries(vs@), version@, j as int),
            None => forall|j: int| !keyed_at(version_entries(vs@), version@, j),
        },
{
    let mut j: usize = 0;
    while j < vs.len()
        invariant
            j <= vs.len(),
            forall|k: int| 0 <= k < j ==> !keyed_at(version_entries(vs@), version@, k),
        decreases vs.len() - j,
    {
        if same_text(vs[j].version.as_str(), version) {
            return Some(j);
        }
        j += 1;
    }
    None
}

fn find_template(ts: &Vec<TemplateSlot>, template: &str) -> (r: Option<usize>)
    ensures
        match r {
            Some(i) => keyed_at(template_entries(ts@), template@, i as int),
            None => forall|i: int| !keyed_at(template_entries(ts@), template@, i),
        },
{
    let mut i: usize = 0;
    while i < ts.len()
        invariant
            i <= ts.len(),
            forall|k: int| 0 <= k < i ==> !keyed_at(template_entries(ts@), template@, k),
        decreases ts.len() - i,
    {
        if same_text(ts[i].template.as_str(), template) {
            return Some(i);
        }
        i += 1;
    }
    None
}

/// Puts `asset` at `version`, in place of what stood there.
fn put_version(vs: &mut Vec<VersionSlot>, version: String, asset: AssetData)
    requires
        keys_distinct(version_entries(old(vs)@)),
    ensures
        final(vs)@.len() > 0,
        keys_distinct(version_entries(final(vs)@)),
        table(version_entries(final(vs)@)) == table(version_entries(old(vs)@)).insert(
            version@,
            asset@,
        ),
{
    let found = find_version(vs, version.as_str());
    let slot = VersionSlot { version, asset };
    match found {
        Some(j) => {
            vs[j] = slot;
            assert(version_entries(vs@) =~= version_entries(old(vs)@).update(
                j as int,
                (slot.version@, slot.asset@),
            ));
        },
        None => {
            vs.push(slot);
            assert(version_entries(vs@) =~= version_entries(old(vs)@).push(
                (slot.version@, slot.asset@),
            ));
        },
    }
    proof {
        lemma_table_put(
            version_entries(old(vs)@),
            version_entries(vs@),
            (slot.version@, slot.asset@),
        );
    }
}

/// Puts `asset` at the slot `key`, in place of what stood there.
fn put_asset(ts: &mut Vec<TemplateSlot>, key: AssetKey, asset: AssetData)
    requires
        slots_wf(old(ts)@),
    ensures
        slots_wf(final(ts)@),
        final(ts)@.len() > 0,
        slots_model(final(ts)@) == placed(
            slots_model(old(ts)@),
            key.template@,
            key.version@,
            asset@,
        ),
{
    let ghost before = template_entries(ts@);
    let found = find_template(ts, key.template.as_str());
    match found {
        Some(i) => {
            proof {
                lemma_table_entry(before, i as int);
            }
            put_version(&mut ts[i].versions, key.version, asset);
            assert(template_entries(ts@) =~= before.update(
                i as int,
                (key.template@, table(version_entries(ts@[i as int].versions@))),
            ));
        },
        None => {
            let mut versions: Vec<VersionSlot> = Vec::new();
            assert(table(version_entries(versions@)) =~= Map::empty());
            put_version(&mut versions, key.version, asset);
            ts.push(TemplateSlot { template: key.template, versions });
            assert(template_entries(ts@) =~= before.push(
                (key.template@, table(version_entries(versions@))),
            ));
        },
    }
    proof {
        let inner = if slots_model(old(ts)@).contains_key(key.template@) {
            slots_model(old(ts)@)[key.template@]
        } else {
            Map::empty()
        };
        lemma_table_put(
            before,
            template_entries(ts@),
            (key.template@, inner.insert(key.version@, asset@)),
        );
    }
}

/// The catalog of one release: for each template, and each version that
/// the template is offered for, the asset to download.
///
/// A catalog is built once and only read after that.
#[derive(Debug)]
pub struct Release {
    assets: Vec<TemplateSlot>,
}

impl View for Release {
    type V = Catalog;

    closed spec fn view(&self) -> Catalog {
        slots_model(self.assets@)
    }
}

/// Whether `release` is the catalog of the assets that `data` lists.
pub open spec fn built_from(release: Release, data: ReleaseData) -> bool {
    data.assets@.len() > 0 && release@ == catalog_of(views_of(data.assets@))
}

impl Release {
    #[verifier::type_invariant]
    spec fn well_formed(self) -> bool {
        self.assets@.len() > 0 && slots_wf(self.assets@)
    }

    /// Builds the catalog of a release from the assets that it lists.
    ///
    /// Each asset goes to the slot that its name stands for; where two
    /// names stand for one slot, the later asset takes it. A release
    /// without assets has no catalog.
    pub fn new(release: ReleaseData) -> (r: Result<Release, CatalogError>)
        ensures
            match r {
                Ok(built) => built_from(built, release),
                Err(e) => release.assets@.len() == 0 && e == CatalogError::EmptyRelease,
            },
    {
        if release.assets.len() == 0 {
            return Err(CatalogError::EmptyRelease);
        }
        let ghost listed = views_of(release.assets@);
        let mut slots: Vec<TemplateSlot> = Vec::new();
        proof {
            lemma_catalog_of_empty();
            assert(listed.take(0) =~= Seq::empty());
            assert(slots_model(slots@) =~= Map::empty());
        }
        let mut k: usize = 0;
        while k < release.assets.len()
            invariant
                k <= release.assets.len(),
                listed == views_of(release.assets@),
                slots_wf(slots@),
                k > 0 ==> slots@.len() > 0,
                slots_model(slots@) == catalog_of(listed.take(k as int)),
            decreases release.assets.len() - k,
        {
            let asset = &release.assets[k];
            let key = parse_asset_name(asset.name.as_str());
            proof {
                lemma_catalog_of_push(listed.take(k as int), listed[k as int]);
                assert(listed.take(k + 1) =~= listed.take(k as int).push(listed[k as int]));
            }
            put_asset(&mut slots, key, asset.clone());
            k += 1;
        }
        assert(listed.take(k as int) =~= listed);
        Ok(Release { assets: slots })
    }

    /// Whether `template` is offered for `version`. Asking about a
    /// template that the catalog does not hold is an error.
    pub fn is_supported_version(&self, template: &str, version: &str) -> (r: Result<
        bool,
        CatalogError,
    >)
        ensures
            r == supported(self@, template@, version@),
    {
        proof {
            use_type_invariant(self);
        }
        match find_template(&self.assets, template) {
            Some(i) => {
                proof {
                    lemma_table_entry(template_entries(self.assets@), i as int);
                }
                let versions = &self.assets[i].versions;
                match find_version(versions, version) {
                    Some(j) => {
                        proof {
                            lemma_table_entry(version_entries(versions@), j as int);
                        }
                        Ok(true)
                    },
                    None => Ok(false),
                }
            },
            None => Err(CatalogError::UnknownTemplate),
        }
    }

    /// The asset of `template` for `version`.
    pub fn get_asset(&self, template: &str, version: &str) -> (r: Result<&AssetData, CatalogError>)
        ensures
            match r {
                Ok(asset) => resolved(self@, template@, version@) == Ok::<
                    AssetDataView,
                    CatalogError,
                >(asset@),
                Err(e) => resolved(self@, template@, version@) == Err::<
                    AssetDataView,
                    CatalogError,
                >(e),
            },
    {
        proof {
            use_type_invariant(self);
        }
        match find_template(&self.assets, template) {
            Some(i) => {
                proof {
                    lemma_table_entry(template_entries(self.assets@), i as int);
                }
                let versions = &self.assets[i].versions;
                match find_version(versions, version) {
                    Some(j) => {
                        proof {
                            lemma_table_entry(version_entries(versions@), j as int);
                        }
                        Ok(&versions[j].asset)
                    },
                    None => Err(CatalogError::UnsupportedVersion),
                }
            },
            None => Err(CatalogError::UnknownTemplate),
        }
    }

    /// The names of the templates, each once, in no particular order. There
    /// is at least one.
    pub fn get_templates(&self) -> (names: Vec<String>)
        ensures
            names@.len() > 0,
            texts(names@).no_duplicates(),
            texts(names@).to_set() == self@.dom(),
    {
        proof {
            use_type_invariant(self);
        }
        let ghost entries = template_entries(self.assets@);
        let mut names: Vec<String> = Vec::new();
        let mut i: usize = 0;
        while i < self.assets.len()
            invariant
                i <= self.assets.len(),
                entries == template_entries(self.assets@),
                names@.len() == i,
                forall|k: int| 0 <= k < i ==> (#[trigger] names@[k])@ == entries[k].0,
            decreases self.assets.len() - i,
        {
            names.push(self.assets[i].template.clone());
            i += 1;
        }
        proof {
            lemma_table_keys(entries, texts(names@));
        }
        names
    }

    /// The versions that `template` is offered for, each once, in no
    /// particular order. There is at least one.
    pub fn get_template_versions(&self, template: &str) -> (r: Result<Vec<String>, CatalogError>)
        ensures
            match r {
                Ok(versions) => {
                    &&& self@.contains_key(template@)
                    &&& versions@.len() > 0
                    &&& texts(versions@).no_duplicates()
                    &&& texts(versions@).to_set() == self@[template@].dom()
                },
                Err(e) => !self@.contains_key(template@) && e == CatalogError::UnknownTemplate,
            },
    {
        proof {
            use_type_invariant(self);
        }
        match find_template(&self.assets, template) {
            Some(t) => {
                proof {
                    lemma_table_entry(template_entries(self.assets@), t as int);
                }
                let slots = &self.assets[t].versions;
                let ghost entries = version_entries(slots@);
                let mut versions: Vec<String> = Vec::new();
                let mut j: usize = 0;
                while j < slots.len()
                    invariant
                        j <= slots.len(),
                        entries == version_entries(slots@),
                        versions@.len() == j,
                        forall|k: int| 0 <= k < j ==> (#[trigger] versions@[k])@ == entries[k].0,
                    decreases slots.len() - j,
                {
                    versions.push(slots[j].version.clone());
                    j += 1;
                }
                proof {
                    lemma_table_keys(entries, texts(versions@));
                }
                Ok(versions)
            },
            None => Err(CatalogError::UnknownTemplate),
        }
    }
}

impl Clone for Release {
    fn clone(&self) -> (r: Self)
        ensures
            r@ == self@,
    {
        proof {
            use_type_invariant(self);
        }
        let mut slots: Vec<TemplateSlot> = Vec::new();
        let mut i: usize = 0;
        while i < self.assets.len()
            invariant
                i <= self.assets.len(),
                slots@.len() == i,
                template_entries(slots@) =~= template_entries(self.assets@).take(i as int),
                forall|k: int|
                    0 <= k < i ==> version_entries((#[trigger] slots@[k]).versions@)
                        == version_entries(self.assets@[k].versions@),
            decreases self.assets.len() - i,
        {
            let from = &self.assets[i];
            let mut versions: Vec<VersionSlot> = Vec::new();
            let mut j: usize = 0;
            while j < from.versions.len()
                invariant
                    j <= from.versions.len(),
                    versions@.len() == j,
                    version_entries(versions@) =~= version_entries(from.versions@).take(j as int),
                decreases from.versions.len() - j,
            {
                let slot = &from.versions[j];
                versions.push(
                    VersionSlot { version: slot.version.clone(), asset: slot.asset.clone() },
                );
                j += 1;
            }
            assert(version_entries(versions@) =~= version_entries(from.versions@));
            slots.push(TemplateSlot { template: from.template.clone(), versions });
            i += 1;
        }
        assert(template_entries(slots@) =~= template_entries(self.assets@));
        Release { assets: slots }
    }
}

/// Builds the catalog of every release that the host lists, in the order
/// of the listing.
pub fn build_releases(listing: Vec<ReleaseData>) -> (r: Result<Vec<Release>, CommandError>)
    ensures
        match r {
            Ok(releases) => {
                &&& listing@.len() > 0
                &&& releases@.len() == listing@.len()
                &&& forall|i: int|
                    0 <= i < releases@.len() ==> built_from(#[trigger] releases@[i], listing@[i])
            },
            Err(e) => if listing@.len() == 0 {
                e == CommandError::NoReleases
            } else {
                &&& e == CommandError::Catalog(CatalogError::EmptyRelease)
                &&& exists|i: int| 0 <= i < listing@.len() && listing@[i].assets@.len() == 0
            },
        },
{
    if listing.len() == 0 {
        return Err(CommandError::NoReleases);
    }
    let ghost listed = listing@;
    let mut releases: Vec<Release> = Vec::new();
    for release_data in it: listing
        invariant
            it.seq() == listed,
            releases@.len() == it.index(),
            forall|i: int|
                0 <= i < releases@.len() ==> built_from(#[trigger] releases@[i], listed[i]),
    {
        match Release::new(release_data) {
            Ok(release) => {
                releases.push(release);
            },
            Err(e) => {
                return Err(CommandError::Catalog(e));
            },
        }
    }
    Ok(releases)
}

/// The catalog of the latest release: the first of the listing.
pub fn latest_release(releases: &Vec<Release>) -> (r: Result<Release, CommandError>)
    ensures
        match r {
            Ok(latest) => releases@.len() > 0 && latest@ == releases@[0]@,
            Err(e) => releases@.len() == 0 && e == CommandError::NoReleases,
        },
{
    if releases.len() == 0 {
        Err(CommandError::NoReleases)
    } else {
        Ok(releases[0].clone())
    }
}

} // verus!
