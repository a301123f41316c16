//! Asset bundles: the assets of one output file, the counters that hand
//! out their identifiers, and which of them are the bundle's own.

use vstd::prelude::*;

use crate::ids::{AssetKind, Category, GameMode, Identifier, Source};
use crate::message::AssetData;

verus! {

/// The version of the game's engine that a bundle is written for.
pub const ENGINE_VERSION: &'static str = "7.0.0";

/// An encoded bundle: the primary assets, the assets they depend on, and
/// what the file says of itself.
#[derive(Debug)]
pub struct AssetBundleData {
    pub assets: Vec<AssetData>,
    pub dependencies: Vec<AssetData>,
    pub export_info: String,
    pub mode: GameMode,
    pub engine_version: String,
}

/// An asset registered in a bundle: its identifier, and what its users
/// need to know of it.
pub struct AssetRef<T> {
    pub root: Identifier,
    pub data: T,
}

/// The assets of one output file.
pub struct AssetBundle {
    pub mode: GameMode,
    /// The next identifier number of each category that hands out numbers.
    pub allocators: Vec<(Category, i64)>,
    pub assets: Vec<AssetData>,
    /// The identifiers of the bundle's own assets.
    pub primary: Vec<Identifier>,
}

/// The counter of each category, as a map.
pub open spec fn counters(a: Seq<(Category, i64)>) -> Map<Category, i64>
    decreases a.len(),
{
    if a.len() == 0 {
        Map::empty()
    } else {
        counters(a.drop_last()).insert(a.last().0, a.last().1)
    }
}

/// No category has two counters, and no identifier is primary twice.
pub open spec fn bundle_wf(b: AssetBundle) -> bool {
    &&& forall|i: int, j: int|
        0 <= i < j < b.allocators@.len() ==> (#[trigger] b.allocators@[i]).0 != (#[trigger] b.allocators@[j]).0
    &&& forall|i: int, j: int|
        0 <= i < j < b.primary@.len() ==> #[trigger] b.primary@[i] != #[trigger] b.primary@[j]
}

/// The identifier of the asset that category `cat` numbers `guid`.
pub open spec fn allocated(cat: Category, kind: AssetKind, guid: i64) -> Identifier {
    Identifier { source: Source::Unspecified, category: cat, kind, guid, runtime_id: 0 }
}

proof fn lemma_counters_index(a: Seq<(Category, i64)>, i: int)
    requires
        0 <= i < a.len(),
        forall|x: int, y: int| 0 <= x < y < a.len() ==> (#[trigger] a[x]).0 != (#[trigger] a[y]).0,
    ensures
        counters(a).contains_key(a[i].0),
        counters(a)[a[i].0] == a[i].1,
    decreases a.len(),
{
    if i < a.len() - 1 {
        lemma_counters_index(a.drop_last(), i);
        assert(a.drop_last()[i] == a[i]);
        assert(a[i].0 != a[a.len() - 1].0);
    }
}

proof fn lemma_counters_missing(a: Seq<(Category, i64)>, c: Category)
    requires
        forall|i: int| 0 <= i < a.len() ==> (#[trigger] a[i]).0 != c,
    ensures
        !counters(a).contains_key(c),
    decreases a.len(),
{
    if a.len() > 0 {
        assert forall|i: int| 0 <= i < a.drop_last().len() implies (#[trigger] a.drop_last()[i]).0 != c by {
            assert(a.drop_last()[i] == a[i]);
        }
        lemma_counters_missing(a.drop_last(), c);
    }
}

proof fn lemma_counters_update(a: Seq<(Category, i64)>, i: int, v: i64)
    requires
        0 <= i < a.len(),
        forall|x: int, y: int| 0 <= x < y < a.len() ==> (#[trigger] a[x]).0 != (#[trigger] a[y]).0,
    ensures
        counters(a.update(i, (a[i].0, v))) == counters(a).insert(a[i].0, v),
    decreases a.len(),
{
    let b = a.update(i, (a[i].0, v));
    if i == a.len() - 1 {
        assert(b.drop_last() =~= a.drop_last());
        assert(counters(b) =~= counters(a).insert(a[i].0, v));
    } else {
        assert(b.drop_last() =~= a.drop_last().update(i, (a[i].0, v)));
        lemma_counters_update(a.drop_last(), i, v);
        assert(a[i].0 != a[a.len() - 1].0);
        assert(counters(b) =~= counters(a).insert(a[i].0, v));
    }
}

/// Whether `ids` lists `id`.
fn lists(ids: &Vec<Identifier>, id: Identifier) -> (r: bool)
    ensures
        r == ids@.contains(id),
{
    let mut i: usize = 0;
    while i < ids.len()
        invariant
            i <= ids@.len(),
            forall|j: int| 0 <= j < i ==> ids@[j] != id,
        decreases ids@.len() - i,
    {
        if ids[i] == id {
            return true;
        }
        i = i + 1;
    }
    false
}

impl AssetBundle {
    /// An empty bundle for `mode`, whose categories for node graphs,
    /// defaults and node declarations start at their first numbers.
    pub fn new(mode: GameMode) -> (r: Self)
        ensures
            r.mode == mode,
            counters(r.allocators@) == map![
                Category::ServerNodeGraph => 0x40000001i64,
                Category::Default => 0x40400001i64,
                Category::NodeDecl => 0x60000001i64,
            ],
            r.assets@.len() == 0,
            r.primary@.len() == 0,
            bundle_wf(r),
    {
        let mut allocators: Vec<(Category, i64)> = Vec::new();
        allocators.push((Category::ServerNodeGraph, 0x40000001));
        allocators.push((Category::Default, 0x40400001));
        allocators.push((Category::NodeDecl, 0x60000001));
        let r = Self { mode, allocators, assets: Vec::new(), primary: Vec::new() };
        assert(r.allocators@.drop_last().drop_last().drop_last() =~= Seq::<(Category, i64)>::empty());
        reveal_with_fuel(counters, 4);
        assert(counters(r.allocators@) =~= map![
            Category::ServerNodeGraph => 0x40000001i64,
            Category::Default => 0x40400001i64,
            Category::NodeDecl => 0x60000001i64,
        ]);
        r
    }

    /// The first asset with identifier `key`, if any.
    pub fn get(&self, key: Identifier) -> (r: Option<&AssetData>)
        ensures
            match r {
                Some(a) => exists|i: int|
                    0 <= i < self.assets@.len() && self.assets@[i] == *a && a.id == Some(key)
                        && forall|j: int| 0 <= j < i ==> (#[trigger] self.assets@[j]).id != Some(key),
                None => forall|i: int| 0 <= i < self.assets@.len() ==> (#[trigger] self.assets@[i]).id != Some(key),
            },
    {
        let mut i: usize = 0;
        while i < self.assets.len()
            invariant
                i <= self.assets@.len(),
                forall|j: int| 0 <= j < i ==> (#[trigger] self.assets@[j]).id != Some(key),
            decreases self.assets@.len() - i,
        {
            let a = &self.assets[i];
            let found = match a.id {
                Some(id) => id == key,
                None => false,
            };
            if found {
                return Some(a);
            }
            i = i + 1;
        }
        None
    }

    /// A new identifier of category `cat` and kind `kind`: the category's
    /// next number, after which the category counts on. It panics for a
    /// category without counter.
    pub fn alloc_id(&mut self, cat: Category, kind: AssetKind) -> (r: Identifier)
        requires
            bundle_wf(*old(self)),
            counters(old(self).allocators@).contains_key(cat),
            counters(old(self).allocators@)[cat] < i64::MAX,
        ensures
            r == allocated(cat, kind, counters(old(self).allocators@)[cat]),
            counters(final(self).allocators@) == counters(old(self).allocators@).insert(
                cat,
                (r.guid + 1) as i64,
            ),
            final(self).mode == old(self).mode,
            final(self).assets@ == old(self).assets@,
            final(self).primary@ == old(self).primary@,
            bundle_wf(*final(self)),
    {
        let ghost a = self.allocators@;
        let mut i: usize = 0;
        while i < self.allocators.len() && self.allocators[i].0 != cat
            invariant
                i <= self.allocators@.len(),
                a == self.allocators@,
                forall|j: int| 0 <= j < i ==> (#[trigger] a[j]).0 != cat,
            decreases self.allocators@.len() - i,
        {
            i = i + 1;
        }
        if i == self.allocators.len() {
            proof {
                lemma_counters_missing(a, cat);
            }
            assert(false);
        }
        proof {
            lemma_counters_index(a, i as int);
        }
        let guid = self.allocators[i].1;
        self.allocators.set(i, (cat, guid + 1));
        proof {
            lemma_counters_update(a, i as int, (guid + 1) as i64);
            assert(self.allocators@ == a.update(i as int, (a[i as int].0, (guid + 1) as i64)));
        }
        Identifier { source: Source::Unspecified, category: cat, kind, guid, runtime_id: 0 }
    }

    /// Adds `asset` after the others.
    pub fn push(&mut self, asset: AssetData)
        ensures
            final(self).assets@ == old(self).assets@.push(asset),
            final(self).mode == old(self).mode,
            final(self).allocators@ == old(self).allocators@,
            final(self).primary@ == old(self).primary@,
    {
        self.assets.push(asset);
    }

    /// Makes the asset `root` one of the bundle's own.
    pub fn set_primary(&mut self, root: Identifier)
        requires
            bundle_wf(*old(self)),
        ensures
            final(self).primary@.to_set() == old(self).primary@.to_set().insert(root),
            final(self).mode == old(self).mode,
            final(self).allocators@ == old(self).allocators@,
            final(self).assets@ == old(self).assets@,
            bundle_wf(*final(self)),
    {
        if !lists(&self.primary, root) {
            self.primary.push(root);
            assert(self.primary@.to_set() =~= old(self).primary@.to_set().insert(root)) by {
                assert forall|x: Identifier| self.primary@.contains(x) <==> (old(self).primary@.contains(x) || x == root) by {
                    if self.primary@.contains(x) && x != root {
                        let j = choose|j: int| 0 <= j < self.primary@.len() && self.primary@[j] == x;
                        assert(old(self).primary@[j] == x);
                    }
                    if old(self).primary@.contains(x) {
                        let j = choose|j: int| 0 <= j < old(self).primary@.len() && old(self).primary@[j] == x;
                        assert(self.primary@[j] == x);
                    }
                    if x == root {
                        assert(self.primary@[self.primary@.len() - 1] == root);
                    }
                }
            }
        } else {
            assert(self.primary@.to_set() =~= old(self).primary@.to_set().insert(root));
        }
    }

    /// The bundle as the file writes it: the primary assets and then the
    /// others, each group in the order the assets were added. It panics
    /// on an asset without identifier.
    pub fn encode(self) -> (r: AssetBundleData)
        requires
            forall|i: int| 0 <= i < self.assets@.len() ==> (#[trigger] self.assets@[i]).id is Some,
        ensures
            r.assets@ == self.assets@.filter(|a: AssetData| self.primary@.contains(a.id->0)),
            r.dependencies@ == self.assets@.filter(|a: AssetData| !self.primary@.contains(a.id->0)),
            r.export_info@ == "by mz"@,
            r.mode == self.mode,
            r.engine_version@ == ENGINE_VERSION@,
    {
        let ghost all = self.assets@;
        let ghost f = |a: AssetData| self.primary@.contains(a.id->0);
        let ghost g = |a: AssetData| !self.primary@.contains(a.id->0);
        let mut rest = self.assets;
        let mut primary: Vec<AssetData> = Vec::new();
        let mut dependencies: Vec<AssetData> = Vec::new();
        let mut i: usize = 0;
        let n = rest.len();
        while rest.len() > 0
            invariant
                n == all.len(),
                i + rest@.len() == n,
                rest@ == all.subrange(i as int, n as int),
                forall|j: int| 0 <= j < all.len() ==> (#[trigger] all[j]).id is Some,
                primary@ == all.subrange(0, i as int).filter(f),
                dependencies@ == all.subrange(0, i as int).filter(g),
                f == (|a: AssetData| self.primary@.contains(a.id->0)),
                g == (|a: AssetData| !self.primary@.contains(a.id->0)),
            decreases rest@.len(),
        {
            let asset = rest.remove(0);
            assert(asset == all[i as int]);
            assert(all.subrange(0, i + 1).drop_last() =~= all.subrange(0, i as int));
            assert(all.subrange(0, i + 1).last() == asset);
            reveal_with_fuel(Seq::filter, 1);
            let id = match asset.id {
                Some(id) => id,
                None => {
                    assert(false);
                    Identifier {
                        source: Source::Unspecified,
                        category: Category::Default,
                        kind: AssetKind::Unspecified,
                        guid: 0,
                        runtime_id: 0,
                    }
                },
            };
            if lists(&self.primary, id) {
                primary.push(asset);
            } else {
                dependencies.push(asset);
            }
            assert(rest@ =~= all.subrange(i + 1, n as int));
            i = i + 1;
        }
        assert(all.subrange(0, n as int) =~= all);
        AssetBundleData {
            assets: primary,
            dependencies,
            export_info: String::from_str("by mz"),
            mode: self.mode,
            engine_version: String::from_str(ENGINE_VERSION),
        }
    }
}

// ---------------------------------------------------------------------------
// Laws.
// ---------------------------------------------------------------------------

/// Encoding a bundle loses no asset and duplicates none: the primary
/// assets and their dependencies together are as many as the assets.
pub proof fn lemma_encode_partitions(assets: Seq<AssetData>, primary: Seq<Identifier>)
    ensures
        assets.filter(|a: AssetData| primary.contains(a.id->0)).len() + assets.filter(
            |a: AssetData| !primary.contains(a.id->0),
        ).len() == assets.len(),
    decreases assets.len(),
{
    reveal_with_fuel(Seq::filter, 1);
    if assets.len() > 0 {
        lemma_encode_partitions(assets.drop_last(), primary);
    }
}

/// A category hands out increasing numbers: after an identifier numbered
/// `guid` is handed out (`before` is the counters then, `after` the
/// counters afterwards), the next one of the same category is numbered
/// `guid + 1`, and the other categories are unchanged.
pub proof fn lemma_alloc_increases(
    before: Map<Category, i64>,
    after: Map<Category, i64>,
    cat: Category,
    guid: i64,
    other: Category,
)
    requires
        before.contains_key(cat),
        guid == before[cat],
        guid < i64::MAX,
        after == before.insert(cat, (guid + 1) as i64),
        other != cat,
    ensures
        after[cat] == guid + 1,
        after[cat] > guid,
        after.contains_key(other) == before.contains_key(other),
        before.contains_key(other) ==> after[other] == before[other],
{
}

} // verus!
