//! The collider cache: one compound shape per scene asset.
//!
//! The synthesis pass fills it once, after loading ends; the attachment
//! step reads it every frame for the rest of the program's life and hands
//! out independent copies of the cached shapes.

use vstd::prelude::*;

use crate::shape::CompoundShape;

verus! {

/// A write-once-then-read registry from scene-asset identity to compound
/// shape, passed explicitly to the synthesis pass and the attachment step.
pub struct ColliderCache {
    pub keys: Vec<u64>,
    pub shapes: Vec<CompoundShape>,
}

/// The mapping held by the first `n` entries of the two columns.
pub open spec fn entries_map(keys: Seq<u64>, shapes: Seq<CompoundShape>, n: int) -> Map<
    u64,
    Seq<Seq<crate::math::Vec3>>,
>
    decreases n,
{
    if n <= 0 {
        Map::empty()
    } else {
        entries_map(keys, shapes, n - 1).insert(keys[n - 1], shapes[n - 1]@)
    }
}

impl View for ColliderCache {
    type V = Map<u64, Seq<Seq<crate::math::Vec3>>>;

    open spec fn view(&self) -> Map<u64, Seq<Seq<crate::math::Vec3>>> {
        entries_map(self.keys@, self.shapes@, self.keys@.len() as int)
    }
}

/// The cache's internal shape: one shape per key, no key twice.
pub open spec fn cache_wf(c: ColliderCache) -> bool {
    &&& c.keys@.len() == c.shapes@.len()
    &&& forall|i: int, j: int|
        0 <= i < j < c.keys@.len() ==> #[trigger] c.keys@[i] != #[trigger] c.keys@[j]
}

/// A key stored at `i` is in the mapping, with the shape stored beside it.
proof fn lemma_entries_map_get(keys: Seq<u64>, shapes: Seq<CompoundShape>, n: int, i: int)
    requires
        0 <= i < n,
        n <= keys.len(),
        n <= shapes.len(),
        forall|a: int, b: int| 0 <= a < b < n ==> #[trigger] keys[a] != #[trigger] keys[b],
    ensures
        entries_map(keys, shapes, n).dom().contains(keys[i]),
        entries_map(keys, shapes, n)[keys[i]] == shapes[i]@,
    decreases n,
{
    if i < n - 1 {
        lemma_entries_map_get(keys, shapes, n - 1, i);
    }
}

/// A key stored nowhere among the first `n` entries is not in the mapping.
proof fn lemma_entries_map_absent(keys: Seq<u64>, shapes: Seq<CompoundShape>, n: int, k: u64)
    requires
        0 <= n <= keys.len(),
        n <= shapes.len(),
        forall|i: int| 0 <= i < n ==> #[trigger] keys[i] != k,
    ensures
        !entries_map(keys, shapes, n).dom().contains(k),
    decreases n,
{
    if n > 0 {
        lemma_entries_map_absent(keys, shapes, n - 1, k);
    }
}

/// The mapping reads only the first `n` entries of each column.
proof fn lemma_entries_map_prefix(
    keys1: Seq<u64>,
    shapes1: Seq<CompoundShape>,
    keys2: Seq<u64>,
    shapes2: Seq<CompoundShape>,
    n: int,
)
    requires
        0 <= n,
        n <= keys1.len() && n <= keys2.len(),
        n <= shapes1.len() && n <= shapes2.len(),
        forall|i: int| 0 <= i < n ==> #[trigger] keys1[i] == keys2[i],
        forall|i: int| 0 <= i < n ==> #[trigger] shapes1[i]@ == shapes2[i]@,
    ensures
        entries_map(keys1, shapes1, n) == entries_map(keys2, shapes2, n),
    decreases n,
{
    if n > 0 {
        lemma_entries_map_prefix(keys1, shapes1, keys2, shapes2, n - 1);
    }
}

/// Replacing the shape beside key `i` rewrites the mapping at that key.
proof fn lemma_entries_map_update(
    keys: Seq<u64>,
    shapes: Seq<CompoundShape>,
    n: int,
    i: int,
    s: CompoundShape,
)
    requires
        0 <= i < n,
        n <= keys.len(),
        n <= shapes.len(),
        forall|a: int, b: int| 0 <= a < b < n ==> #[trigger] keys[a] != #[trigger] keys[b],
    ensures
        entries_map(keys, shapes.update(i, s), n) == entries_map(keys, shapes, n).insert(
            keys[i],
            s@,
        ),
    decreases n,
{
    let upd = shapes.update(i, s);
    if i == n - 1 {
        lemma_entries_map_prefix(keys, upd, keys, shapes, n - 1);
        assert(entries_map(keys, upd, n) =~= entries_map(keys, shapes, n).insert(keys[i], s@));
    } else {
        lemma_entries_map_update(keys, shapes, n - 1, i, s);
        assert(entries_map(keys, upd, n) =~= entries_map(keys, shapes, n).insert(keys[i], s@));
    }
}

impl ColliderCache {
    /// An empty cache, as the program starts with.
    pub fn new() -> (r: ColliderCache)
        ensures
            cache_wf(r),
            r@ == Map::<u64, Seq<Seq<crate::math::Vec3>>>::empty(),
    {
        ColliderCache { keys: Vec::new(), shapes: Vec::new() }
    }

    /// Look up the index of a key, if stored.
    fn find(&self, key: u64) -> (r: Option<usize>)
        requires
            cache_wf(*self),
        ensures
            r matches Some(i) ==> i < self.keys@.len() && self.keys@[i as int] == key,
            r is None ==> forall|i: int| 0 <= i < self.keys@.len() ==> #[trigger] self.keys@[i]
                != key,
    {
        let mut i: usize = 0;
        let n = self.keys.len();
        while i < n
            invariant
                n == self.keys@.len(),
                0 <= i <= n,
                forall|j: int| 0 <= j < i ==> #[trigger] self.keys@[j] != key,
            decreases n - i,
        {
            if self.keys[i] == key {
                return Some(i);
            }
            i += 1;
        }
        None
    }

    /// Whether a scene asset already has a cached shape.
    pub fn contains(&self, key: u64) -> (r: bool)
        requires
            cache_wf(*self),
        ensures
            r == self@.dom().contains(key),
    {
        let found = self.find(key);
        proof {
            match found {
                Option::Some(i) => {
                    lemma_entries_map_get(
                        self.keys@,
                        self.shapes@,
                        self.keys@.len() as int,
                        i as int,
                    );
                },
                Option::None => {
                    lemma_entries_map_absent(
                        self.keys@,
                        self.shapes@,
                        self.keys@.len() as int,
                        key,
                    );
                },
            }
        }
        found.is_some()
    }

    /// The cached shape of a scene asset, if one was stored.
    pub fn get(&self, key: u64) -> (r: Option<&CompoundShape>)
        requires
            cache_wf(*self),
        ensures
            r matches Some(s) ==> self@.dom().contains(key) && s@ == self@[key],
            r is None <==> !self@.dom().contains(key),
    {
        match self.find(key) {
            Option::Some(i) => {
                proof {
                    lemma_entries_map_get(
                        self.keys@,
                        self.shapes@,
                        self.keys@.len() as int,
                        i as int,
                    );
                }
                Some(&self.shapes[i])
            },
            Option::None => {
                proof {
                    lemma_entries_map_absent(
                        self.keys@,
                        self.shapes@,
                        self.keys@.len() as int,
                        key,
                    );
                }
                None
            },
        }
    }

    /// Store the shape of a scene asset, replacing any earlier entry.
    pub fn insert(&mut self, key: u64, shape: CompoundShape)
        requires
            cache_wf(*old(self)),
        ensures
            cache_wf(*final(self)),
            final(self)@ == old(self)@.insert(key, shape@),
    {
        let ghost n = self.keys@.len() as int;
        match self.find(key) {
            Option::Some(i) => {
                proof {
                    lemma_entries_map_update(self.keys@, self.shapes@, n, i as int, shape);
                }
                self.shapes[i] = shape;
            },
            Option::None => {
                self.keys.push(key);
                self.shapes.push(shape);
                proof {
                    lemma_entries_map_prefix(
                        self.keys@,
                        self.shapes@,
                        old(self).keys@,
                        old(self).shapes@,
                        n,
                    );
                    assert(entries_map(self.keys@, self.shapes@, n + 1) == entries_map(
                        old(self).keys@,
                        old(self).shapes@,
                        n,
                    ).insert(key, shape@));
                }
            },
        }
    }
}

/// The attachment step for one freshly instantiated scene instance: an
/// independent deep copy of the cached shape of asset `scene_id`, or
/// nothing when the scene produced no hulls. Two instances of one asset get
/// two copies, never a shared one.
pub fn attach_collider(cache: &ColliderCache, scene_id: u64) -> (r: Option<CompoundShape>)
    requires
        cache_wf(*cache),
    ensures
        r matches Some(s) ==> cache@.dom().contains(scene_id) && s@ == cache@[scene_id],
        r is None <==> !cache@.dom().contains(scene_id),
{
    match cache.get(scene_id) {
        Option::Some(shape) => Some(shape.deep_copy()),
        Option::None => None,
    }
}

} // verus!
