//! A reference-counted registry of textures, keyed by file path.
//!
//! Every distinct path gets one asset id; asking for the same path again
//! bumps its reference count, and freeing the last reference forgets the
//! path. Newly registered assets wait in a load queue until the caller
//! drains it, loads the files and hands the textures back.

use std::collections::HashMap;
use vstd::prelude::*;
use vstd::hash_map::StringHashMap;

verus! {

broadcast use vstd::std_specs::hash::group_hash_axioms;

/// Identifier of a registered asset.
pub type AssetId = i32;

/// What the registry knows of one asset.
pub struct AssetRecord<T> {
    pub path: Seq<char>,
    pub ref_count: nat,
    pub texture: Option<T>,
}

/// The abstract state of an [`AssetManager`].
pub struct AssetTable<T> {
    /// Live assets by id.
    pub assets: Map<AssetId, AssetRecord<T>>,
    /// The id of each live path.
    pub paths: Map<Seq<char>, AssetId>,
    /// Ids registered since the queue was last drained, oldest first.
    pub queue: Seq<AssetId>,
    /// The id the next new path will get.
    pub next_id: int,
    /// What is drawn for an asset whose texture is not there.
    pub placeholder: T,
}

impl<T> AssetTable<T> {
    /// Ids are positive and below `next_id`, counts are positive, the path
    /// index and the asset map describe the same bijection, and the queue
    /// holds distinct ids that were handed out.
    pub open spec fn wf(self) -> bool {
        &&& 1 <= self.next_id <= i32::MAX
        &&& forall|id: AssetId| #[trigger] self.assets.contains_key(id) ==> {
            &&& 1 <= id < self.next_id
            &&& self.assets[id].ref_count >= 1
            &&& self.paths.contains_key(self.assets[id].path)
            &&& self.paths[self.assets[id].path] == id
        }
        &&& forall|p: Seq<char>| #[trigger] self.paths.contains_key(p) ==> {
            &&& self.assets.contains_key(self.paths[p])
            &&& self.assets[self.paths[p]].path == p
        }
        &&& forall|i: int| 0 <= i < self.queue.len() ==> 1 <= #[trigger] self.queue[i] < self.next_id
        &&& forall|i: int, j: int|
            0 <= i < j < self.queue.len() ==> #[trigger] self.queue[i] != #[trigger] self.queue[j]
    }

    /// Taking one more reference to `path` fits the counters: an existing
    /// asset's count stays within `u32`, a new id stays within `i32`.
    pub open spec fn can_ref(self, path: Seq<char>) -> bool {
        if self.paths.contains_key(path) {
            self.assets[self.paths[path]].ref_count < u32::MAX
        } else {
            self.next_id < i32::MAX
        }
    }

    /// The id that a reference to `path` gets.
    pub open spec fn ref_id(self, path: Seq<char>) -> AssetId {
        if self.paths.contains_key(path) {
            self.paths[path]
        } else {
            self.next_id as AssetId
        }
    }

    /// The table after one more reference to `path`: a known path's count
    /// goes up by one; a new path gets the next id, a count of one, no
    /// texture, and a place at the end of the load queue.
    pub open spec fn with_ref(self, path: Seq<char>) -> Self {
        if self.paths.contains_key(path) {
            let id = self.paths[path];
            let rec = self.assets[id];
            AssetTable {
                assets: self.assets.insert(
                    id,
                    AssetRecord { path: rec.path, ref_count: rec.ref_count + 1, texture: rec.texture },
                ),
                paths: self.paths,
                queue: self.queue,
                next_id: self.next_id,
                placeholder: self.placeholder,
            }
        } else {
            let id = self.next_id as AssetId;
            AssetTable {
                assets: self.assets.insert(id, AssetRecord { path, ref_count: 1, texture: None }),
                paths: self.paths.insert(path, id),
                queue: self.queue.push(id),
                next_id: self.next_id + 1,
                placeholder: self.placeholder,
            }
        }
    }

    /// The table after one reference to `id` is dropped: the count goes down
    /// by one, and at zero the asset and its path are forgotten. An unknown
    /// id changes nothing.
    pub open spec fn without_ref(self, id: AssetId) -> Self {
        if !self.assets.contains_key(id) {
            self
        } else {
            let rec = self.assets[id];
            if rec.ref_count <= 1 {
                AssetTable {
                    assets: self.assets.remove(id),
                    paths: self.paths.remove(rec.path),
                    queue: self.queue,
                    next_id: self.next_id,
                    placeholder: self.placeholder,
                }
            } else {
                AssetTable {
                    assets: self.assets.insert(
                        id,
                        AssetRecord {
                            path: rec.path,
                            ref_count: (rec.ref_count - 1) as nat,
                            texture: rec.texture,
                        },
                    ),
                    paths: self.paths,
                    queue: self.queue,
                    next_id: self.next_id,
                    placeholder: self.placeholder,
                }
            }
        }
    }

    /// The table after a loaded texture for `id` is handed back: a live
    /// asset keeps it, an id freed in the meantime is ignored.
    pub open spec fn with_texture(self, id: AssetId, texture: T) -> Self {
        if self.assets.contains_key(id) {
            let rec = self.assets[id];
            AssetTable {
                assets: self.assets.insert(
                    id,
                    AssetRecord { path: rec.path, ref_count: rec.ref_count, texture: Some(texture) },
                ),
                paths: self.paths,
                queue: self.queue,
                next_id: self.next_id,
                placeholder: self.placeholder,
            }
        } else {
            self
        }
    }

    /// The table once its load queue has been taken.
    pub open spec fn drained(self) -> Self {
        AssetTable {
            assets: self.assets,
            paths: self.paths,
            queue: Seq::empty(),
            next_id: self.next_id,
            placeholder: self.placeholder,
        }
    }

    /// The queued assets that are still live, with their paths, in queue order.
    pub open spec fn pending(self) -> Seq<(AssetId, Seq<char>)> {
        live_entries(self.assets, self.queue)
    }

    /// The texture drawn for `id`: its own once loaded, else the placeholder.
    pub open spec fn texture_of(self, id: AssetId) -> T {
        if self.assets.contains_key(id) && self.assets[id].texture is Some {
            self.assets[id].texture->0
        } else {
            self.placeholder
        }
    }
}

/// The entries of `queue` whose asset is live, paired with their paths.
pub open spec fn live_entries<T>(assets: Map<AssetId, AssetRecord<T>>, queue: Seq<AssetId>) -> Seq<
    (AssetId, Seq<char>),
>
    decreases queue.len(),
{
    if queue.len() == 0 {
        Seq::empty()
    } else {
        let rest = live_entries(assets, queue.drop_last());
        let id = queue.last();
        if assets.contains_key(id) {
            rest.push((id, assets[id].path))
        } else {
            rest
        }
    }
}

#[verifier::reject_recursive_types(T)]
struct Asset<T> {
    path: String,
    texture: Option<T>,
    ref_count: u32,
}

impl<T> Asset<T> {
    closed spec fn record(self) -> AssetRecord<T> {
        AssetRecord { path: self.path@, ref_count: self.ref_count as nat, texture: self.texture }
    }
}

/// A registry of textures of type `T`, shared by everything that draws.
#[verifier::reject_recursive_types(T)]
pub struct AssetManager<T> {
    assets: HashMap<AssetId, Asset<T>>,
    path_to_id: StringHashMap<AssetId>,
    load_queue: Vec<AssetId>,
    next_id: AssetId,
    placeholder: T,
}

impl<T> View for AssetManager<T> {
    type V = AssetTable<T>;

    closed spec fn view(&self) -> AssetTable<T> {
        AssetTable {
            assets: self.assets@.map_values(|a: Asset<T>| a.record()),
            paths: self.path_to_id@,
            queue: self.load_queue@,
            next_id: self.next_id as int,
            placeholder: self.placeholder,
        }
    }
}

impl<T> AssetManager<T> {
    /// The registry's invariant.
    pub open spec fn wf(&self) -> bool {
        self@.wf()
    }

    /// An empty registry that draws `placeholder` for textures not loaded yet.
    pub fn new(placeholder: T) -> (am: Self)
        ensures
            am.wf(),
            am@.assets == Map::<AssetId, AssetRecord<T>>::empty(),
            am@.paths == Map::<Seq<char>, AssetId>::empty(),
            am@.queue == Seq::<AssetId>::empty(),
            am@.next_id == 1,
            am@.placeholder == placeholder,
    {
        let am = AssetManager {
            assets: HashMap::new(),
            path_to_id: StringHashMap::new(),
            load_queue: Vec::new(),
            next_id: 1,
            placeholder,
        };
        assert(am@.assets =~= Map::<AssetId, AssetRecord<T>>::empty());
        am
    }
}

/// Whether one more reference to `path` fits the registry's counters.
pub fn can_take_ref<T>(am: &AssetManager<T>, path: &str) -> (ok: bool)
    requires
        am.wf(),
    ensures
        ok == am@.can_ref(path@),
{
    match am.path_to_id.get(path) {
        Some(idr) => {
            let id = *idr;
            match am.assets.get(&id) {
                Some(asset) => asset.ref_count < u32::MAX,
                None => false,
            }
        },
        None => am.next_id < i32::MAX,
    }
}

/// Takes a reference to the texture at `path` and returns its id: the id it
/// already has, with its count raised by one, or else a new id, queued for
/// loading.
pub fn get_texture_ref<T>(am: &mut AssetManager<T>, path: &str) -> (id: AssetId)
    requires
        old(am).wf(),
        old(am)@.can_ref(path@),
    ensures
        final(am).wf(),
        id == old(am)@.ref_id(path@),
        final(am)@ == old(am)@.with_ref(path@),
{
    proof {
        lemma_ref_keeps_wf(am@, path@);
    }
    if let Some(idr) = am.path_to_id.get(path) {
        let id = *idr;
        if let Some(mut asset) = am.assets.remove(&id) {
            asset.ref_count = asset.ref_count + 1;
            am.assets.insert(id, asset);
            assert(am@.assets =~= old(am)@.with_ref(path@).assets);
            return id;
        }
    }
    let id = am.next_id;
    am.next_id = am.next_id + 1;
    am.assets.insert(id, Asset { path: path.to_owned(), texture: None, ref_count: 1 });
    am.path_to_id.insert(path.to_owned(), id);
    am.load_queue.push(id);
    assert(am@.assets =~= old(am)@.with_ref(path@).assets);
    id
}

/// Drops one reference to asset `id`; the last one forgets the asset and
/// its path. An unknown id is ignored.
pub fn free_asset<T>(am: &mut AssetManager<T>, id: AssetId)
    requires
        old(am).wf(),
    ensures
        final(am).wf(),
        final(am)@ == old(am)@.without_ref(id),
{
    proof {
        lemma_release_keeps_wf(am@, id);
    }
    if let Some(mut asset) = am.assets.remove(&id) {
        asset.ref_count = asset.ref_count - 1;
        if asset.ref_count == 0 {
            am.path_to_id.remove(asset.path.as_str());
        } else {
            am.assets.insert(id, asset);
        }
    }
    assert(am@.assets =~= old(am)@.without_ref(id).assets);
}

/// Takes the load queue and returns, in queue order, the queued assets that
/// are still live, each with its path.
pub fn drain_load_queue<T>(am: &mut AssetManager<T>) -> (to_load: Vec<(AssetId, String)>)
    requires
        old(am).wf(),
    ensures
        final(am).wf(),
        final(am)@ == old(am)@.drained(),
        to_load@.map_values(|e: (AssetId, String)| (e.0, e.1@)) == old(am)@.pending(),
{
    let mut queue: Vec<AssetId> = Vec::new();
    std::mem::swap(&mut queue, &mut am.load_queue);
    let ghost table = old(am)@;
    let mut to_load: Vec<(AssetId, String)> = Vec::new();
    let n = queue.len();
    for i in 0..n
        invariant
            n == queue.len(),
            queue@ == table.queue,
            am@ == table.drained(),
            to_load@.map_values(|e: (AssetId, String)| (e.0, e.1@)) == live_entries(
                table.assets,
                table.queue.take(i as int),
            ),
    {
        let id = queue[i];
        assert(table.queue.take(i + 1).drop_last() =~= table.queue.take(i as int));
        if let Some(asset) = am.assets.get(&id) {
            to_load.push((id, asset.path.clone()));
        }
        assert(to_load@.map_values(|e: (AssetId, String)| (e.0, e.1@)) =~= live_entries(
            table.assets,
            table.queue.take(i + 1),
        ));
    }
    assert(table.queue.take(n as int) =~= table.queue);
    proof {
        lemma_drain_keeps_wf(table);
    }
    to_load
}

/// Hands the loaded texture of asset `id` to the registry; it is dropped if
/// the asset was freed while loading.
pub fn store_loaded_texture<T>(am: &mut AssetManager<T>, id: AssetId, texture: T)
    requires
        old(am).wf(),
    ensures
        final(am).wf(),
        final(am)@ == old(am)@.with_texture(id, texture),
{
    proof {
        lemma_store_keeps_wf(am@, id, texture);
    }
    if let Some(mut asset) = am.assets.remove(&id) {
        asset.texture = Some(texture);
        am.assets.insert(id, asset);
    }
    assert(am@.assets =~= old(am)@.with_texture(id, texture).assets);
}

/// The texture to draw for asset `id`: its own once loaded, else the
/// placeholder.
pub fn get_texture<T>(am: &AssetManager<T>, id: AssetId) -> (texture: &T)
    requires
        am.wf(),
    ensures
        *texture == am@.texture_of(id),
{
    match am.assets.get(&id) {
        Some(asset) => match &asset.texture {
            Some(t) => t,
            None => &am.placeholder,
        },
        None => &am.placeholder,
    }
}

/// Taking a reference keeps the registry's invariant.
pub proof fn lemma_ref_keeps_wf<T>(t: AssetTable<T>, path: Seq<char>)
    requires
        t.wf(),
        t.can_ref(path),
    ensures
        t.with_ref(path).wf(),
{
    let u = t.with_ref(path);
    if !t.paths.contains_key(path) {
        let id = t.next_id as AssetId;
        assert forall|p: Seq<char>| #[trigger] u.paths.contains_key(p) implies u.assets.contains_key(
            u.paths[p],
        ) && u.assets[u.paths[p]].path == p by {
            if p != path {
                assert(t.paths.contains_key(p));
            }
        }
        assert forall|i: int, j: int| 0 <= i < j < u.queue.len() implies #[trigger] u.queue[i]
            != #[trigger] u.queue[j] by {
            if j == u.queue.len() - 1 {
                assert(t.queue[i] < t.next_id);
            } else {
                assert(t.queue[i] != t.queue[j]);
            }
        }
        assert forall|k: int| 0 <= k < u.queue.len() implies 1 <= #[trigger] u.queue[k] < u.next_id by {
            if k < t.queue.len() {
                assert(t.queue[k] < t.next_id);
            }
        }
    }
}

/// Dropping a reference keeps the registry's invariant.
pub proof fn lemma_release_keeps_wf<T>(t: AssetTable<T>, id: AssetId)
    requires
        t.wf(),
    ensures
        t.without_ref(id).wf(),
{
    let u = t.without_ref(id);
    if t.assets.contains_key(id) && t.assets[id].ref_count <= 1 {
        let path = t.assets[id].path;
        assert forall|k: AssetId| #[trigger] u.assets.contains_key(k) implies u.paths.contains_key(
            u.assets[k].path,
        ) && u.paths[u.assets[k].path] == k by {
            assert(t.assets.contains_key(k));
            assert(t.assets[k].path != path);
        }
        assert forall|p: Seq<char>| #[trigger] u.paths.contains_key(p) implies u.assets.contains_key(
            u.paths[p],
        ) && u.assets[u.paths[p]].path == p by {
            assert(t.paths.contains_key(p));
        }
    }
}

/// Draining the load queue keeps the registry's invariant.
pub proof fn lemma_drain_keeps_wf<T>(t: AssetTable<T>)
    requires
        t.wf(),
    ensures
        t.drained().wf(),
{
}

/// Storing a texture keeps the registry's invariant.
pub proof fn lemma_store_keeps_wf<T>(t: AssetTable<T>, id: AssetId, texture: T)
    requires
        t.wf(),
    ensures
        t.with_texture(id, texture).wf(),
{
    let u = t.with_texture(id, texture);
    assert forall|p: Seq<char>| #[trigger] u.paths.contains_key(p) implies u.assets.contains_key(
        u.paths[p],
    ) && u.assets[u.paths[p]].path == p by {
        assert(t.paths.contains_key(p));
    }
}

/// Asking again for a path that is held gives the same id.
pub proof fn law_same_path_same_id<T>(t: AssetTable<T>, path: Seq<char>)
    requires
        t.wf(),
        t.can_ref(path),
    ensures
        t.with_ref(path).ref_id(path) == t.ref_id(path),
        t.with_ref(path).assets[t.ref_id(path)].ref_count == (if t.paths.contains_key(path) {
            t.assets[t.paths[path]].ref_count + 1
        } else {
            1
        }),
{
}

/// Freeing the id that a reference returned undoes the reference: the live
/// assets and the path index are as before, and for a path that was already
/// held the whole table is.
pub proof fn law_ref_then_free_restores<T>(t: AssetTable<T>, path: Seq<char>)
    requires
        t.wf(),
        t.can_ref(path),
    ensures
        t.with_ref(path).without_ref(t.ref_id(path)).assets == t.assets,
        t.with_ref(path).without_ref(t.ref_id(path)).paths == t.paths,
        t.paths.contains_key(path) ==> t.with_ref(path).without_ref(t.ref_id(path)) == t,
{
    let u = t.with_ref(path).without_ref(t.ref_id(path));
    if t.paths.contains_key(path) {
        let id = t.paths[path];
        assert(u.assets =~= t.assets);
    } else {
        let id = t.next_id as AssetId;
        assert(!t.assets.contains_key(id));
        assert(u.assets =~= t.assets);
        assert(u.paths =~= t.paths);
    }
}

/// A path that is not held gets an id that no live asset has and that is
/// larger than every id handed out before: ids are never reused.
pub proof fn law_new_path_fresh_id<T>(t: AssetTable<T>, path: Seq<char>)
    requires
        t.wf(),
        !t.paths.contains_key(path),
    ensures
        !t.assets.contains_key(t.ref_id(path)),
        forall|id: AssetId| #[trigger] t.assets.contains_key(id) ==> id < t.ref_id(path),
        forall|i: int| 0 <= i < t.queue.len() ==> #[trigger] t.queue[i] < t.ref_id(path),
{
}

/// Once the last reference to an asset is freed, its path is forgotten and
/// asking for the path again gives a new id.
pub proof fn law_last_free_forgets_path<T>(t: AssetTable<T>, id: AssetId)
    requires
        t.wf(),
        t.assets.contains_key(id),
        t.assets[id].ref_count == 1,
    ensures
        !t.without_ref(id).assets.contains_key(id),
        !t.without_ref(id).paths.contains_key(t.assets[id].path),
        t.without_ref(id).ref_id(t.assets[id].path) != id,
{
}

/// A texture handed back for a live asset is what is drawn for it; for an
/// id that is not live the placeholder is drawn.
pub proof fn law_stored_texture_is_drawn<T>(t: AssetTable<T>, id: AssetId, texture: T)
    ensures
        t.with_texture(id, texture).texture_of(id) == (if t.assets.contains_key(id) {
            texture
        } else {
            t.placeholder
        }),
        !t.assets.contains_key(id) ==> t.texture_of(id) == t.placeholder,
{
}

/// Each asset to load is live, listed with its own path, and listed once;
/// after a drain there is nothing left to load.
pub proof fn law_pending_loads<T>(t: AssetTable<T>)
    requires
        t.wf(),
    ensures
        forall|k: int|
            0 <= k < t.pending().len() ==> {
                &&& t.assets.contains_key(#[trigger] t.pending()[k].0)
                &&& t.pending()[k].1 == t.assets[t.pending()[k].0].path
            },
        forall|k: int, l: int|
            0 <= k < l < t.pending().len() ==> #[trigger] t.pending()[k].0 != #[trigger] t.pending()[l].0,
        t.drained().pending() == Seq::<(AssetId, Seq<char>)>::empty(),
{
    lemma_live_entries(t.assets, t.queue);
}

/// The live entries of a queue are live assets with their paths, drawn from
/// the queue in order, so distinct ids in the queue stay distinct.
proof fn lemma_live_entries<T>(assets: Map<AssetId, AssetRecord<T>>, queue: Seq<AssetId>)
    requires
        forall|i: int, j: int| 0 <= i < j < queue.len() ==> #[trigger] queue[i] != #[trigger] queue[j],
    ensures
        forall|k: int|
            0 <= k < live_entries(assets, queue).len() ==> {
                &&& assets.contains_key(#[trigger] live_entries(assets, queue)[k].0)
                &&& live_entries(assets, queue)[k].1 == assets[live_entries(assets, queue)[k].0].path
                &&& queue.contains(live_entries(assets, queue)[k].0)
            },
        forall|k: int, l: int|
            0 <= k < l < live_entries(assets, queue).len() ==> #[trigger] live_entries(assets, queue)[k].0
                != #[trigger] live_entries(assets, queue)[l].0,
    decreases queue.len(),
{
    if queue.len() > 0 {
        let q = queue.drop_last();
        lemma_live_entries(assets, q);
        let rest = live_entries(assets, q);
        let out = live_entries(assets, queue);
        assert forall|k: int| 0 <= k < rest.len() implies queue.contains(#[trigger] rest[k].0) by {
            let j = choose|j: int| 0 <= j < q.len() && q[j] == rest[k].0;
            assert(queue[j] == rest[k].0);
        }
        if assets.contains_key(queue.last()) {
            assert forall|k: int| 0 <= k < rest.len() implies #[trigger] rest[k].0 != queue.last() by {
                let j = choose|j: int| 0 <= j < q.len() && q[j] == rest[k].0;
                assert(queue[j] == q[j]);
                assert(queue[j] != queue[queue.len() - 1]);
            }
            assert forall|k: int| 0 <= k < out.len() implies queue.contains(#[trigger] out[k].0) by {
                if k == out.len() - 1 {
                    assert(queue[queue.len() - 1] == out[k].0);
                } else {
                    assert(out[k] == rest[k]);
                }
            }
        }
    }
}

/// References, frees of other assets and queue drains leave the texture
/// drawn for a live asset as it is: a loaded texture stays until its last
/// reference is freed.
pub proof fn law_texture_survives_other_operations<T>(
    t: AssetTable<T>,
    id: AssetId,
    path: Seq<char>,
    other: AssetId,
)
    requires
        t.wf(),
        t.assets.contains_key(id),
        other != id,
    ensures
        t.with_ref(path).texture_of(id) == t.texture_of(id),
        t.without_ref(other).texture_of(id) == t.texture_of(id),
        t.drained().texture_of(id) == t.texture_of(id),
{
}

/// `id` is listed in `entries`.
pub open spec fn listed(entries: Seq<(AssetId, Seq<char>)>, id: AssetId) -> bool {
    exists|k: int| 0 <= k < entries.len() && #[trigger] entries[k].0 == id
}

/// `a` was queued before `b`.
pub open spec fn queued_before(queue: Seq<AssetId>, a: AssetId, b: AssetId) -> bool {
    exists|i: int, j: int| 0 <= i < j < queue.len() && #[trigger] queue[i] == a && #[trigger] queue[j] == b
}

/// Nothing queued and still live is left out of the loads: every queued id
/// whose asset is live is listed, only queued ids are listed, and they are
/// listed in the order they were queued.
pub proof fn law_pending_loads_complete<T>(t: AssetTable<T>)
    ensures
        forall|i: int|
            0 <= i < t.queue.len() && t.assets.contains_key(#[trigger] t.queue[i]) ==> listed(
                t.pending(),
                t.queue[i],
            ),
        forall|k: int| 0 <= k < t.pending().len() ==> t.queue.contains(#[trigger] t.pending()[k].0),
        forall|k: int, l: int|
            0 <= k < l < t.pending().len() ==> queued_before(
                t.queue,
                #[trigger] t.pending()[k].0,
                #[trigger] t.pending()[l].0,
            ),
{
    lemma_live_entries_complete(t.assets, t.queue);
}

proof fn lemma_live_entries_complete<T>(assets: Map<AssetId, AssetRecord<T>>, queue: Seq<AssetId>)
    ensures
        forall|i: int|
            0 <= i < queue.len() && assets.contains_key(#[trigger] queue[i]) ==> listed(
                live_entries(assets, queue),
                queue[i],
            ),
        forall|k: int|
            0 <= k < live_entries(assets, queue).len() ==> queue.contains(
                #[trigger] live_entries(assets, queue)[k].0,
            ),
        forall|k: int, l: int|
            0 <= k < l < live_entries(assets, queue).len() ==> queued_before(
                queue,
                #[trigger] live_entries(assets, queue)[k].0,
                #[trigger] live_entries(assets, queue)[l].0,
            ),
    decreases queue.len(),
{
    if queue.len() > 0 {
        let n = queue.len() as int;
        let q = queue.drop_last();
        lemma_live_entries_complete(assets, q);
        let rest = live_entries(assets, q);
        let out = live_entries(assets, queue);
        assert forall|k: int| 0 <= k < rest.len() implies out[k] == rest[k] by {}
        assert forall|i: int|
            0 <= i < queue.len() && assets.contains_key(#[trigger] queue[i]) implies listed(out, queue[i]) by {
            if i < n - 1 {
                assert(q[i] == queue[i]);
                assert(listed(rest, q[i]));
                let k = choose|k: int| 0 <= k < rest.len() && #[trigger] rest[k].0 == q[i];
                assert(out[k].0 == queue[i]);
            } else {
                assert(out[rest.len() as int].0 == queue[i]);
            }
        }
        assert forall|k: int| 0 <= k < out.len() implies queue.contains(#[trigger] out[k].0) by {
            if k < rest.len() {
                assert(q.contains(rest[k].0));
                let j = choose|j: int| 0 <= j < q.len() && q[j] == rest[k].0;
                assert(queue[j] == out[k].0);
            } else {
                assert(queue[n - 1] == out[k].0);
            }
        }
        assert forall|k: int, l: int| 0 <= k < l < out.len() implies queued_before(
            queue,
            #[trigger] out[k].0,
            #[trigger] out[l].0,
        ) by {
            if l < rest.len() {
                assert(queued_before(q, rest[k].0, rest[l].0));
                let (i, j) = choose|i: int, j: int|
                    0 <= i < j < q.len() && #[trigger] q[i] == rest[k].0 && #[trigger] q[j] == rest[l].0;
                assert(queue[i] == out[k].0 && queue[j] == out[l].0);
            } else {
                assert(q.contains(rest[k].0));
                let i = choose|i: int| 0 <= i < q.len() && q[i] == rest[k].0;
                assert(queue[i] == out[k].0);
                assert(queue[n - 1] == out[l].0);
            }
        }
    }
}

/// A reference to a path that is not held registers it with a count of one
/// and no texture, and puts its new id at the end of the load queue, so the
/// next drain loads it; a reference to a held path queues nothing.
pub proof fn law_new_path_is_queued<T>(t: AssetTable<T>, path: Seq<char>)
    requires
        t.wf(),
        t.can_ref(path),
    ensures
        !t.paths.contains_key(path) ==> {
            let u = t.with_ref(path);
            let id = t.ref_id(path);
            &&& u.queue.len() == t.queue.len() + 1
            &&& u.queue.last() == id
            &&& u.queue.drop_last() == t.queue
            &&& u.assets[id].path == path
            &&& u.assets[id].ref_count == 1
            &&& u.assets[id].texture is None
            &&& u.paths[path] == id
            &&& u.pending().len() >= 1
            &&& u.pending().last() == (id, path)
        },
        t.paths.contains_key(path) ==> t.with_ref(path).queue == t.queue,
{
    if !t.paths.contains_key(path) {
        let u = t.with_ref(path);
        assert(u.queue.drop_last() =~= t.queue);
    }
}

/// A reference fits whenever the next id and the path's count are below
/// their limits.
pub proof fn law_ref_fits_below_limits<T>(t: AssetTable<T>, path: Seq<char>)
    requires
        t.next_id < i32::MAX,
        forall|id: AssetId| #[trigger] t.assets.contains_key(id) ==> t.assets[id].ref_count < u32::MAX,
        forall|p: Seq<char>| #[trigger] t.paths.contains_key(p) ==> t.assets.contains_key(t.paths[p]),
    ensures
        t.can_ref(path),
{
}

/// Draining the queue and storing a texture touch nothing else: the live
/// assets' paths and counts, the path index and the next id stay as they
/// are, and storing leaves the queue alone. Freeing an id that is not live
/// changes nothing at all.
pub proof fn law_drain_and_store_touch_nothing_else<T>(t: AssetTable<T>, id: AssetId, texture: T)
    ensures
        t.drained().assets == t.assets,
        t.drained().paths == t.paths,
        t.drained().next_id == t.next_id,
        t.drained().queue.len() == 0,
        t.with_texture(id, texture).paths == t.paths,
        t.with_texture(id, texture).queue == t.queue,
        t.with_texture(id, texture).next_id == t.next_id,
        t.with_texture(id, texture).assets.dom() == t.assets.dom(),
        forall|k: AssetId| #[trigger] t.assets.contains_key(k) ==> {
            &&& t.with_texture(id, texture).assets[k].path == t.assets[k].path
            &&& t.with_texture(id, texture).assets[k].ref_count == t.assets[k].ref_count
        },
        !t.assets.contains_key(id) ==> t.without_ref(id) == t,
{
    assert(t.with_texture(id, texture).assets.dom() =~= t.assets.dom());
}

} // verus!
