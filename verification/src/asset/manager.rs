//! [`AssetManager`]: the asset registry. Imports are content-addressed, so
//! importing the same source again only adds a reference; each asset counts
//! its references, and when the last one goes the asset is removed and the
//! assets it depends on are released in turn.
//!
//! Decoded images are cached by asset id, within a byte budget; a release
//! drops the cached image of every asset it removes, and reports them all.

use std::collections::HashMap;
use vstd::prelude::*;
use vstd::string::StringExecFns;

use super::graph::{children, ids, DependencyGraph};
use super::{
    ascii_lower, fnv1a_spec, kind_for_extension, kind_from_path, path_extension, AssetId, AssetKind, AssetMetadata,
    AssetSource,
};
use std::sync::Arc;

use crate::cache::lru::{key_model, lemma_u64_key_model, put_contents, share, LruCache, Weight};
use crate::frame::Frame;
use crate::error::Error;
use crate::text::{decimal_spec, push_decimal_u64};

verus! {

broadcast use vstd::std_specs::hash::group_hash_axioms;

/// The id a file is registered under: the hash of its path.
pub open spec fn path_id(p: Seq<char>) -> u64 {
    fnv1a_spec(vstd::utf8::encode_utf8(p))
}

/// The id a source is registered under (see [`AssetSource::id`]).
pub open spec fn source_id(s: AssetSource) -> u64 {
    match s {
        AssetSource::File(p) => path_id(p@),
        AssetSource::Bytes(b) => fnv1a_spec((*b)@),
    }
}

/// Two sources name the same file, or hold the same bytes.
pub open spec fn same_source(a: AssetSource, b: AssetSource) -> bool {
    match (a, b) {
        (AssetSource::File(p), AssetSource::File(q)) => p@ == q@,
        (AssetSource::Bytes(x), AssetSource::Bytes(y)) => (*x)@ == (*y)@,
        _ => false,
    }
}

/// Whether `m` is the metadata of a fresh import of `source` as `kind`: its
/// id, kind, byte size (the length of in-memory bytes, 0 for a file) and hint.
pub open spec fn is_import_meta(m: AssetMetadata, source: AssetSource, kind: AssetKind) -> bool {
    &&& m.id.0 == source_id(source)
    &&& m.kind == kind
    &&& m.byte_size == match source {
        AssetSource::Bytes(b) => (*b)@.len(),
        AssetSource::File(_) => 0,
    }
    &&& m.source@ == match source {
        AssetSource::File(p) => p@,
        AssetSource::Bytes(_) => "<bytes>"@,
    }
}

/// Two metadata records say the same.
pub open spec fn same_meta(a: AssetMetadata, b: AssetMetadata) -> bool {
    a.id == b.id && a.kind == b.kind && a.byte_size == b.byte_size && a.source@ == b.source@
}

/// How many of the assets in `rs` depend directly on `k`.
pub open spec fn dependents_among(edges: Set<(u64, u64)>, rs: Set<u64>, k: u64) -> nat {
    rs.filter(|p: u64| edges.contains((p, k))).len()
}

/// Whether a set of assets is closed under a release of `id`: every asset
/// that would have no reference left once `id` lost one and each asset of
/// the set gave up its references to what it depends on, is in the set.
pub open spec fn closed_under_release(rc0: Map<u64, nat>, e0: Set<(u64, u64)>, id: u64, s: Set<u64>) -> bool {
    forall|k: u64|
        rc0.contains_key(k) && rc0[k] <= (if k == id {
            1int
        } else {
            0int
        }) + #[trigger] dependents_among(e0, s, k) ==> s.contains(k)
}

/// What a release of `id` did, from the reference counts and edges before
/// (`rc0`, `e0`) to those after (`rc1`, `e1`), given the assets it removed,
/// in removal order (`gone`): `id` loses one reference, and every removed
/// asset takes one reference from each asset it depended on. The assets
/// left have their counts lowered accordingly; the removed ones had no
/// reference left; their edges are gone. The removed assets are the least
/// set closed under the release: exactly those whose references all go.
pub open spec fn released(
    rc0: Map<u64, nat>,
    e0: Set<(u64, u64)>,
    rc1: Map<u64, nat>,
    e1: Set<(u64, u64)>,
    id: u64,
    gone: Seq<u64>,
) -> bool {
    let g = gone.to_set();
    &&& gone.no_duplicates()
    &&& forall|k: u64| #[trigger] g.contains(k) ==> rc0.contains_key(k)
    &&& forall|k: u64| #[trigger] rc1.contains_key(k) <==> rc0.contains_key(k) && !g.contains(k)
    &&& e1 == e0.filter(|e: (u64, u64)| !g.contains(e.0) && !g.contains(e.1))
    &&& forall|k: u64| #[trigger]
        rc1.contains_key(k) ==> rc1[k] == rc0[k] - (if k == id {
            1int
        } else {
            0int
        }) - dependents_among(e0, g, k)
    &&& forall|k: u64| #[trigger]
        g.contains(k) ==> rc0[k] <= (if k == id {
            1int
        } else {
            0int
        }) + dependents_among(e0, g, k)
    &&& (gone.len() > 0 ==> gone[0] == id)
    &&& forall|s: Set<u64>| s.finite() && #[trigger] closed_under_release(rc0, e0, id, s) ==> g.subset_of(s)
}

proof fn lemma_dep_empty(e: Set<(u64, u64)>, k: u64)
    ensures
        dependents_among(e, Set::<u64>::empty(), k) == 0,
{
    assert(Set::<u64>::empty().filter(|p: u64| e.contains((p, k))) =~= Set::<u64>::empty());
}

proof fn lemma_dep_single(e: Set<(u64, u64)>, x: u64, k: u64)
    ensures
        dependents_among(e, set![x], k) == (if e.contains((x, k)) {
            1nat
        } else {
            0nat
        }),
{
    let f = set![x].filter(|p: u64| e.contains((p, k)));
    if e.contains((x, k)) {
        assert(f =~= set![x]);
    } else {
        assert(f =~= Set::<u64>::empty());
    }
}

proof fn lemma_dep_union(e: Set<(u64, u64)>, a: Set<u64>, b: Set<u64>, k: u64)
    requires
        a.finite(),
        b.finite(),
        a.disjoint(b),
    ensures
        dependents_among(e, a + b, k) == dependents_among(e, a, k) + dependents_among(e, b, k),
{
    let fa = a.filter(|p: u64| e.contains((p, k)));
    let fb = b.filter(|p: u64| e.contains((p, k)));
    a.lemma_len_filter(|p: u64| e.contains((p, k)));
    b.lemma_len_filter(|p: u64| e.contains((p, k)));
    assert((a + b).filter(|p: u64| e.contains((p, k))) =~= fa + fb);
    vstd::set_lib::lemma_set_disjoint_lens(fa, fb);
}

proof fn lemma_dep_subset(e: Set<(u64, u64)>, f: Set<(u64, u64)>, a: Set<u64>, b: Set<u64>, k: u64)
    requires
        b.finite(),
        a.subset_of(b),
        forall|p: u64| a.contains(p) && f.contains((p, k)) ==> e.contains((p, k)),
    ensures
        dependents_among(f, a, k) <= dependents_among(e, b, k),
{
    vstd::set_lib::lemma_len_subset(
        a.filter(|p: u64| f.contains((p, k))),
        b.filter(|p: u64| e.contains((p, k))),
    );
}

proof fn lemma_dep_same(e: Set<(u64, u64)>, f: Set<(u64, u64)>, a: Set<u64>, k: u64)
    requires
        forall|p: u64| a.contains(p) ==> (f.contains((p, k)) <==> e.contains((p, k))),
    ensures
        dependents_among(f, a, k) == dependents_among(e, a, k),
{
    assert(a.filter(|p: u64| f.contains((p, k))) =~= a.filter(|p: u64| e.contains((p, k))));
}

/// One registered asset.
struct Record {
    source: AssetSource,
    meta: AssetMetadata,
    refcount: usize,
}

/// The engine's asset registry.
pub struct AssetManager {
    records: HashMap<u64, Record>,
    graph: DependencyGraph,
    /// Decoded images by asset id.
    images: LruCache<u64, Frame>,
}

/// The byte budget of the image cache (the default image budget).
pub const IMAGE_CACHE_BYTES: usize = 64 * 1024 * 1024;

impl AssetManager {
    /// Reference counts by asset id.
    pub closed spec fn refcounts(&self) -> Map<u64, nat> {
        Map::new(|k: u64| self.records@.contains_key(k), |k: u64| self.records@[k].refcount as nat)
    }

    /// Metadata by asset id.
    pub closed spec fn metas(&self) -> Map<u64, AssetMetadata> {
        Map::new(|k: u64| self.records@.contains_key(k), |k: u64| self.records@[k].meta)
    }

    /// Sources by asset id.
    pub closed spec fn sources(&self) -> Map<u64, AssetSource> {
        Map::new(|k: u64| self.records@.contains_key(k), |k: u64| self.records@[k].source)
    }

    /// The decoded images cached, by asset id.
    pub closed spec fn cached_images(&self) -> Map<u64, Frame> {
        self.images.contents()
    }

    /// The cached images' ids, least recently used first.
    pub closed spec fn image_order(&self) -> Seq<u64> {
        self.images.recency()
    }

    /// The bytes the cached images hold.
    pub closed spec fn image_bytes(&self) -> nat {
        self.images.held_bytes()
    }

    /// The dependency edges, parent first.
    pub closed spec fn edges(&self) -> Set<(u64, u64)> {
        self.graph.edges()
    }

    /// The registry's invariant: every asset is registered under its own id
    /// and holds at least one reference.
    pub closed spec fn wf(&self) -> bool {
        &&& self.graph.wf()
        &&& self.images.wf()
        &&& self.images.entry_cap() == None::<usize>
        &&& self.images.byte_cap() == Some(IMAGE_CACHE_BYTES)
        &&& self.records@.dom().finite()
        &&& forall|k: u64| #[trigger]
            self.records@.contains_key(k) ==> self.records@[k].refcount >= 1 && self.records@[k].meta.id.0
                == k
    }

    /// The number of registered assets.
    pub closed spec fn size(&self) -> nat {
        self.records@.len()
    }

    proof fn lemma_views(&self)
        ensures
            self.refcounts().dom() == self.records@.dom(),
            self.metas().dom() == self.records@.dom(),
            self.sources().dom() == self.records@.dom(),
            self.wf() ==> self.refcounts().dom().finite() && self.size() == self.refcounts().len(),
    {
        assert(self.refcounts().dom() =~= self.records@.dom());
        assert(self.metas().dom() =~= self.records@.dom());
        assert(self.sources().dom() =~= self.records@.dom());
    }

    /// An empty registry.
    pub fn new() -> (r: Self)
        ensures
            r.wf(),
            r.refcounts() == Map::<u64, nat>::empty(),
            r.edges() == Set::<(u64, u64)>::empty(),
            r.cached_images() == Map::<u64, Frame>::empty(),
    {
        let r = AssetManager {
            records: HashMap::new(),
            graph: DependencyGraph::new(),
            images: LruCache::new(None, Some(IMAGE_CACHE_BYTES)),
        };
        assert(r.refcounts() =~= Map::<u64, nat>::empty());
        r
    }

    /// Import a source as `kind`. Deduplicated: importing a source whose id
    /// is already registered adds a reference and returns that id.
    pub fn import(&mut self, source: AssetSource, kind: AssetKind) -> (r: AssetId)
        requires
            old(self).wf(),
            old(self).refcounts().contains_key(source_id(source)) ==> old(self).refcounts()[source_id(
                source,
            )] < usize::MAX,
        ensures
            final(self).wf(),
            r.0 == source_id(source),
            final(self).edges() == old(self).edges(),
            old(self).refcounts().contains_key(r.0) ==> final(self).refcounts() == old(self).refcounts().insert(
                r.0,
                old(self).refcounts()[r.0] + 1,
            ) && final(self).metas() == old(self).metas() && final(self).sources() == old(self).sources(),
            !old(self).refcounts().contains_key(r.0) ==> final(self).refcounts() == old(self).refcounts().insert(
                r.0,
                1,
            ) && is_import_meta(final(self).metas()[r.0], source, kind) && final(self).sources()
                == old(self).sources().insert(r.0, source) && final(self).metas().remove(r.0)
                == old(self).metas(),
    {
        let id = source.id();
        let k = id.0;
        proof {
            assert(source_id(source) == k);
        }
        match self.records.remove(&k) {
            Some(mut rec) => {
                rec.refcount = rec.refcount + 1;
                self.records.insert(k, rec);
                proof {
                    assert(self.refcounts() =~= old(self).refcounts().insert(k, old(self).refcounts()[k] + 1));
                    assert(self.metas() =~= old(self).metas());
                    assert(self.sources() =~= old(self).sources());
                }
            },
            None => {
                let byte_size = match &source {
                    AssetSource::Bytes(b) => b.len(),
                    AssetSource::File(_) => 0,
                };
                let meta = AssetMetadata { id, kind, byte_size, source: source.hint() };
                self.records.insert(k, Record { source, meta, refcount: 1 });
                proof {
                    assert(self.refcounts() =~= old(self).refcounts().insert(k, 1));
                    assert(self.sources() =~= old(self).sources().insert(k, source));
                    assert(self.metas().remove(k) =~= old(self).metas());
                }
            },
        }
        id
    }

    /// Import a file, taking the kind from its extension.
    pub fn import_file(&mut self, path: &str) -> (r: Result<AssetId, Error>)
        requires
            old(self).wf(),
            old(self).refcounts().contains_key(path_id(path@)) ==> old(self).refcounts()[path_id(path@)]
                < usize::MAX,
        ensures
            final(self).wf(),
            match path_extension(path@) {
                Some(e) => kind_for_extension(ascii_lower(vstd::utf8::encode_utf8(e))),
                None => None,
            } matches None ==> (r matches Err(e) && e.is_unsupported("unknown asset extension: "@ + path@)
                && final(self).refcounts() == old(self).refcounts()),
            r matches Ok(id) ==> id.0 == path_id(path@) && final(self).refcounts().contains_key(id.0),
            match path_extension(path@) {
                Some(e) => kind_for_extension(ascii_lower(vstd::utf8::encode_utf8(e))),
                None => None,
            } matches Some(k) ==> (r matches Ok(id) && final(self).edges() == old(self).edges() && (old(
                self,
            ).refcounts().contains_key(id.0) ==> final(self).refcounts() == old(self).refcounts().insert(
                id.0,
                old(self).refcounts()[id.0] + 1,
            ) && final(self).metas() == old(self).metas()) && (!old(self).refcounts().contains_key(id.0)
                ==> final(self).refcounts() == old(self).refcounts().insert(id.0, 1) && final(self).metas()[id.0].kind
                == k && final(self).metas()[id.0].source@ == path@ && final(self).metas()[id.0].byte_size == 0
                && final(self).metas().remove(id.0) == old(self).metas())),
    {
        match kind_from_path(path) {
            None => {
                let mut m = String::from_str("unknown asset extension: ");
                m.append(path);
                Err(Error::UnsupportedFormat(m))
            },
            Some(kind) => {
                let p = String::from_str(path);
                Ok(self.import(AssetSource::File(p), kind))
            },
        }
    }

    /// Whether `id` is registered.
    pub fn contains(&self, id: AssetId) -> (r: bool)
        ensures
            r == self.refcounts().contains_key(id.0),
    {
        self.records.contains_key(&id.0)
    }

    /// The number of registered assets.
    pub fn count(&self) -> (r: usize)
        requires
            self.wf(),
        ensures
            r == self.refcounts().len(),
    {
        proof {
            self.lemma_views();
        }
        self.records.len()
    }

    /// The metadata of `id`, if registered.
    pub fn metadata(&self, id: AssetId) -> (r: Option<AssetMetadata>)
        ensures
            match r {
                Some(m) => self.metas().contains_key(id.0) && same_meta(m, self.metas()[id.0]),
                None => !self.metas().contains_key(id.0),
            },
    {
        match self.records.get(&id.0) {
            Some(rec) => Some(
                AssetMetadata {
                    id: rec.meta.id,
                    kind: rec.meta.kind,
                    byte_size: rec.meta.byte_size,
                    source: rec.meta.source.clone(),
                },
            ),
            None => None,
        }
    }

    /// The reference count of `id`, if registered.
    pub fn refcount(&self, id: AssetId) -> (r: Option<usize>)
        ensures
            match r {
                Some(n) => self.refcounts().contains_key(id.0) && n == self.refcounts()[id.0],
                None => !self.refcounts().contains_key(id.0),
            },
    {
        match self.records.get(&id.0) {
            Some(rec) => Some(rec.refcount),
            None => None,
        }
    }

    /// The source of `id`, if registered.
    pub fn source_of(&self, id: AssetId) -> (r: Result<AssetSource, Error>)
        ensures
            match r {
                Ok(s) => self.sources().contains_key(id.0) && same_source(s, self.sources()[id.0]),
                Err(e) => !self.sources().contains_key(id.0) && e.is_not_found("asset "@ + decimal_spec(
                    id.0 as nat,
                )),
            },
    {
        match self.records.get(&id.0) {
            Some(rec) => Ok(
                match &rec.source {
                    AssetSource::File(p) => AssetSource::File(p.clone()),
                    AssetSource::Bytes(b) => AssetSource::Bytes(share(b)),
                },
            ),
            None => Err(not_found(id)),
        }
    }

    /// Add a reference to `id`.
    pub fn retain(&mut self, id: AssetId) -> (r: Result<(), Error>)
        requires
            old(self).wf(),
            old(self).refcounts().contains_key(id.0) ==> old(self).refcounts()[id.0] < usize::MAX,
        ensures
            final(self).wf(),
            final(self).edges() == old(self).edges(),
            final(self).metas() == old(self).metas(),
            final(self).sources() == old(self).sources(),
            old(self).refcounts().contains_key(id.0) ==> r is Ok && final(self).refcounts() == old(
                self,
            ).refcounts().insert(id.0, old(self).refcounts()[id.0] + 1),
            !old(self).refcounts().contains_key(id.0) ==> (r matches Err(e) && e.is_not_found(
                "asset "@ + decimal_spec(id.0 as nat),
            )) && final(self).refcounts() == old(self).refcounts(),
    {
        match self.records.remove(&id.0) {
            Some(mut rec) => {
                rec.refcount = rec.refcount + 1;
                self.records.insert(id.0, rec);
                proof {
                    assert(self.refcounts() =~= old(self).refcounts().insert(
                        id.0,
                        old(self).refcounts()[id.0] + 1,
                    ));
                    assert(self.metas() =~= old(self).metas());
                    assert(self.sources() =~= old(self).sources());
                }
                Ok(())
            },
            None => Err(not_found(id)),
        }
    }

    /// Record that `parent` depends on `child`, and add a reference to
    /// `child`, which must be registered.
    pub fn add_dependency(&mut self, parent: AssetId, child: AssetId) -> (r: Result<(), Error>)
        requires
            old(self).wf(),
            old(self).refcounts().contains_key(child.0) ==> old(self).refcounts()[child.0] < usize::MAX,
        ensures
            final(self).wf(),
            final(self).metas() == old(self).metas(),
            final(self).sources() == old(self).sources(),
            old(self).refcounts().contains_key(child.0) ==> r is Ok && final(self).edges() == old(
                self,
            ).edges().insert((parent.0, child.0)) && final(self).refcounts() == old(self).refcounts().insert(
                child.0,
                old(self).refcounts()[child.0] + 1,
            ),
            !old(self).refcounts().contains_key(child.0) ==> (r matches Err(e) && e.is_not_found(
                "asset "@ + decimal_spec(child.0 as nat),
            )) && final(self).edges() == old(self).edges() && final(self).refcounts() == old(self).refcounts(),
    {
        if !self.records.contains_key(&child.0) {
            return Err(not_found(child));
        }
        self.graph.add_dependency(parent, child);
        self.retain(child)
    }

    /// Drop a reference to `id`. When none is left the asset is removed
    /// with its edges and its cached image, and each asset it depended on is
    /// released in turn. Every asset removed is appended to `removed` (see
    /// [`released`]). Returns whether `id` itself was removed.
    pub fn release(&mut self, id: AssetId, removed: &mut Vec<AssetId>) -> (r: bool)
        requires
            old(self).wf(),
        ensures
            final(self).wf(),
            r == (old(self).refcounts().contains_key(id.0) && old(self).refcounts()[id.0] == 1),
            r == (final(removed)@.len() > old(removed)@.len()),
            final(removed)@.len() >= old(removed)@.len(),
            final(removed)@.subrange(0, old(removed)@.len() as int) == old(removed)@,
            released(
                old(self).refcounts(),
                old(self).edges(),
                final(self).refcounts(),
                final(self).edges(),
                id.0,
                ids(final(removed)@.skip(old(removed)@.len() as int)),
            ),
            forall|k: u64| #[trigger]
                final(self).refcounts().contains_key(k) ==> final(self).metas()[k] == old(self).metas()[k]
                    && final(self).sources()[k] == old(self).sources()[k],
            final(self).cached_images() == old(self).cached_images().remove_keys(
                ids(final(removed)@.skip(old(removed)@.len() as int)).to_set(),
            ),
    {
        let start = removed.len();
        let r = self.release_records(id, removed);
        let ghost gone = ids(removed@.skip(start as int));
        let ghost images0 = self.images.contents();
        let ghost recs = self.records;
        let ghost gr = self.graph;
        let ghost rem = removed@;
        let mut i = start;
        proof {
            lemma_u64_key_model();
            assert(images0.remove_keys(gone.take(0).to_set()) =~= images0);
        }
        while i < removed.len()
            invariant
                start <= i <= removed@.len(),
                removed@ == rem,
                self.records == recs,
                self.graph == gr,
                gone == ids(rem.skip(start as int)),
                key_model::<u64>(),
                self.images.wf(),
                self.images.entry_cap() == None::<usize>,
                self.images.byte_cap() == Some(IMAGE_CACHE_BYTES),
                self.images.contents() == images0.remove_keys(gone.take(i - start).to_set()),
            decreases removed@.len() - i,
        {
            let k = removed[i].0;
            assert(k == gone[i - start]);
            self.images.remove(&k);
            proof {
                let before = gone.take(i - start);
                let after = gone.take(i + 1 - start);
                assert(after =~= before.push(k));
                assert forall|x: u64| after.contains(x) <==> (before.contains(x) || x == k) by {
                    if after.contains(x) {
                        let j = choose|j: int| 0 <= j < after.len() && after[j] == x;
                        if j < before.len() {
                            assert(before[j] == x);
                        }
                    }
                    if before.contains(x) {
                        let j = choose|j: int| 0 <= j < before.len() && before[j] == x;
                        assert(after[j] == x);
                    }
                    if x == k {
                        assert(after[after.len() - 1] == k);
                    }
                }
                assert(self.images.contents() =~= images0.remove_keys(after.to_set()));
            }
            i = i + 1;
        }
        proof {
            assert(gone.take(i - start) =~= gone);
        }
        r
    }

    /// The cached image of `id`, marked most recently used.
    pub fn cached_image(&mut self, id: AssetId) -> (r: Option<Arc<Frame>>)
        requires
            old(self).wf(),
        ensures
            final(self).wf(),
            final(self).cached_images() == old(self).cached_images(),
            final(self).refcounts() == old(self).refcounts(),
            final(self).metas() == old(self).metas(),
            final(self).sources() == old(self).sources(),
            final(self).edges() == old(self).edges(),
            match r {
                Some(f) => old(self).cached_images().contains_key(id.0) && *f == old(self).cached_images()[id.0],
                None => !old(self).cached_images().contains_key(id.0),
            },
    {
        proof {
            lemma_u64_key_model();
        }
        self.images.get(&id.0)
    }

    /// Cache the decoded image of `id` (evicting the least recently used
    /// images to stay within the budget) and hand it back. Where the cache's
    /// byte count would no longer fit in a `usize`, the image is handed back
    /// without being cached.
    pub fn cache_image(&mut self, id: AssetId, frame: Frame) -> (r: Arc<Frame>)
        requires
            old(self).wf(),
        ensures
            final(self).wf(),
            *r == frame,
            final(self).refcounts() == old(self).refcounts(),
            final(self).metas() == old(self).metas(),
            final(self).sources() == old(self).sources(),
            final(self).edges() == old(self).edges(),
            ({
                let fits = old(self).image_bytes() - (if old(self).cached_images().contains_key(id.0) {
                    old(self).cached_images()[id.0].cost()
                } else {
                    0
                }) + frame.cost() <= usize::MAX;
                &&& fits ==> final(self).cached_images() == put_contents(
                    old(self).image_order(),
                    old(self).cached_images(),
                    id.0,
                    frame,
                    None,
                    Some(IMAGE_CACHE_BYTES),
                ) && final(self).cached_images().contains_key(id.0) && final(self).cached_images()[id.0] == frame
                &&& !fits ==> final(self).cached_images() == old(self).cached_images()
            }),
    {
        proof {
            lemma_u64_key_model();
        }
        let w = frame.weight();
        let held = self.images.weight_of(&id.0);
        if self.images.bytes() - held > usize::MAX - w {
            return Arc::new(frame);
        }
        let ghost order = self.images.recency();
        let ghost contents = self.images.contents();
        let r = self.images.put(id.0, frame);
        proof {
            crate::cache::lru::law_put_then_get(order, contents, id.0, frame, None, Some(IMAGE_CACHE_BYTES));
        }
        r
    }

    /// Release worker: the registry and graph part of [`AssetManager::release`].
    fn release_records(&mut self, id: AssetId, removed: &mut Vec<AssetId>) -> (r: bool)
        requires
            old(self).wf(),
        ensures
            final(self).wf(),
            final(self).images == old(self).images,
            r == (old(self).refcounts().contains_key(id.0) && old(self).refcounts()[id.0] == 1),
            r == (final(removed)@.len() > old(removed)@.len()),
            final(removed)@.len() >= old(removed)@.len(),
            final(removed)@.subrange(0, old(removed)@.len() as int) == old(removed)@,
            released(
                old(self).refcounts(),
                old(self).edges(),
                final(self).refcounts(),
                final(self).edges(),
                id.0,
                ids(final(removed)@.skip(old(removed)@.len() as int)),
            ),
            forall|k: u64| #[trigger]
                final(self).refcounts().contains_key(k) ==> final(self).metas()[k] == old(self).metas()[k]
                    && final(self).sources()[k] == old(self).sources()[k],
        decreases old(self).size(),
    {
        let ghost rc0 = self.refcounts();
        let ghost e0 = self.edges();
        let ghost n0 = removed@.len();
        proof {
            self.lemma_views();
        }
        match self.records.remove(&id.0) {
            None => {
                proof {
                    assert(removed@.skip(n0 as int) =~= Seq::<AssetId>::empty());
                    assert(ids(removed@.skip(n0 as int)).to_set() =~= Set::<u64>::empty());
                    assert forall|k: u64| #[trigger] self.refcounts().contains_key(k) implies self.refcounts()[k]
                        == rc0[k] - (if k == id.0 {
                        1int
                    } else {
                        0int
                    }) - dependents_among(e0, Set::<u64>::empty(), k) by {
                        lemma_dep_empty(e0, k);
                    }
                    assert(e0.filter(|e: (u64, u64)| !Set::<u64>::empty().contains(e.0) && !Set::<
                        u64,
                    >::empty().contains(e.1)) =~= e0);
                    assert(removed@.subrange(0, n0 as int) =~= removed@);
                }
                return false;
            },
            Some(mut rec) => {
                if rec.refcount > 1 {
                    rec.refcount = rec.refcount - 1;
                    self.records.insert(id.0, rec);
                    proof {
                        assert(removed@.skip(n0 as int) =~= Seq::<AssetId>::empty());
                        assert(ids(removed@.skip(n0 as int)).to_set() =~= Set::<u64>::empty());
                        assert forall|k: u64| #[trigger] self.refcounts().contains_key(k) implies self.refcounts()[k]
                            == rc0[k] - (if k == id.0 {
                            1int
                        } else {
                            0int
                        }) - dependents_among(e0, Set::<u64>::empty(), k) by {
                            lemma_dep_empty(e0, k);
                        }
                        assert(e0.filter(|e: (u64, u64)| !Set::<u64>::empty().contains(e.0) && !Set::<
                            u64,
                        >::empty().contains(e.1)) =~= e0);
                        assert(removed@.subrange(0, n0 as int) =~= removed@);
                    }
                    return false;
                }
            },
        }
        let deps = self.graph.dependencies(id);
        self.graph.remove(id);
        removed.push(id);
        let ghost d = ids(deps@);
        let ghost mut gone: Seq<u64> = seq![id.0];
        proof {
            assert(ids(removed@.skip(n0 as int)) =~= gone);
            assert forall|x: u64| gone.to_set().contains(x) <==> set![id.0].contains(x) by {
                if gone.contains(x) {
                    let j = choose|j: int| 0 <= j < gone.len() && #[trigger] gone[j] == x;
                    assert(j == 0);
                }
                if x == id.0 {
                    assert(gone[0] == x);
                }
            }
            assert(gone.to_set() =~= set![id.0]);
            assert forall|k: u64| #[trigger] self.refcounts().contains_key(k) implies self.refcounts()[k]
                == rc0[k] - dependents_among(e0, gone.to_set(), k) + (if d.subrange(0, d.len() as int).contains(
                k,
            ) {
                1int
            } else {
                0int
            }) by {
                lemma_dep_single(e0, id.0, k);
                assert(d.subrange(0, d.len() as int) =~= d);
                if e0.contains((id.0, k)) {
                    assert(d.to_set().contains(k));
                }
                if d.contains(k) {
                    assert(d.to_set().contains(k));
                }
            }
            assert(self.edges() =~= e0.filter(|e: (u64, u64)| !gone.to_set().contains(e.0) && !gone.to_set().contains(e.1)));
            assert forall|s: Set<u64>| s.finite() && #[trigger] closed_under_release(rc0, e0, id.0, s) implies gone.to_set().subset_of(s) by {
                assert(rc0[id.0] <= 1int + dependents_among(e0, s, id.0));
            }
            vstd::set_lib::lemma_len_subset(self.records@.dom(), old(self).records@.dom());
            assert(self.records@.dom().len() < old(self).records@.dom().len()) by {
                assert(self.records@.dom() =~= old(self).records@.dom().remove(id.0));
            }
        }
        let mut i: usize = 0;
        while i < deps.len()
            invariant
                self.wf(),
                self.images == old(self).images,
                i <= deps@.len(),
                d == ids(deps@),
                d.no_duplicates(),
                d.to_set() == children(e0, id.0),
                self.size() < old(self).size(),
                removed@.len() > n0,
                removed@.subrange(0, n0 as int) == old(removed)@,
                ids(removed@.skip(n0 as int)) == gone,
                gone.no_duplicates(),
                gone[0] == id.0,
                rc0 == old(self).refcounts(),
                e0 == old(self).edges(),
                rc0.contains_key(id.0) && rc0[id.0] == 1,
                forall|k: u64| #[trigger] gone.to_set().contains(k) ==> rc0.contains_key(k),
                forall|k: u64| #[trigger]
                    self.refcounts().contains_key(k) <==> rc0.contains_key(k) && !gone.to_set().contains(k),
                self.edges() == e0.filter(|e: (u64, u64)| !gone.to_set().contains(e.0) && !gone.to_set().contains(e.1)),
                forall|k: u64| #[trigger]
                    self.refcounts().contains_key(k) ==> self.refcounts()[k] == rc0[k] - dependents_among(
                        e0,
                        gone.to_set(),
                        k,
                    ) + (if d.subrange(i as int, d.len() as int).contains(k) {
                        1int
                    } else {
                        0int
                    }),
                forall|k: u64| #[trigger]
                    gone.to_set().contains(k) ==> rc0[k] <= (if k == id.0 {
                        1int
                    } else {
                        0int
                    }) + dependents_among(e0, gone.to_set(), k),
                forall|k: u64| #[trigger]
                    self.refcounts().contains_key(k) ==> self.metas()[k] == old(self).metas()[k]
                        && self.sources()[k] == old(self).sources()[k],
                forall|s: Set<u64>| s.finite() && #[trigger] closed_under_release(rc0, e0, id.0, s) ==> gone.to_set().subset_of(s),
            decreases deps@.len() - i,
        {
            let c = deps[i];
            proof {
                assert(d[i as int] == c.0);
            }
            let ghost rcm = self.refcounts();
            let ghost em = self.edges();
            let ghost nm = removed@.len();
            let ghost sm = *self;
            self.release_records(c, removed);
            proof {
                let nn = ids(removed@.skip(nm as int));
                let g = gone.to_set();
                let gn = nn.to_set();
                vstd::seq_lib::seq_to_set_is_finite(gone);
                vstd::seq_lib::seq_to_set_is_finite(nn);
                assert(ids(removed@.skip(n0 as int)) =~= gone + nn);
                assert(g.disjoint(gn));
                vstd::seq_lib::seq_to_set_distributes_over_add(gone, nn);
                let g2 = (gone + nn).to_set();
                assert(g2 == g + gn);
                assert forall|k: u64| #[trigger] self.refcounts().contains_key(k) implies self.refcounts()[k]
                    == rc0[k] - dependents_among(e0, g2, k) + (if d.subrange(i + 1, d.len() as int).contains(k) {
                    1int
                } else {
                    0int
                }) by {
                    lemma_dep_union(e0, g, gn, k);
                    lemma_dep_same(e0, em, gn, k);
                    if d.subrange(i as int, d.len() as int).contains(k) && k != c.0 {
                        let j = choose|j: int| 0 <= j < d.len() - i && #[trigger] d.subrange(i as int, d.len() as int)[j] == k;
                        assert(d[i + j] == k);
                        assert(d.subrange(i + 1, d.len() as int)[j - 1] == k);
                    }
                    if d.subrange(i + 1, d.len() as int).contains(k) {
                        let j = choose|j: int| 0 <= j < d.len() - i - 1 && #[trigger] d.subrange(i + 1, d.len() as int)[j] == k;
                        assert(d[i + 1 + j] == k);
                        assert(d.subrange(i as int, d.len() as int)[j + 1] == k);
                        assert(k != c.0);
                    }
                    if k == c.0 {
                        assert(d.subrange(i as int, d.len() as int)[0] == k);
                    }
                }
                assert forall|k: u64| #[trigger] g2.contains(k) implies rc0[k] <= (if k == id.0 {
                    1int
                } else {
                    0int
                }) + dependents_among(e0, g2, k) by {
                    lemma_dep_union(e0, g, gn, k);
                    if g.contains(k) {
                    } else {
                        assert(gn.contains(k));
                        lemma_dep_subset(e0, em, gn, gn, k);
                        if k == c.0 {
                            assert(d.subrange(i as int, d.len() as int)[0] == k);
                        }
                    }
                }
                assert(self.edges() =~= e0.filter(|e: (u64, u64)| !g2.contains(e.0) && !g2.contains(e.1)));
                assert forall|s: Set<u64>| s.finite() && #[trigger] closed_under_release(rc0, e0, id.0, s) implies g2.subset_of(s) by {
                    let t = s.difference(g);
                    assert(t.finite()) by {
                        vstd::set_lib::lemma_len_subset(t, s);
                    }
                    assert forall|k: u64| rcm.contains_key(k) && rcm[k] <= (if k == c.0 {
                        1int
                    } else {
                        0int
                    }) + #[trigger] dependents_among(em, t, k) implies t.contains(k) by {
                        lemma_dep_same(e0, em, t, k);
                        lemma_dep_union(e0, g, t, k);
                        assert((g + t).subset_of(s));
                        lemma_dep_subset(e0, e0, g + t, s, k);
                        if k == c.0 {
                            assert(d.subrange(i as int, d.len() as int)[0] == k);
                        }
                        assert(rc0[k] <= (if k == id.0 {
                            1int
                        } else {
                            0int
                        }) + dependents_among(e0, s, k));
                    }
                    assert(closed_under_release(rcm, em, c.0, t));
                    assert(gn.subset_of(t));
                }
                assert(removed@.subrange(0, n0 as int) =~= old(removed)@) by {
                    assert(removed@.subrange(0, nm as int).subrange(0, n0 as int) =~= removed@.subrange(0, n0 as int));
                }
                assert((gone + nn)[0] == id.0);
                assert((gone + nn).no_duplicates()) by {
                    assert forall|a: int, b: int| 0 <= a < b < (gone + nn).len() implies (gone + nn)[a] != (gone
                        + nn)[b] by {
                        if a < gone.len() && b >= gone.len() {
                            assert(g.contains((gone + nn)[a]));
                            assert(gn.contains((gone + nn)[b]));
                        }
                    }
                }
                sm.lemma_views();
                self.lemma_views();
                assert(self.records@.dom().subset_of(sm.records@.dom())) by {
                    assert forall|k: u64| self.records@.dom().contains(k) implies sm.records@.dom().contains(k) by {
                        assert(self.refcounts().contains_key(k));
                    }
                }
                vstd::set_lib::lemma_len_subset(self.records@.dom(), sm.records@.dom());
                gone = gone + nn;
            }
            i = i + 1;
        }
        proof {
            let g = gone.to_set();
            assert(d.subrange(i as int, d.len() as int) =~= Seq::<u64>::empty());
            assert forall|k: u64| #[trigger] self.refcounts().contains_key(k) implies self.refcounts()[k] == rc0[k]
                - (if k == id.0 {
                1int
            } else {
                0int
            }) - dependents_among(e0, g, k) by {
                assert(gone[0] == id.0);
                assert(g.contains(id.0));
            }
        }
        true
    }

    /// Direct dependencies of `id`, each once.
    pub fn dependencies(&self, id: AssetId) -> (r: Vec<AssetId>)
        ensures
            ids(r@).to_set() == children(self.edges(), id.0),
            ids(r@).no_duplicates(),
    {
        self.graph.dependencies(id)
    }

    /// Direct dependents of `id` (what depends on it), each once.
    pub fn dependents(&self, id: AssetId) -> (r: Vec<AssetId>)
        requires
            self.wf(),
        ensures
            ids(r@).to_set() == super::graph::parents(self.edges(), id.0),
            ids(r@).no_duplicates(),
    {
        self.graph.dependents(id)
    }

    /// All transitive dependencies of `id`, each once.
    pub fn transitive_dependencies(&self, id: AssetId) -> (r: Vec<AssetId>)
        requires
            self.wf(),
        ensures
            ids(r@).no_duplicates(),
            forall|n: u64| ids(r@).contains(n) <==> super::graph::reachable(self.edges(), id.0, n),
    {
        self.graph.transitive_dependencies(id)
    }
}

/// "asset <id>", not found.
fn not_found(id: AssetId) -> (r: Error)
    ensures
        r.is_not_found("asset "@ + decimal_spec(id.0 as nat)),
{
    let mut m = String::from_str("asset ");
    push_decimal_u64(&mut m, id.0);
    Error::NotFound(m)
}

/// A release's outcome is determined by the counts and edges before it: two
/// releases of `id` from the same registry that leave every remaining asset
/// referenced remove the same assets and leave the same counts and edges,
/// whatever order the dependencies were visited in.
pub proof fn law_release_outcome_unique(
    rc0: Map<u64, nat>,
    e0: Set<(u64, u64)>,
    id: u64,
    rc1: Map<u64, nat>,
    e1: Set<(u64, u64)>,
    gone1: Seq<u64>,
    rc2: Map<u64, nat>,
    e2: Set<(u64, u64)>,
    gone2: Seq<u64>,
)
    requires
        released(rc0, e0, rc1, e1, id, gone1),
        released(rc0, e0, rc2, e2, id, gone2),
        forall|k: u64| #[trigger] rc1.contains_key(k) ==> rc1[k] >= 1,
        forall|k: u64| #[trigger] rc2.contains_key(k) ==> rc2[k] >= 1,
    ensures
        gone1.to_set() == gone2.to_set(),
        rc1 == rc2,
        e1 == e2,
{
    let g1 = gone1.to_set();
    let g2 = gone2.to_set();
    vstd::seq_lib::seq_to_set_is_finite(gone1);
    vstd::seq_lib::seq_to_set_is_finite(gone2);
    assert(closed_under_release(rc0, e0, id, g2)) by {
        assert forall|k: u64|
            rc0.contains_key(k) && rc0[k] <= (if k == id {
                1int
            } else {
                0int
            }) + #[trigger] dependents_among(e0, g2, k) implies g2.contains(k) by {
            if !g2.contains(k) {
                assert(rc2.contains_key(k));
            }
        }
    }
    assert(closed_under_release(rc0, e0, id, g1)) by {
        assert forall|k: u64|
            rc0.contains_key(k) && rc0[k] <= (if k == id {
                1int
            } else {
                0int
            }) + #[trigger] dependents_among(e0, g1, k) implies g1.contains(k) by {
            if !g1.contains(k) {
                assert(rc1.contains_key(k));
            }
        }
    }
    assert(g1 =~= g2);
    assert(rc1.dom() =~= rc2.dom());
    assert(rc1 =~= rc2);
    assert(e1 =~= e2);
}

/// Releasing an asset that holds more than one reference only takes one
/// away: nothing is removed and no edge changes. So a retain (one reference
/// more) followed by a release leaves the counts and edges as they were.
pub proof fn law_release_after_retain(
    rc: Map<u64, nat>,
    e: Set<(u64, u64)>,
    id: u64,
    rc1: Map<u64, nat>,
    e1: Set<(u64, u64)>,
    gone: Seq<u64>,
)
    requires
        rc.contains_key(id),
        forall|k: u64| #[trigger] rc.contains_key(k) ==> rc[k] >= 1,
        released(rc.insert(id, rc[id] + 1), e, rc1, e1, id, gone),
    ensures
        gone.len() == 0,
        rc1 == rc,
        e1 == e,
{
    let rc0 = rc.insert(id, rc[id] + 1);
    let empty = Set::<u64>::empty();
    vstd::seq_lib::seq_to_set_is_finite(gone);
    assert(closed_under_release(rc0, e, id, empty)) by {
        assert forall|k: u64|
            rc0.contains_key(k) && rc0[k] <= (if k == id {
                1int
            } else {
                0int
            }) + #[trigger] dependents_among(e, empty, k) implies empty.contains(k) by {
            lemma_dep_empty(e, k);
            if k != id {
                assert(rc.contains_key(k));
            }
        }
    }
    assert(gone.to_set().subset_of(empty));
    if gone.len() > 0 {
        assert(gone.to_set().contains(gone[0]));
    }
    assert forall|k: u64| #[trigger] rc1.contains_key(k) implies rc1[k] == rc[k] by {
        lemma_dep_empty(e, k);
        assert(gone.to_set() =~= empty);
    }
    assert(gone.to_set() =~= empty);
    assert(rc1.dom() =~= rc.dom());
    assert(rc1 =~= rc);
    assert(e1 =~= e);
}

/// Content addressing: sources naming the same file, or holding the same
/// bytes, get the same id, so importing either one finds the other.
pub proof fn law_identical_sources_share_id(a: AssetSource, b: AssetSource)
    requires
        same_source(a, b),
    ensures
        source_id(a) == source_id(b),
{
}

} // verus!
