use vstd::prelude::*;

use crate::indexer::model::{
    insert_sorted_unique, strictly_sorted, FileIndex, FileIndexView, IndexSnapshot, SymbolKind,
};
use crate::indexer::queries::entry_position;
use crate::indexer::store::{map_insert, map_remove, IndexStore};
use crate::order::views;
use crate::text::str_eq;

verus! {

/// Counters of one incremental update.
#[derive(Debug, Clone, Default, PartialEq, Eq)]
pub struct IncrementalTelemetry {
    pub files_reindexed: usize,
    pub invalidation_fanout: usize,
    pub incremental_update_latency_ms: u128,
    pub cache_hits: usize,
    pub cache_misses: usize,
}

/// The file declares a function called `name`.
pub open spec fn has_function(fi: FileIndexView, name: Seq<char>) -> bool {
    exists|k: int|
        0 <= k < fi.symbols.len() && fi.symbols[k].kind == SymbolKind::Function
            && #[trigger] fi.symbols[k].name == name
}

/// The first file (in key order) that declares a function called `name`.
pub open spec fn owner_of(files: Seq<(Seq<char>, FileIndexView)>, name: Seq<char>) -> Option<
    Seq<char>,
>
    decreases files.len(),
{
    if files.len() == 0 {
        None
    } else if has_function(files[0].1, name) {
        Some(files[0].0)
    } else {
        owner_of(files.drop_first(), name)
    }
}

/// File `y` depends on a function that file `x` owns (`x` and `y` differ):
/// a change to `x` invalidates `y`.
pub open spec fn depends_on(files: Seq<(Seq<char>, FileIndexView)>, x: Seq<char>, y: Seq<char>) -> bool {
    exists|j: int, k: int|
        0 <= j < files.len() && 0 <= k < files[j].1.dependencies.len() && files[j].0 == y
            && owner_of(files, #[trigger] files[j].1.dependencies[k]) == Some(x) && x != y
}

/// `p` is a chain of files, each invalidating the next.
pub open spec fn is_chain(files: Seq<(Seq<char>, FileIndexView)>, p: Seq<Seq<char>>) -> bool {
    &&& p.len() >= 1
    &&& forall|i: int| 0 <= i < p.len() - 1 ==> #[trigger] depends_on(files, p[i], p[i + 1])
}

/// A change to `from` reaches `x` through a chain of dependencies.
pub open spec fn reaches(files: Seq<(Seq<char>, FileIndexView)>, from: Seq<char>, x: Seq<char>) -> bool {
    exists|p: Seq<Seq<char>>| #[trigger] is_chain(files, p) && p[0] == from && p.last() == x
}

/// The owner of the function called `name`.
fn owner_file_of(snapshot: &IndexSnapshot, name: &str) -> (r: Option<String>)
    ensures
        match r {
            Some(o) => owner_of(snapshot@.files, name@) == Some(o@),
            None => owner_of(snapshot@.files, name@).is_none(),
        },
{
    let ghost files = snapshot@.files;
    let mut i: usize = 0;
    assert(files.skip(0) =~= files);
    while i < snapshot.files.len()
        invariant
            files == snapshot@.files,
            i <= files.len(),
            owner_of(files, name@) == owner_of(files.skip(i as int), name@),
        decreases snapshot.files.len() - i,
    {
        let fi = &snapshot.files[i].1;
        assert(files.skip(i as int)[0] == files[i as int]);
        assert(files[i as int].1 == fi@);
        let mut j: usize = 0;
        while j < fi.symbols.len()
            invariant
                files == snapshot@.files,
                i < files.len(),
                files[i as int].1 == fi@,
                owner_of(files, name@) == owner_of(files.skip(i as int), name@),
                files.skip(i as int)[0] == files[i as int],
                j <= fi@.symbols.len(),
                forall|k: int|
                    0 <= k < j ==> !(fi@.symbols[k].kind == SymbolKind::Function
                        && #[trigger] fi@.symbols[k].name == name@),
            decreases fi.symbols.len() - j,
        {
            let s = &fi.symbols[j];
            assert(fi@.symbols[j as int] == s@);
            if s.kind == SymbolKind::Function && str_eq(s.name.as_str(), name) {
                assert(fi@.symbols[j as int].name == name@);
                assert(has_function(fi@, name@));
                assert(files[i as int].0 == snapshot.files@[i as int].0@);
                return Some(snapshot.files[i].0.clone());
            }
            j = j + 1;
        }
        assert(!has_function(fi@, name@));
        assert(files.skip(i as int).drop_first() =~= files.skip(i + 1));
        i = i + 1;
    }
    None
}

/// Keeps the index of a project up to date as files change, and knows
/// which files a change invalidates.
pub struct IncrementalIndexer {
    store: IndexStore,
    /// Pairs (owner, dependent): a change to the owner invalidates the dependent.
    reverse_deps: Vec<(String, String)>,
}

impl IncrementalIndexer {
    pub closed spec fn store_view(&self) -> IndexStore {
        self.store
    }

    /// The store is well formed and the dependency pairs are those of its snapshot.
    pub closed spec fn wf(&self) -> bool {
        &&& self.store.wf()
        &&& forall|x: Seq<char>, y: Seq<char>|
            #![trigger depends_on(self.store.snapshot_view().files, x, y)]
            views(self.reverse_deps@).contains((x, y)) <==> depends_on(
                self.store.snapshot_view().files,
                x,
                y,
            )
    }

    /// An indexer over `store`.
    pub fn new(store: IndexStore) -> (r: Self)
        requires
            store.wf(),
        ensures
            r.wf(),
            r.store_view() == store,
    {
        let mut this = IncrementalIndexer { store, reverse_deps: Vec::new() };
        this.rebuild_dependency_graphs();
        this
    }

    pub fn store(&self) -> (r: &IndexStore)
        ensures
            *r == self.store_view(),
    {
        &self.store
    }

    pub fn store_mut(&mut self) -> (r: &mut IndexStore)
        ensures
            *r == old(self).store_view(),
            final(self).store_view() == *final(r),
    {
        &mut self.store
    }

    pub fn into_store(self) -> (r: IndexStore)
        ensures
            r == self.store_view(),
    {
        self.store
    }

    /// The stored index of the file has the hash of `fi`: nothing to do.
    pub open spec fn is_cache_hit(&self, fi: FileIndexView) -> bool {
        match crate::indexer::queries::entry_for(
            self.store_view().snapshot_view().files,
            fi.file,
        ) {
            Some(e) => e.file_hash == fi.file_hash,
            None => false,
        }
    }

    /// Records a freshly built file index. When the stored one has the same
    /// hash it is a cache hit and nothing changes; otherwise the store is
    /// updated and the dependency pairs recomputed.
    pub fn record_file_index(&mut self, file_index: FileIndex, telemetry: &mut IncrementalTelemetry)
        requires
            old(self).wf(),
            old(telemetry).cache_hits < usize::MAX,
            old(telemetry).cache_misses < usize::MAX,
            old(telemetry).files_reindexed < usize::MAX,
        ensures
            final(self).wf(),
            old(self).is_cache_hit(file_index@) ==> final(self).store_view() == old(self).store_view()
                && *final(telemetry) == (IncrementalTelemetry {
                cache_hits: (old(telemetry).cache_hits + 1) as usize,
                ..*old(telemetry)
            }),
            !old(self).is_cache_hit(file_index@) ==> *final(telemetry) == (IncrementalTelemetry {
                cache_misses: (old(telemetry).cache_misses + 1) as usize,
                files_reindexed: (old(telemetry).files_reindexed + 1) as usize,
                ..*old(telemetry)
            }) && final(self).store_view().root_view() == old(self).store_view().root_view()
                && final(self).store_view().recovered_view()
                == old(self).store_view().recovered_view()
                && final(self).store_view().snapshot_view().schema_version
                == old(self).store_view().snapshot_view().schema_version && crate::indexer::model::entries_normalized(
                map_insert(
                    old(self).store_view().snapshot_view().files,
                    file_index@.file,
                    file_index@,
                ),
                final(self).store_view().snapshot_view().files,
            ),
    {
        let hit = match entry_position(self.store.snapshot(), file_index.file.as_str()) {
            Some(i) => str_eq(
                self.store.snapshot().files[i].1.file_hash.as_str(),
                file_index.file_hash.as_str(),
            ),
            None => false,
        };
        if hit {
            telemetry.cache_hits = telemetry.cache_hits + 1;
        } else {
            telemetry.cache_misses = telemetry.cache_misses + 1;
            self.store.upsert_file(file_index);
            telemetry.files_reindexed = telemetry.files_reindexed + 1;
            self.rebuild_dependency_graphs();
        }
    }

    /// Forgets a file and recomputes the dependency pairs.
    pub fn remove_file(&mut self, file_path: &str)
        requires
            old(self).wf(),
        ensures
            final(self).wf(),
            final(self).store_view().root_view() == old(self).store_view().root_view(),
            final(self).store_view().recovered_view() == old(self).store_view().recovered_view(),
            final(self).store_view().snapshot_view().schema_version == old(
                self,
            ).store_view().snapshot_view().schema_version,
            final(self).store_view().snapshot_view().files == map_remove(
                old(self).store_view().snapshot_view().files,
                file_path@,
            ),
    {
        self.store.remove_file(file_path);
        self.rebuild_dependency_graphs();
    }

    /// Applies what the loader gave for an affected file: its new index is
    /// recorded, or, when the file is gone, it is removed.
    pub fn apply_loaded(
        &mut self,
        file: &str,
        loaded: Option<FileIndex>,
        telemetry: &mut IncrementalTelemetry,
    )
        requires
            old(self).wf(),
            old(telemetry).cache_hits < usize::MAX,
            old(telemetry).cache_misses < usize::MAX,
            old(telemetry).files_reindexed < usize::MAX,
        ensures
            final(self).wf(),
            loaded.is_some() && old(self).is_cache_hit(loaded.unwrap()@) ==> *final(telemetry)
                == (IncrementalTelemetry {
                cache_hits: (old(telemetry).cache_hits + 1) as usize,
                ..*old(telemetry)
            }),
            loaded.is_some() && !old(self).is_cache_hit(loaded.unwrap()@) ==> *final(telemetry)
                == (IncrementalTelemetry {
                cache_misses: (old(telemetry).cache_misses + 1) as usize,
                files_reindexed: (old(telemetry).files_reindexed + 1) as usize,
                ..*old(telemetry)
            }),
            loaded.is_none() ==> *final(telemetry) == *old(telemetry)
                && final(self).store_view().snapshot_view().files == map_remove(
                old(self).store_view().snapshot_view().files,
                file@,
            ),
            loaded.is_some() && old(self).is_cache_hit(loaded.unwrap()@) ==> final(self).store_view()
                == old(self).store_view(),
            loaded.is_some() && !old(self).is_cache_hit(loaded.unwrap()@)
                ==> crate::indexer::model::entries_normalized(
                map_insert(
                    old(self).store_view().snapshot_view().files,
                    loaded.unwrap()@.file,
                    loaded.unwrap()@,
                ),
                final(self).store_view().snapshot_view().files,
            ),
    {
        match loaded {
            Some(file_index) => self.record_file_index(file_index, telemetry),
            None => self.remove_file(file),
        }
    }

    /// Re-indexes every file that a change to `changed_file` invalidates,
    /// in sorted order: the loader gives each one's new index (or `None`
    /// when it is gone), and each answer is applied to the store as
    /// `load_step` says. Each answer that is an index counts as a cache hit
    /// or a miss. The first loader error stops the update (the answers
    /// before it stay applied) and is returned. The latency field is left at
    /// zero for the caller to fill.
    pub fn update_changed_files_with_loader<F>(&mut self, changed_file: &str, loader: F) -> (r:
        Result<IncrementalTelemetry, String>) where F: Fn(&str) -> Result<Option<FileIndex>, String>
        requires
            old(self).wf(),
            forall|s: &str| #[trigger] loader.requires((s,)),
        ensures
            final(self).wf(),
            exists|
                affected: Seq<Seq<char>>,
                results: Seq<Option<FileIndex>>,
                states: Seq<Seq<(Seq<char>, FileIndexView)>>,
            |
                {
                    &&& strictly_sorted(affected)
                    &&& forall|x: Seq<char>|
                        #![trigger affected.contains(x)]
                        affected.contains(x) <==> reaches(
                            old(self).store_view().snapshot_view().files,
                            changed_file@,
                            x,
                        )
                    &&& results.len() <= affected.len()
                    &&& forall|i: int|
                        0 <= i < results.len() ==> #[trigger] loader_gave(
                            loader,
                            affected[i],
                            results[i],
                        )
                    &&& states.len() == results.len() + 1
                    &&& states[0] == old(self).store_view().snapshot_view().files
                    &&& states.last() == final(self).store_view().snapshot_view().files
                    &&& forall|i: int|
                        0 <= i < results.len() ==> #[trigger] load_step(
                            states[i],
                            affected[i],
                            loaded_view(results[i]),
                            states[i + 1],
                        )
                    &&& match r {
                        Ok(t) => {
                            &&& results.len() == affected.len()
                            &&& t.invalidation_fanout == affected.len()
                            &&& t.cache_hits + t.cache_misses == count_loaded(results)
                            &&& t.files_reindexed == t.cache_misses
                            &&& t.incremental_update_latency_ms == 0
                        },
                        Err(e) => {
                            &&& results.len() < affected.len()
                            &&& loader_failed(loader, affected[results.len() as int], e)
                        },
                    }
                },
    {
        let mut telemetry = IncrementalTelemetry {
            files_reindexed: 0,
            invalidation_fanout: 0,
            incremental_update_latency_ms: 0,
            cache_hits: 0,
            cache_misses: 0,
        };
        let affected = self.affected_files_for_change(changed_file);
        let ghost aff = views(affected@);
        let ghost mut results: Seq<Option<FileIndex>> = Seq::empty();
        let ghost mut states: Seq<Seq<(Seq<char>, FileIndexView)>> = seq![
            self.store_view().snapshot_view().files,
        ];
        telemetry.invalidation_fanout = affected.len();
        let mut k: usize = 0;
        while k < affected.len()
            invariant
                self.wf(),
                aff == views(affected@),
                strictly_sorted(aff),
                forall|x: Seq<char>|
                    #![trigger aff.contains(x)]
                    aff.contains(x) <==> reaches(
                        old(self).store_view().snapshot_view().files,
                        changed_file@,
                        x,
                    ),
                k <= affected@.len(),
                forall|s: &str| #[trigger] loader.requires((s,)),
                telemetry.invalidation_fanout == affected@.len(),
                results.len() == k,
                forall|i: int| 0 <= i < k ==> #[trigger] loader_gave(loader, aff[i], results[i]),
                states.len() == k + 1,
                states[0] == old(self).store_view().snapshot_view().files,
                states.last() == self.store_view().snapshot_view().files,
                forall|i: int|
                    0 <= i < k ==> #[trigger] load_step(
                        states[i],
                        aff[i],
                        loaded_view(results[i]),
                        states[i + 1],
                    ),
                telemetry.cache_hits + telemetry.cache_misses == count_loaded(results),
                count_loaded(results) <= k,
                telemetry.files_reindexed == telemetry.cache_misses,
                telemetry.incremental_update_latency_ms == 0,
            decreases affected.len() - k,
        {
            let file = affected[k].as_str();
            let loaded = loader(file);
            match loaded {
                Ok(l) => {
                    proof {
                        assert(aff[k as int] == file@);
                        assert(loader_gave(loader, aff[k as int], l));
                        lemma_count_loaded_push(results, l);
                        results = results.push(l);
                    }
                    let ghost before = self.store_view().snapshot_view().files;
                    self.apply_loaded(file, l, &mut telemetry);
                    proof {
                        assert(load_step(
                            before,
                            aff[k as int],
                            loaded_view(l),
                            self.store_view().snapshot_view().files,
                        ));
                        states = states.push(self.store_view().snapshot_view().files);
                    }
                },
                Err(e) => {
                    assert(aff[k as int] == file@);
                    assert(loader_failed(loader, aff[k as int], e));
                    let r: Result<IncrementalTelemetry, String> = Err(e);
                    assert(match r {
                        Ok(_) => false,
                        Err(e2) => results.len() < aff.len() && loader_failed(
                            loader,
                            aff[results.len() as int],
                            e2,
                        ),
                    });
                    return r;
                },
            }
            k = k + 1;
        }
        Ok(telemetry)
    }

    /// Every file that a change to `changed_file` invalidates, itself
    /// included, sorted and without repeats.
    pub fn affected_files_for_change(&self, changed_file: &str) -> (r: Vec<String>)
        requires
            self.wf(),
        ensures
            strictly_sorted(views(r@)),
            forall|x: Seq<char>|
                #![trigger views(r@).contains(x)]
                views(r@).contains(x) <==> reaches(
                    self.store_view().snapshot_view().files,
                    changed_file@,
                    x,
                ),
    {
        let ghost files = self.store.snapshot_view().files;
        let ghost from = changed_file@;
        let mut result: Vec<String> = Vec::new();
        result.push(crate::text::to_owned_string(changed_file));
        proof {
            let p = seq![from];
            assert(is_chain(files, p));
            assert(views(result@) =~= seq![from]);
            assert(views(result@)[0] == from);
        }
        loop
            invariant
                self.wf(),
                files == self.store.snapshot_view().files,
                from == changed_file@,
                strictly_sorted(views(result@)),
                views(result@).contains(from),
                forall|z: Seq<char>| #[trigger] views(result@).contains(z) ==> reaches(files, from, z),
                forall|z: Seq<char>|
                    #[trigger] views(result@).contains(z) ==> z == from || file_keys(files).contains(z),
            ensures
                strictly_sorted(views(result@)),
                views(result@).contains(from),
                forall|z: Seq<char>| #[trigger] views(result@).contains(z) ==> reaches(files, from, z),
                forall|x: Seq<char>, y: Seq<char>|
                    #![trigger depends_on(files, x, y)]
                    views(result@).contains(x) && depends_on(files, x, y) ==> views(result@).contains(y),
            decreases files.len() + 1 - result@.len(),
        {
            proof {
                lemma_result_bound(files, from, views(result@));
            }
            let ghost start = views(result@);
            let mut added = false;
            let mut e: usize = 0;
            while e < self.reverse_deps.len()
                invariant
                    self.wf(),
                    files == self.store.snapshot_view().files,
                    e <= self.reverse_deps@.len(),
                    strictly_sorted(views(result@)),
                    views(result@).contains(from),
                    forall|z: Seq<char>| #[trigger] views(result@).contains(z) ==> reaches(files, from, z),
                    forall|z: Seq<char>|
                        #[trigger] views(result@).contains(z) ==> z == from || file_keys(files).contains(z),
                    added ==> result@.len() > start.len(),
                    !added ==> views(result@) == start,
                    result@.len() >= start.len(),
                    !added ==> forall|q: int|
                        0 <= q < e ==> #[trigger] views(result@).contains(views(self.reverse_deps@)[q].0)
                            ==> views(result@).contains(views(self.reverse_deps@)[q].1),
                decreases self.reverse_deps.len() - e,
            {
                let x = &self.reverse_deps[e].0;
                let y = &self.reverse_deps[e].1;
                assert(views(self.reverse_deps@)[e as int] == (x@, y@));
                if contains_string(&result, x) && !contains_string(&result, y) {
                    proof {
                        assert(views(self.reverse_deps@).contains((x@, y@)));
                        assert(depends_on(files, x@, y@));
                        lemma_reaches_step(files, from, x@, y@);
                        let (j, k) = choose|j: int, k: int|
                            0 <= j < files.len() && 0 <= k < files[j].1.dependencies.len() && files[j].0
                                == y@ && owner_of(files, #[trigger] files[j].1.dependencies[k]) == Some(x@)
                                && x@ != y@;
                        assert(file_keys(files)[j] == y@);
                    }
                    let ghost before = views(result@);
                    insert_sorted_unique(&mut result, y.clone());
                    proof {
                        assert forall|z: Seq<char>| #[trigger] views(result@).contains(z) implies reaches(
                            files,
                            from,
                            z,
                        ) && (z == from || file_keys(files).contains(z)) by {
                            assert(views(result@).to_set().contains(z));
                            if z != y@ {
                                assert(before.to_set().contains(z));
                            }
                        }
                        assert(views(result@).to_set().contains(from));
                    }
                    added = true;
                }
                e = e + 1;
            }
            if !added {
                proof {
                    assert forall|x: Seq<char>, y: Seq<char>|
                        #![trigger depends_on(files, x, y)]
                        views(result@).contains(x) && depends_on(files, x, y) implies views(
                            result@,
                        ).contains(y) by {
                        assert(views(self.reverse_deps@).contains((x, y)));
                        let q = choose|q: int|
                            0 <= q < views(self.reverse_deps@).len() && views(self.reverse_deps@)[q]
                                == (x, y);
                        assert(views(result@).contains(views(self.reverse_deps@)[q].0));
                    }
                }
                break ;
            }
            proof {
                lemma_result_bound(files, from, views(result@));
            }
        }
        proof {
            assert forall|x: Seq<char>| #![trigger views(result@).contains(x)] reaches(files, from, x) implies views(result@).contains(x) by {
                let p = choose|p: Seq<Seq<char>>| #[trigger] is_chain(files, p) && p[0] == from && p.last() == x;
                lemma_closed_contains_chain(files, views(result@), p, p.len() - 1);
            }
        }
        result
    }

    /// Recomputes which files invalidate which.
    fn rebuild_dependency_graphs(&mut self)
        requires
            old(self).store.wf(),
        ensures
            final(self).wf(),
            final(self).store == old(self).store,
    {
        let snapshot = self.store.snapshot();
        let ghost files = snapshot@.files;
        let mut edges: Vec<(String, String)> = Vec::new();
        let mut j: usize = 0;
        while j < snapshot.files.len()
            invariant
                files == snapshot@.files,
                j <= files.len(),
                forall|x: Seq<char>, y: Seq<char>|
                    #[trigger] views(edges@).contains((x, y)) ==> depends_on(files, x, y),
                forall|jj: int, kk: int|
                    0 <= jj < j && 0 <= kk < files[jj].1.dependencies.len() && owner_of(
                        files,
                        #[trigger] files[jj].1.dependencies[kk],
                    ).is_some() && owner_of(files, files[jj].1.dependencies[kk]).unwrap()
                        != files[jj].0 ==> views(edges@).contains(
                        (owner_of(files, files[jj].1.dependencies[kk]).unwrap(), files[jj].0),
                    ),
            decreases snapshot.files.len() - j,
        {
            let key = &snapshot.files[j].0;
            let fi = &snapshot.files[j].1;
            assert(files[j as int] == (key@, fi@));
            let mut k: usize = 0;
            while k < fi.dependencies.len()
                invariant
                    files == snapshot@.files,
                    j < files.len(),
                    files[j as int] == (key@, fi@),
                    k <= fi@.dependencies.len(),
                    forall|x: Seq<char>, y: Seq<char>|
                        #[trigger] views(edges@).contains((x, y)) ==> depends_on(files, x, y),
                    forall|jj: int, kk: int|
                        ((0 <= jj < j && 0 <= kk < files[jj].1.dependencies.len()) || (jj == j && 0
                            <= kk < k)) && owner_of(
                            files,
                            #[trigger] files[jj].1.dependencies[kk],
                        ).is_some() && owner_of(files, files[jj].1.dependencies[kk]).unwrap()
                            != files[jj].0 ==> views(edges@).contains(
                            (owner_of(files, files[jj].1.dependencies[kk]).unwrap(), files[jj].0),
                        ),
                decreases fi.dependencies.len() - k,
            {
                let dep = &fi.dependencies[k];
                assert(fi@.dependencies[k as int] == dep@);
                match owner_file_of(snapshot, dep.as_str()) {
                    Some(owner) => {
                        if !str_eq(owner.as_str(), key.as_str()) {
                            let ghost pair = (owner@, key@);
                            assert(depends_on(files, owner@, key@)) by {
                                assert(files[j as int].1.dependencies[k as int] == dep@);
                            }
                            let ghost before = views(edges@);
                            edges.push((owner, key.clone()));
                            assert(views(edges@) =~= before.push(pair));
                            assert forall|x: Seq<char>, y: Seq<char>|
                                #[trigger] views(edges@).contains((x, y)) implies depends_on(
                                files,
                                x,
                                y,
                            ) by {
                                if !before.contains((x, y)) {
                                    let q = choose|q: int|
                                        0 <= q < views(edges@).len() && views(edges@)[q] == (x, y);
                                    if q < before.len() {
                                        assert(before[q] == (x, y));
                                    }
                                }
                            }
                            assert forall|jj: int, kk: int|
                                ((0 <= jj < j && 0 <= kk < files[jj].1.dependencies.len()) || (jj
                                    == j && 0 <= kk < k + 1)) && owner_of(
                                    files,
                                    #[trigger] files[jj].1.dependencies[kk],
                                ).is_some() && owner_of(files, files[jj].1.dependencies[kk]).unwrap()
                                    != files[jj].0 implies views(edges@).contains(
                                (owner_of(files, files[jj].1.dependencies[kk]).unwrap(), files[jj].0),
                            ) by {
                                if jj == j && kk == k {
                                    assert(views(edges@)[before.len() as int] == pair);
                                } else {
                                    let e = (
                                        owner_of(files, files[jj].1.dependencies[kk]).unwrap(),
                                        files[jj].0,
                                    );
                                    assert(before.contains(e));
                                    let q = choose|q: int| 0 <= q < before.len() && before[q] == e;
                                    assert(views(edges@)[q] == e);
                                }
                            }
                        }
                    },
                    None => {},
                }
                k = k + 1;
            }
            j = j + 1;
        }
        assert forall|x: Seq<char>, y: Seq<char>|
            #![trigger depends_on(files, x, y)]
            views(edges@).contains((x, y)) <==> depends_on(files, x, y) by {
            if depends_on(files, x, y) {
                let (jj, kk) = choose|jj: int, kk: int|
                    0 <= jj < files.len() && 0 <= kk < files[jj].1.dependencies.len() && files[jj].0
                        == y && owner_of(files, #[trigger] files[jj].1.dependencies[kk]) == Some(x)
                        && x != y;
                assert(owner_of(files, files[jj].1.dependencies[kk]).unwrap() == x);
            }
        }
        self.reverse_deps = edges;
    }
}


/// The keys of the entries.
/// The loader, asked for the file at `path`, can give `res`.
pub open spec fn loader_gave<F: Fn(&str) -> Result<Option<FileIndex>, String>>(
    loader: F,
    path: Seq<char>,
    res: Option<FileIndex>,
) -> bool {
    exists|s: &str| s@ == path && #[trigger] loader.ensures((s,), Ok::<Option<FileIndex>, String>(res))
}

/// The loader, asked for the file at `path`, can fail with `e`.
pub open spec fn loader_failed<F: Fn(&str) -> Result<Option<FileIndex>, String>>(
    loader: F,
    path: Seq<char>,
    e: String,
) -> bool {
    exists|s: &str| s@ == path && #[trigger] loader.ensures((s,), Err::<Option<FileIndex>, String>(e))
}

/// The view of one loader answer.
pub open spec fn loaded_view(res: Option<FileIndex>) -> Option<FileIndexView> {
    match res {
        Some(fi) => Some(fi@),
        None => None,
    }
}

/// The stored entry of `fi`'s file has `fi`'s hash.
pub open spec fn stored_hash_matches(files: Seq<(Seq<char>, FileIndexView)>, fi: FileIndexView) -> bool {
    match crate::indexer::queries::entry_for(files, fi.file) {
        Some(e) => e.file_hash == fi.file_hash,
        None => false,
    }
}

/// What applying one loader answer for the file at `path` does to the
/// stored files `files`, giving `next`: a missing file is removed; an index
/// whose hash is the stored one changes nothing; any other index is stored
/// (normalized) under its own file.
pub open spec fn load_step(
    files: Seq<(Seq<char>, FileIndexView)>,
    path: Seq<char>,
    res: Option<FileIndexView>,
    next: Seq<(Seq<char>, FileIndexView)>,
) -> bool {
    match res {
        None => next == map_remove(files, path),
        Some(fi) => if stored_hash_matches(files, fi) {
            next == files
        } else {
            crate::indexer::model::entries_normalized(map_insert(files, fi.file, fi), next)
        },
    }
}

/// How many of the loader's answers are indexes (not `None`).
pub open spec fn count_loaded(results: Seq<Option<FileIndex>>) -> nat
    decreases results.len(),
{
    if results.len() == 0 {
        0
    } else {
        count_loaded(results.drop_last()) + if results.last() is Some {
            1nat
        } else {
            0nat
        }
    }
}

proof fn lemma_count_loaded_push(results: Seq<Option<FileIndex>>, x: Option<FileIndex>)
    ensures
        count_loaded(results.push(x)) == count_loaded(results) + if x is Some {
            1nat
        } else {
            0nat
        },
        count_loaded(results) <= results.len(),
    decreases results.len(),
{
    assert(results.push(x).drop_last() =~= results);
    if results.len() > 0 {
        lemma_count_loaded_push(results.drop_last(), results.last());
        assert(results.drop_last().push(results.last()) =~= results);
    }
}

pub open spec fn file_keys(files: Seq<(Seq<char>, FileIndexView)>) -> Seq<Seq<char>> {
    files.map_values(|e: (Seq<char>, FileIndexView)| e.0)
}

/// Whether `s` is one of the strings of `v`.
fn contains_string(v: &Vec<String>, s: &String) -> (r: bool)
    ensures
        r == views(v@).contains(s@),
{
    let mut i: usize = 0;
    while i < v.len()
        invariant
            i <= v@.len(),
            forall|k: int| 0 <= k < i ==> views(v@)[k] != s@,
        decreases v.len() - i,
    {
        assert(views(v@)[i as int] == v@[i as int]@);
        if str_eq(v[i].as_str(), s.as_str()) {
            return true;
        }
        i = i + 1;
    }
    false
}

proof fn lemma_reaches_step(files: Seq<(Seq<char>, FileIndexView)>, from: Seq<char>, x: Seq<char>, y: Seq<char>)
    requires
        reaches(files, from, x),
        depends_on(files, x, y),
    ensures
        reaches(files, from, y),
{
    let p = choose|p: Seq<Seq<char>>| #[trigger] is_chain(files, p) && p[0] == from && p.last() == x;
    let q = p.push(y);
    assert forall|i: int| 0 <= i < q.len() - 1 implies #[trigger] depends_on(files, q[i], q[i + 1]) by {
        if i < p.len() - 1 {
            assert(q[i] == p[i] && q[i + 1] == p[i + 1]);
        } else {
            assert(q[i] == x && q[i + 1] == y);
        }
    }
    assert(is_chain(files, q));
    assert(q[0] == from);
}

proof fn lemma_closed_contains_chain(
    files: Seq<(Seq<char>, FileIndexView)>,
    r: Seq<Seq<char>>,
    p: Seq<Seq<char>>,
    i: int,
)
    requires
        is_chain(files, p),
        r.contains(p[0]),
        0 <= i < p.len(),
        forall|x: Seq<char>, y: Seq<char>|
            #![trigger depends_on(files, x, y)]
            r.contains(x) && depends_on(files, x, y) ==> r.contains(y),
    ensures
        r.contains(p[i]),
    decreases i,
{
    if i > 0 {
        lemma_closed_contains_chain(files, r, p, i - 1);
        let k = i - 1;
        assert(depends_on(files, p[k], p[k + 1]));
    }
}

proof fn lemma_result_bound(
    files: Seq<(Seq<char>, FileIndexView)>,
    from: Seq<char>,
    r: Seq<Seq<char>>,
)
    requires
        strictly_sorted(r),
        forall|z: Seq<char>| #[trigger] r.contains(z) ==> z == from || file_keys(files).contains(z),
    ensures
        r.len() <= files.len() + 1,
{
    broadcast use vstd::seq_lib::seq_to_set_is_finite;

    let u = file_keys(files).push(from);
    assert(r.no_duplicates()) by {
        assert forall|i: int, j: int| 0 <= i < r.len() && 0 <= j < r.len() && i != j implies r[i] != r[j] by {
            if i < j {
                assert(crate::order::str_lt(r[i], r[j]));
            } else {
                assert(crate::order::str_lt(r[j], r[i]));
            }
            crate::order::lemma_str_lt_irreflexive(r[i]);
        }
    }
    assert(r.to_set().subset_of(u.to_set())) by {
        assert forall|z: Seq<char>| r.to_set().contains(z) implies u.to_set().contains(z) by {
            assert(r.contains(z));
            if z == from {
                assert(u[u.len() - 1] == z);
            } else {
                let k = choose|k: int| 0 <= k < file_keys(files).len() && file_keys(files)[k] == z;
                assert(u[k] == z);
            }
        }
    }
    vstd::set_lib::lemma_len_subset(r.to_set(), u.to_set());
    r.unique_seq_to_set();
    u.lemma_cardinality_of_set();
}

} // verus!
