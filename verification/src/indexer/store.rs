use vstd::prelude::*;

use crate::indexer::model::{
    entries_normalized, keys_sorted, opt_text, EffectMismatch, EffectMismatchView, FileIndex,
    FileIndexView, FunctionMeta, FunctionMetaView, IndexSnapshot, IndexSnapshotView,
    IndexedDiagnosticView, ReferenceView, SymbolView, INDEX_SCHEMA_VERSION,
};
use crate::indexer::queries::{entry_for, entry_position};
use crate::order::{str_less, str_lt, views};

verus! {

/// The number of entries whose key sorts below `k`, counted from the front
/// while they do: where `k` belongs in a sorted list.
pub open spec fn lower_bound(files: Seq<(Seq<char>, FileIndexView)>, k: Seq<char>) -> int
    decreases files.len(),
{
    if files.len() > 0 && str_lt(files[0].0, k) {
        1 + lower_bound(files.drop_first(), k)
    } else {
        0
    }
}

/// A map insertion on a sorted list of entries: the entry keyed `k` is
/// replaced, or a new one is put where `k` belongs.
pub open spec fn map_insert(
    files: Seq<(Seq<char>, FileIndexView)>,
    k: Seq<char>,
    v: FileIndexView,
) -> Seq<(Seq<char>, FileIndexView)> {
    let p = lower_bound(files, k);
    if p < files.len() && files[p].0 == k {
        files.update(p, (k, v))
    } else {
        files.insert(p, (k, v))
    }
}

/// The entries not keyed `k`, in order.
pub open spec fn map_remove(files: Seq<(Seq<char>, FileIndexView)>, k: Seq<char>) -> Seq<
    (Seq<char>, FileIndexView),
>
    decreases files.len(),
{
    if files.len() == 0 {
        files
    } else if files.last().0 == k {
        map_remove(files.drop_last(), k)
    } else {
        map_remove(files.drop_last(), k).push(files.last())
    }
}

proof fn lemma_lower_bound(files: Seq<(Seq<char>, FileIndexView)>, k: Seq<char>)
    requires
        keys_sorted(files),
    ensures
        0 <= lower_bound(files, k) <= files.len(),
        forall|i: int| 0 <= i < lower_bound(files, k) ==> str_lt(#[trigger] files[i].0, k),
        lower_bound(files, k) < files.len() ==> !str_lt(files[lower_bound(files, k)].0, k),
    decreases files.len(),
{
    if files.len() > 0 && str_lt(files[0].0, k) {
        let d = files.drop_first();
        assert forall|i: int, j: int| 0 <= i < j < d.len() implies str_lt(
            #[trigger] d[i].0,
            #[trigger] d[j].0,
        ) by {
            assert(d[i] == files[i + 1] && d[j] == files[j + 1]);
        }
        lemma_lower_bound(d, k);
        assert forall|i: int| 0 <= i < lower_bound(files, k) implies str_lt(#[trigger] files[i].0, k) by {
            if i > 0 {
                assert(files[i] == d[i - 1]);
            }
        }
    }
}

pub proof fn lemma_map_insert_sorted(
    files: Seq<(Seq<char>, FileIndexView)>,
    k: Seq<char>,
    v: FileIndexView,
)
    requires
        keys_sorted(files),
    ensures
        keys_sorted(map_insert(files, k, v)),
{
    lemma_lower_bound(files, k);
    let p = lower_bound(files, k);
    let r = map_insert(files, k, v);
    if p < files.len() && files[p].0 == k {
        assert forall|i: int, j: int| 0 <= i < j < r.len() implies str_lt(
            #[trigger] r[i].0,
            #[trigger] r[j].0,
        ) by {
            assert(r[i].0 == files[i].0 && r[j].0 == files[j].0);
        }
    } else {
        if p < files.len() {
            crate::order::lemma_str_le_total(files[p].0, k);
            if !str_lt(k, files[p].0) {
                crate::order::lemma_str_lt_eq(files[p].0, k);
            }
        }
        assert forall|i: int, j: int| 0 <= i < j < r.len() implies str_lt(
            #[trigger] r[i].0,
            #[trigger] r[j].0,
        ) by {
            if j < p {
                assert(r[i] == files[i] && r[j] == files[j]);
            } else if j == p {
                assert(r[i] == files[i]);
            } else if i < p {
                assert(r[i] == files[i] && r[j] == files[j - 1]);
                if j - 1 > p {
                    assert(str_lt(files[p].0, files[j - 1].0));
                    crate::order::lemma_str_lt_transitive(k, files[p].0, files[j - 1].0);
                }
                crate::order::lemma_str_lt_transitive(files[i].0, k, files[j - 1].0);
            } else if i == p {
                assert(r[j] == files[j - 1]);
                if j - 1 > p {
                    assert(str_lt(files[p].0, files[j - 1].0));
                    crate::order::lemma_str_lt_transitive(k, files[p].0, files[j - 1].0);
                }
            } else {
                assert(r[i] == files[i - 1] && r[j] == files[j - 1]);
            }
        }
    }
}

impl IndexSnapshot {
    /// Inserts an entry, replacing the one with the same key; the keys stay
    /// sorted.
    pub fn insert(&mut self, key: String, value: FileIndex)
        requires
            old(self)@.wf(),
        ensures
            final(self)@.wf(),
            final(self)@.schema_version == old(self)@.schema_version,
            final(self)@.files == map_insert(old(self)@.files, key@, value@),
    {
        let ghost files = self@.files;
        proof {
            lemma_lower_bound(files, key@);
        }
        let mut p: usize = 0;
        assert(files.skip(0) =~= files);
        while p < self.files.len() && str_less(self.files[p].0.as_str(), key.as_str())
            invariant
                files == self@.files,
                p <= files.len(),
                lower_bound(files, key@) == p + lower_bound(files.skip(p as int), key@),
            decreases self.files.len() - p,
        {
            assert(files[p as int].0 == self.files@[p as int].0@);
            assert(files.skip(p as int)[0] == files[p as int]);
            assert(files.skip(p as int).drop_first() =~= files.skip(p + 1));
            p = p + 1;
        }
        proof {
            if p < files.len() {
                assert(files[p as int].0 == self.files@[p as int].0@);
                assert(files.skip(p as int)[0] == files[p as int]);
            }
        }
        assert(lower_bound(files, key@) == p);
        let ghost entry = (key@, value@);
        proof {
            lemma_map_insert_sorted(files, key@, value@);
        }
        if p < self.files.len() && crate::text::str_eq(self.files[p].0.as_str(), key.as_str()) {
            assert(files[p as int].0 == self.files@[p as int].0@);
            self.files.set(p, (key, value));
            assert(views(self.files@) =~= files.update(p as int, entry));
        } else {
            proof {
                if p < files.len() {
                    assert(files[p as int].0 == self.files@[p as int].0@);
                }
            }
            self.files.insert(p, (key, value));
            assert(views(self.files@) =~= files.insert(p as int, entry));
        }
    }

    /// Removes the entry keyed `key`, if there is one.
    pub fn remove(&mut self, key: &str)
        requires
            old(self)@.wf(),
        ensures
            final(self)@.wf(),
            final(self)@.schema_version == old(self)@.schema_version,
            final(self)@.files == map_remove(old(self)@.files, key@),
    {
        let ghost files = self@.files;
        match entry_position(self, key) {
            None => {
                proof {
                    lemma_entry_for_none(files, key@);
                    lemma_map_remove_absent(files, key@);
                }
            },
            Some(i) => {
                proof {
                    lemma_keep_remove_one(files, key@, i as int);
                }
                self.files.remove(i);
                assert(views(self.files@) =~= files.remove(i as int));
            },
        }
    }
}

proof fn lemma_entry_for_none(files: Seq<(Seq<char>, FileIndexView)>, k: Seq<char>)
    requires
        entry_for(files, k).is_none(),
    ensures
        forall|i: int| 0 <= i < files.len() ==> #[trigger] files[i].0 != k,
    decreases files.len(),
{
    if files.len() > 0 {
        lemma_entry_for_none(files.drop_first(), k);
        assert forall|i: int| 0 <= i < files.len() implies #[trigger] files[i].0 != k by {
            if i > 0 {
                assert(files[i] == files.drop_first()[i - 1]);
            }
        }
    }
}

proof fn lemma_map_remove_absent(files: Seq<(Seq<char>, FileIndexView)>, k: Seq<char>)
    requires
        forall|i: int| 0 <= i < files.len() ==> #[trigger] files[i].0 != k,
    ensures
        map_remove(files, k) == files,
    decreases files.len(),
{
    if files.len() > 0 {
        let d = files.drop_last();
        assert forall|i: int| 0 <= i < d.len() implies #[trigger] d[i].0 != k by {
            assert(d[i] == files[i]);
        }
        lemma_map_remove_absent(d, k);
        assert(files[files.len() - 1].0 != k);
        assert(d.push(files.last()) =~= files);
    }
}

proof fn lemma_keep_remove_one(s: Seq<(Seq<char>, FileIndexView)>, k: Seq<char>, i: int)
    requires
        keys_sorted(s),
        0 <= i < s.len(),
        s[i].0 == k,
    ensures
        map_remove(s, k) == s.remove(i),
    decreases s.len(),
{
    if i == s.len() - 1 {
        let d = s.drop_last();
        assert forall|j: int| 0 <= j < d.len() implies #[trigger] d[j].0 != k by {
            assert(d[j] == s[j]);
            assert(str_lt(s[j].0, s[i].0));
            crate::order::lemma_str_lt_irreflexive(s[j].0);
        }
        lemma_map_remove_absent(d, k);
        assert(s.remove(i) =~= d);
    } else {
        let d = s.drop_last();
        assert forall|a: int, b: int| 0 <= a < b < d.len() implies str_lt(
            #[trigger] d[a].0,
            #[trigger] d[b].0,
        ) by {
            assert(d[a] == s[a] && d[b] == s[b]);
        }
        lemma_keep_remove_one(d, k, i);
        assert(str_lt(s[i].0, s[s.len() - 1].0));
        crate::order::lemma_str_lt_irreflexive(s[i].0);
        assert(s.last().0 != k);
        assert(d.remove(i).push(s.last()) =~= s.remove(i));
    }
}

proof fn lemma_keys_sorted_drop_first(files: Seq<(Seq<char>, FileIndexView)>)
    requires
        keys_sorted(files),
        files.len() > 0,
    ensures
        keys_sorted(files.drop_first()),
{
    let d = files.drop_first();
    assert forall|i: int, j: int| 0 <= i < j < d.len() implies str_lt(#[trigger] d[i].0, #[trigger] d[j].0) by {
        assert(d[i] == files[i + 1] && d[j] == files[j + 1]);
    }
}

/// In a list sorted by key, a key finds the entry that holds it, and a key
/// that no entry holds finds nothing.
proof fn lemma_entry_for_sorted(files: Seq<(Seq<char>, FileIndexView)>, x: Seq<char>)
    requires
        keys_sorted(files),
    ensures
        forall|i: int| 0 <= i < files.len() && #[trigger] files[i].0 == x ==> entry_for(files, x) == Some(files[i].1),
        (forall|i: int| 0 <= i < files.len() ==> #[trigger] files[i].0 != x) ==> entry_for(files, x).is_none(),
    decreases files.len(),
{
    if files.len() > 0 {
        lemma_keys_sorted_drop_first(files);
        lemma_entry_for_sorted(files.drop_first(), x);
        assert forall|i: int| 0 <= i < files.len() && #[trigger] files[i].0 == x implies entry_for(files, x) == Some(files[i].1) by {
            if i > 0 {
                assert(str_lt(files[0].0, files[i].0));
                crate::order::lemma_str_lt_irreflexive(x);
                assert(files.drop_first()[i - 1] == files[i]);
            }
        }
        if forall|i: int| 0 <= i < files.len() ==> #[trigger] files[i].0 != x {
            assert forall|i: int| 0 <= i < files.drop_first().len() implies #[trigger] files.drop_first()[i].0 != x by {
                assert(files.drop_first()[i] == files[i + 1]);
            }
        }
    }
}

/// What a read gives back of a write: after an insertion, the key finds the
/// value inserted, and every other key finds what it found before.
pub proof fn lemma_map_insert_lookup(
    files: Seq<(Seq<char>, FileIndexView)>,
    k: Seq<char>,
    v: FileIndexView,
    other: Seq<char>,
)
    requires
        keys_sorted(files),
    ensures
        entry_for(map_insert(files, k, v), k) == Some(v),
        other != k ==> entry_for(map_insert(files, k, v), other) == entry_for(files, other),
{
    lemma_lower_bound(files, k);
    lemma_map_insert_sorted(files, k, v);
    let p = lower_bound(files, k);
    let r = map_insert(files, k, v);
    lemma_entry_for_sorted(r, k);
    lemma_entry_for_sorted(r, other);
    lemma_entry_for_sorted(files, other);
    assert(r[p] == (k, v));
    assert(r[p].0 == k);
    assert(entry_for(r, k) == Some(r[p].1));
    if other != k {
        if exists|i: int| 0 <= i < files.len() && files[i].0 == other {
            let i = choose|i: int| 0 <= i < files.len() && files[i].0 == other;
            if p < files.len() && files[p].0 == k {
                assert(r[i] == files[i]);
            } else if i < p {
                assert(r[i] == files[i]);
            } else {
                assert(r[i + 1] == files[i]);
            }
        } else {
            assert forall|j: int| 0 <= j < r.len() implies #[trigger] r[j].0 != other by {
                if p < files.len() && files[p].0 == k {
                    if j != p {
                        assert(r[j] == files[j]);
                    }
                } else if j < p {
                    assert(r[j] == files[j]);
                } else if j > p {
                    assert(r[j] == files[j - 1]);
                }
            }
        }
    }
}

/// After a removal the key finds nothing, and every other key finds what it
/// found before.
pub proof fn lemma_map_remove_lookup(files: Seq<(Seq<char>, FileIndexView)>, k: Seq<char>, other: Seq<char>)
    requires
        keys_sorted(files),
    ensures
        entry_for(map_remove(files, k), k).is_none(),
        other != k ==> entry_for(map_remove(files, k), other) == entry_for(files, other),
{
    if exists|i: int| 0 <= i < files.len() && files[i].0 == k {
        let i = choose|i: int| 0 <= i < files.len() && files[i].0 == k;
        lemma_keep_remove_one(files, k, i);
        let r = files.remove(i);
        assert(keys_sorted(r)) by {
            assert forall|a: int, b: int| 0 <= a < b < r.len() implies str_lt(#[trigger] r[a].0, #[trigger] r[b].0) by {
                let a2 = if a < i { a } else { a + 1 };
                let b2 = if b < i { b } else { b + 1 };
                assert(r[a] == files[a2] && r[b] == files[b2]);
            }
        }
        lemma_entry_for_sorted(r, k);
        lemma_entry_for_sorted(r, other);
        lemma_entry_for_sorted(files, other);
        assert forall|j: int| 0 <= j < r.len() implies #[trigger] r[j].0 != k by {
            let j2 = if j < i { j } else { j + 1 };
            assert(r[j] == files[j2]);
            if j2 < i {
                assert(str_lt(files[j2].0, files[i].0));
            } else {
                assert(str_lt(files[i].0, files[j2].0));
            }
            crate::order::lemma_str_lt_irreflexive(k);
        }
        if other != k {
            if exists|q: int| 0 <= q < files.len() && files[q].0 == other {
                let q = choose|q: int| 0 <= q < files.len() && files[q].0 == other;
                if q < i {
                    assert(r[q] == files[q]);
                } else {
                    assert(r[q - 1] == files[q]);
                }
            } else {
                assert forall|j: int| 0 <= j < r.len() implies #[trigger] r[j].0 != other by {
                    let j2 = if j < i { j } else { j + 1 };
                    assert(r[j] == files[j2]);
                }
            }
        }
    } else {
        assert forall|i: int| 0 <= i < files.len() implies #[trigger] files[i].0 != k by {}
        lemma_map_remove_absent(files, k);
        lemma_entry_for_sorted(files, k);
    }
}

proof fn lemma_entries_normalized_lookup(
    a: Seq<(Seq<char>, FileIndexView)>,
    b: Seq<(Seq<char>, FileIndexView)>,
    x: Seq<char>,
)
    requires
        keys_sorted(a),
        entries_normalized(a, b),
    ensures
        entry_for(b, x).is_some() == entry_for(a, x).is_some(),
        entry_for(a, x).is_some() ==> crate::indexer::model::file_index_normalized(
            entry_for(a, x).unwrap(),
            entry_for(b, x).unwrap(),
        ),
{
    assert(keys_sorted(b)) by {
        assert forall|i: int, j: int| 0 <= i < j < b.len() implies str_lt(#[trigger] b[i].0, #[trigger] b[j].0) by {
            assert(b[i].0 == a[i].0 && b[j].0 == a[j].0);
        }
    }
    lemma_entry_for_sorted(a, x);
    lemma_entry_for_sorted(b, x);
    if exists|i: int| 0 <= i < a.len() && a[i].0 == x {
        let i = choose|i: int| 0 <= i < a.len() && a[i].0 == x;
        assert(b[i].0 == x);
        assert(entry_for(a, x) == Some(a[i].1));
        assert(entry_for(b, x) == Some(b[i].1));
    } else {
        assert forall|i: int| 0 <= i < b.len() implies #[trigger] b[i].0 != x by {
            assert(b[i].0 == a[i].0);
        }
    }
}

/// What the index gives back of a file it stored: after `upsert_file`, the
/// file's entry is the index given, normalized, and every other file keeps
/// its entry (normalized) or its absence.
pub proof fn lemma_upsert_then_lookup(
    old_files: Seq<(Seq<char>, FileIndexView)>,
    new_files: Seq<(Seq<char>, FileIndexView)>,
    fi: FileIndexView,
    other: Seq<char>,
)
    requires
        keys_sorted(old_files),
        entries_normalized(map_insert(old_files, fi.file, fi), new_files),
    ensures
        entry_for(new_files, fi.file).is_some(),
        crate::indexer::model::file_index_normalized(fi, entry_for(new_files, fi.file).unwrap()),
        other != fi.file ==> entry_for(new_files, other).is_some() == entry_for(old_files, other).is_some(),
        other != fi.file && entry_for(old_files, other).is_some()
            ==> crate::indexer::model::file_index_normalized(
            entry_for(old_files, other).unwrap(),
            entry_for(new_files, other).unwrap(),
        ),
{
    lemma_map_insert_sorted(old_files, fi.file, fi);
    lemma_map_insert_lookup(old_files, fi.file, fi, other);
    let mid = map_insert(old_files, fi.file, fi);
    lemma_entries_normalized_lookup(mid, new_files, fi.file);
    lemma_entries_normalized_lookup(mid, new_files, other);
}

/// The sum of `f` over `s`.
pub open spec fn total<A>(s: Seq<A>, f: spec_fn(A) -> int) -> int
    decreases s.len(),
{
    if s.len() == 0 {
        0
    } else {
        total(s.drop_last(), f) + f(s.last())
    }
}

pub proof fn lemma_total_prefix<A>(s: Seq<A>, f: spec_fn(A) -> int, i: int)
    requires
        0 <= i < s.len(),
        forall|x: A| #[trigger] f(x) >= 0,
    ensures
        total(s.take(i + 1), f) == total(s.take(i), f) + f(s[i]),
        total(s.take(i + 1), f) <= total(s, f),
        total(s, f) >= 0,
    decreases s.len(),
{
    assert(s.take(i + 1).drop_last() =~= s.take(i));
    assert(s.take(i + 1).last() == s[i]);
    if i + 1 == s.len() {
        assert(s.take(i + 1) =~= s);
        lemma_total_nonneg(s, f);
    } else {
        lemma_total_prefix(s.drop_last(), f, i);
        assert(s.drop_last().take(i + 1) =~= s.take(i + 1));
        assert(s.drop_last().take(i) =~= s.take(i));
    }
}

pub proof fn lemma_total_nonneg<A>(s: Seq<A>, f: spec_fn(A) -> int)
    requires
        forall|x: A| #[trigger] f(x) >= 0,
    ensures
        total(s, f) >= 0,
    decreases s.len(),
{
    if s.len() > 0 {
        lemma_total_nonneg(s.drop_last(), f);
    }
}

/// The number of bytes of the UTF-8 form of a string, as `str::len`
/// reports it.
pub open spec fn blen(s: Seq<char>) -> int {
    (vstd::utf8::encode_utf8(s).len() as usize) as int
}

pub open spec fn opt_blen(o: Option<Seq<char>>) -> int {
    match o {
        Some(t) => blen(t),
        None => 0,
    }
}

pub open spec fn blen_fn() -> spec_fn(Seq<char>) -> int {
    |s: Seq<char>| blen(s)
}

pub open spec fn symbol_bytes() -> spec_fn(SymbolView) -> int {
    |s: SymbolView| blen(s.name) + blen(s.file) + opt_blen(s.module)
}

pub open spec fn reference_bytes() -> spec_fn(ReferenceView) -> int {
    |r: ReferenceView| blen(r.file)
}

pub open spec fn function_meta_bytes() -> spec_fn(FunctionMetaView) -> int {
    |m: FunctionMetaView|
        blen(m.function_name) + blen(m.file) + blen(m.signature_hash) + opt_blen(m.intent_text)
            + total(m.effects_declared, blen_fn()) + total(m.effects_observed, blen_fn())
}

pub open spec fn diagnostic_bytes() -> spec_fn(IndexedDiagnosticView) -> int {
    |d: IndexedDiagnosticView| blen(d.code) + blen(d.message)
}

pub open spec fn mismatch_bytes() -> spec_fn(EffectMismatchView) -> int {
    |m: EffectMismatchView|
        blen(m.function_name) + blen(m.file) + total(m.declared_only, blen_fn()) + total(
            m.observed_only,
            blen_fn(),
        )
}

/// The bytes that one entry adds to the memory estimate.
pub open spec fn entry_bytes() -> spec_fn((Seq<char>, FileIndexView)) -> int {
    |e: (Seq<char>, FileIndexView)|
        blen(e.0) + blen(e.1.file_hash) + total(e.1.dependencies, blen_fn()) + total(
            e.1.symbols,
            symbol_bytes(),
        ) + total(e.1.references, reference_bytes()) + total(
            e.1.function_meta,
            function_meta_bytes(),
        ) + total(e.1.diagnostics, diagnostic_bytes()) + total(
            e.1.effect_mismatches,
            mismatch_bytes(),
        )
}

pub open spec fn symbol_count() -> spec_fn((Seq<char>, FileIndexView)) -> int {
    |e: (Seq<char>, FileIndexView)| e.1.symbols.len() as int
}

pub open spec fn reference_count() -> spec_fn((Seq<char>, FileIndexView)) -> int {
    |e: (Seq<char>, FileIndexView)| e.1.references.len() as int
}

pub open spec fn function_meta_count() -> spec_fn((Seq<char>, FileIndexView)) -> int {
    |e: (Seq<char>, FileIndexView)| e.1.function_meta.len() as int
}

pub open spec fn diagnostic_count() -> spec_fn((Seq<char>, FileIndexView)) -> int {
    |e: (Seq<char>, FileIndexView)| e.1.diagnostics.len() as int
}

/// The totals of a snapshot fit the counters.
pub open spec fn stats_fit(s: IndexSnapshotView) -> bool {
    &&& total(s.files, symbol_count()) <= usize::MAX
    &&& total(s.files, reference_count()) <= usize::MAX
    &&& total(s.files, function_meta_count()) <= usize::MAX
    &&& total(s.files, diagnostic_count()) <= usize::MAX
    &&& total(s.files, entry_bytes()) <= usize::MAX
}

fn str_bytes(s: &String) -> (r: usize)
    ensures
        r == blen(s@),
{
    s.as_str().len()
}

fn opt_bytes(o: &Option<String>) -> (r: usize)
    ensures
        r == opt_blen(opt_text(*o)),
{
    match o {
        Some(t) => t.as_str().len(),
        None => 0,
    }
}

fn total_str_bytes(v: &Vec<String>) -> (r: usize)
    requires
        total(views(v@), blen_fn()) <= usize::MAX,
    ensures
        r == total(views(v@), blen_fn()),
{
    let ghost s = views(v@);
    let mut acc: usize = 0;
    let mut i: usize = 0;
    assert(s.take(0) =~= Seq::<Seq<char>>::empty());
    while i < v.len()
        invariant
            s == views(v@),
            i <= s.len(),
            total(s, blen_fn()) <= usize::MAX,
            acc == total(s.take(i as int), blen_fn()),
        decreases v.len() - i,
    {
        proof {
            lemma_total_prefix(s, blen_fn(), i as int);
        }
        assert(s[i as int] == v@[i as int]@);
        acc = acc + str_bytes(&v[i]);
        i = i + 1;
    }
    assert(s.take(s.len() as int) =~= s);
    acc
}

fn total_symbol_bytes(v: &Vec<crate::indexer::model::Symbol>) -> (r: usize)
    requires
        total(views(v@), symbol_bytes()) <= usize::MAX,
    ensures
        r == total(views(v@), symbol_bytes()),
{
    let ghost s = views(v@);
    let mut acc: usize = 0;
    let mut i: usize = 0;
    assert(s.take(0) =~= Seq::<SymbolView>::empty());
    while i < v.len()
        invariant
            s == views(v@),
            i <= s.len(),
            total(s, symbol_bytes()) <= usize::MAX,
            acc == total(s.take(i as int), symbol_bytes()),
        decreases v.len() - i,
    {
        let x = &v[i];
        assert(s[i as int] == x@);
        proof {
            lemma_total_prefix(s, symbol_bytes(), i as int);
        }
        acc = acc + (str_bytes(&x.name) + str_bytes(&x.file) + opt_bytes(&x.module));
        i = i + 1;
    }
    assert(s.take(s.len() as int) =~= s);
    acc
}

fn total_reference_bytes(v: &Vec<crate::indexer::model::Reference>) -> (r: usize)
    requires
        total(views(v@), reference_bytes()) <= usize::MAX,
    ensures
        r == total(views(v@), reference_bytes()),
{
    let ghost s = views(v@);
    let mut acc: usize = 0;
    let mut i: usize = 0;
    assert(s.take(0) =~= Seq::<ReferenceView>::empty());
    while i < v.len()
        invariant
            s == views(v@),
            i <= s.len(),
            total(s, reference_bytes()) <= usize::MAX,
            acc == total(s.take(i as int), reference_bytes()),
        decreases v.len() - i,
    {
        let x = &v[i];
        assert(s[i as int] == x@);
        proof {
            lemma_total_prefix(s, reference_bytes(), i as int);
        }
        acc = acc + str_bytes(&x.file);
        i = i + 1;
    }
    assert(s.take(s.len() as int) =~= s);
    acc
}

fn total_diagnostic_bytes(v: &Vec<crate::indexer::model::IndexedDiagnostic>) -> (r: usize)
    requires
        total(views(v@), diagnostic_bytes()) <= usize::MAX,
    ensures
        r == total(views(v@), diagnostic_bytes()),
{
    let ghost s = views(v@);
    let mut acc: usize = 0;
    let mut i: usize = 0;
    assert(s.take(0) =~= Seq::<IndexedDiagnosticView>::empty());
    while i < v.len()
        invariant
            s == views(v@),
            i <= s.len(),
            total(s, diagnostic_bytes()) <= usize::MAX,
            acc == total(s.take(i as int), diagnostic_bytes()),
        decreases v.len() - i,
    {
        let x = &v[i];
        assert(s[i as int] == x@);
        proof {
            lemma_total_prefix(s, diagnostic_bytes(), i as int);
        }
        acc = acc + (str_bytes(&x.code) + str_bytes(&x.message));
        i = i + 1;
    }
    assert(s.take(s.len() as int) =~= s);
    acc
}

fn total_meta_bytes(v: &Vec<FunctionMeta>) -> (r: usize)
    requires
        total(views(v@), function_meta_bytes()) <= usize::MAX,
    ensures
        r == total(views(v@), function_meta_bytes()),
{
    let ghost s = views(v@);
    let mut acc: usize = 0;
    let mut i: usize = 0;
    assert(s.take(0) =~= Seq::<FunctionMetaView>::empty());
    while i < v.len()
        invariant
            s == views(v@),
            i <= s.len(),
            total(s, function_meta_bytes()) <= usize::MAX,
            acc == total(s.take(i as int), function_meta_bytes()),
        decreases v.len() - i,
    {
        let x = &v[i];
        assert(s[i as int] == x@);
        proof {
            lemma_meta_bytes_nonneg();
            lemma_total_prefix(s, function_meta_bytes(), i as int);
        }
        proof {
            lemma_total_nonneg(x@.effects_declared, blen_fn());
            lemma_total_nonneg(x@.effects_observed, blen_fn());
        }
        acc = acc + meta_bytes(x);
        i = i + 1;
    }
    assert(s.take(s.len() as int) =~= s);
    acc
}

fn total_mismatch_bytes(v: &Vec<EffectMismatch>) -> (r: usize)
    requires
        total(views(v@), mismatch_bytes()) <= usize::MAX,
    ensures
        r == total(views(v@), mismatch_bytes()),
{
    let ghost s = views(v@);
    let mut acc: usize = 0;
    let mut i: usize = 0;
    assert(s.take(0) =~= Seq::<EffectMismatchView>::empty());
    while i < v.len()
        invariant
            s == views(v@),
            i <= s.len(),
            total(s, mismatch_bytes()) <= usize::MAX,
            acc == total(s.take(i as int), mismatch_bytes()),
        decreases v.len() - i,
    {
        let x = &v[i];
        assert(s[i as int] == x@);
        proof {
            lemma_mismatch_bytes_nonneg();
            lemma_total_prefix(s, mismatch_bytes(), i as int);
        }
        proof {
            lemma_total_nonneg(x@.declared_only, blen_fn());
            lemma_total_nonneg(x@.observed_only, blen_fn());
        }
        acc = acc + mismatch_bytes_of(x);
        i = i + 1;
    }
    assert(s.take(s.len() as int) =~= s);
    acc
}

fn meta_bytes(m: &FunctionMeta) -> (r: usize)
    requires
        function_meta_bytes()(m@) <= usize::MAX,
    ensures
        r == function_meta_bytes()(m@),
{
    proof {
        lemma_total_nonneg(m@.effects_declared, blen_fn());
        lemma_total_nonneg(m@.effects_observed, blen_fn());
    }
    str_bytes(&m.function_name) + str_bytes(&m.file) + str_bytes(&m.signature_hash) + opt_bytes(
        &m.intent_text,
    ) + total_str_bytes(&m.effects_declared) + total_str_bytes(&m.effects_observed)
}

fn mismatch_bytes_of(m: &EffectMismatch) -> (r: usize)
    requires
        mismatch_bytes()(m@) <= usize::MAX,
    ensures
        r == mismatch_bytes()(m@),
{
    proof {
        lemma_total_nonneg(m@.declared_only, blen_fn());
        lemma_total_nonneg(m@.observed_only, blen_fn());
    }
    str_bytes(&m.function_name) + str_bytes(&m.file) + total_str_bytes(&m.declared_only)
        + total_str_bytes(&m.observed_only)
}

proof fn lemma_meta_bytes_nonneg()
    ensures
        forall|m: FunctionMetaView| #[trigger] function_meta_bytes()(m) >= 0,
{
    assert forall|m: FunctionMetaView| #[trigger] function_meta_bytes()(m) >= 0 by {
        lemma_total_nonneg(m.effects_declared, blen_fn());
        lemma_total_nonneg(m.effects_observed, blen_fn());
    }
}

proof fn lemma_mismatch_bytes_nonneg()
    ensures
        forall|m: EffectMismatchView| #[trigger] mismatch_bytes()(m) >= 0,
{
    assert forall|m: EffectMismatchView| #[trigger] mismatch_bytes()(m) >= 0 by {
        lemma_total_nonneg(m.declared_only, blen_fn());
        lemma_total_nonneg(m.observed_only, blen_fn());
    }
}

proof fn lemma_entry_bytes_nonneg()
    ensures
        forall|e: (Seq<char>, FileIndexView)| #[trigger] entry_bytes()(e) >= 0,
{
    assert forall|e: (Seq<char>, FileIndexView)| #[trigger] entry_bytes()(e) >= 0 by {
        lemma_entry_parts_nonneg(e);
    }
}

proof fn lemma_entry_parts_nonneg(e: (Seq<char>, FileIndexView))
    ensures
        total(e.1.dependencies, blen_fn()) >= 0,
        total(e.1.symbols, symbol_bytes()) >= 0,
        total(e.1.references, reference_bytes()) >= 0,
        total(e.1.function_meta, function_meta_bytes()) >= 0,
        total(e.1.diagnostics, diagnostic_bytes()) >= 0,
        total(e.1.effect_mismatches, mismatch_bytes()) >= 0,
{
    lemma_total_nonneg(e.1.dependencies, blen_fn());
    lemma_total_nonneg(e.1.symbols, symbol_bytes());
    lemma_total_nonneg(e.1.references, reference_bytes());
    lemma_meta_bytes_nonneg();
    lemma_total_nonneg(e.1.function_meta, function_meta_bytes());
    lemma_total_nonneg(e.1.diagnostics, diagnostic_bytes());
    lemma_mismatch_bytes_nonneg();
    lemma_total_nonneg(e.1.effect_mismatches, mismatch_bytes());
}

fn entry_bytes_of(key: &String, fi: &FileIndex) -> (r: usize)
    requires
        entry_bytes()((key@, fi@)) <= usize::MAX,
    ensures
        r == entry_bytes()((key@, fi@)),
{
    proof {
        lemma_entry_parts_nonneg((key@, fi@));
    }
    str_bytes(key) + str_bytes(&fi.file_hash) + total_str_bytes(&fi.dependencies)
        + total_symbol_bytes(&fi.symbols) + total_reference_bytes(&fi.references)
        + total_meta_bytes(&fi.function_meta) + total_diagnostic_bytes(&fi.diagnostics)
        + total_mismatch_bytes(&fi.effect_mismatches)
}

/// The memory and count totals of a snapshot.
#[derive(Debug, Clone, PartialEq, Eq, Default)]
pub struct IndexStats {
    pub files: usize,
    pub symbols: usize,
    pub references: usize,
    pub function_meta: usize,
    pub diagnostics: usize,
    pub memory_estimate_bytes: usize,
}

/// The index of a project, kept in memory; `open_or_create` and `save`
/// read and write it as JSON under `root`.
#[derive(Debug, Clone)]
pub struct IndexStore {
    root: String,
    snapshot: IndexSnapshot,
    recovered_from_corruption: bool,
}

impl IndexStore {
    pub closed spec fn snapshot_view(&self) -> IndexSnapshotView {
        self.snapshot@
    }

    pub closed spec fn root_view(&self) -> Seq<char> {
        self.root@
    }

    pub closed spec fn recovered_view(&self) -> bool {
        self.recovered_from_corruption
    }

    pub open spec fn wf(&self) -> bool {
        self.snapshot_view().wf()
    }

    /// A store at `root` with an empty snapshot.
    pub fn new(root: String) -> (r: Self)
        ensures
            r.wf(),
            r.root_view() == root@,
            r.snapshot_view().schema_version == INDEX_SCHEMA_VERSION,
            r.snapshot_view().files.len() == 0,
            !r.recovered_view(),
    {
        IndexStore { root, snapshot: IndexSnapshot::new(), recovered_from_corruption: false }
    }

    /// The store for a snapshot read from disk (`None` when the file could
    /// not be parsed). A snapshot of another schema version, or none, is
    /// replaced by an empty one and the store is marked recovered; the
    /// second result says that the file must then be moved to a backup.
    pub fn from_loaded(root: String, loaded: Option<IndexSnapshot>) -> (r: (Self, bool))
        requires
            match loaded {
                Some(s) => s@.wf(),
                None => true,
            },
        ensures
            r.0.wf(),
            r.0.root_view() == root@,
            r.1 == r.0.recovered_view(),
            match loaded {
                Some(s) => if s@.schema_version == INDEX_SCHEMA_VERSION {
                    !r.1 && r.0.snapshot_view().schema_version == s@.schema_version
                        && entries_normalized(s@.files, r.0.snapshot_view().files)
                } else {
                    r.1 && r.0.snapshot_view().files.len() == 0
                        && r.0.snapshot_view().schema_version == INDEX_SCHEMA_VERSION
                },
                None => r.1 && r.0.snapshot_view().files.len() == 0
                    && r.0.snapshot_view().schema_version == INDEX_SCHEMA_VERSION,
            },
    {
        match loaded {
            Some(mut s) => {
                if s.schema_version != INDEX_SCHEMA_VERSION {
                    (IndexStore { root, snapshot: IndexSnapshot::new(), recovered_from_corruption: true }, true)
                } else {
                    let ghost before = s@;
                    s.normalize();
                    proof {
                        lemma_normalized_keys_sorted(before.files, s@.files);
                    }
                    (IndexStore { root, snapshot: s, recovered_from_corruption: false }, false)
                }
            },
            None => (
                IndexStore { root, snapshot: IndexSnapshot::new(), recovered_from_corruption: true },
                true,
            ),
        }
    }

    /// Drops every entry.
    pub fn clear(&mut self)
        ensures
            final(self).wf(),
            final(self).root_view() == old(self).root_view(),
            final(self).recovered_view() == old(self).recovered_view(),
            final(self).snapshot_view().files.len() == 0,
            final(self).snapshot_view().schema_version == INDEX_SCHEMA_VERSION,
    {
        self.snapshot = IndexSnapshot::new();
    }

    /// Records the index of a file under its path (replacing an older one)
    /// and normalizes the snapshot.
    pub fn upsert_file(&mut self, file_index: FileIndex)
        requires
            old(self).wf(),
        ensures
            final(self).wf(),
            final(self).root_view() == old(self).root_view(),
            final(self).recovered_view() == old(self).recovered_view(),
            final(self).snapshot_view().schema_version == old(self).snapshot_view().schema_version,
            entries_normalized(
                map_insert(old(self).snapshot_view().files, file_index@.file, file_index@),
                final(self).snapshot_view().files,
            ),
    {
        let key = file_index.file.clone();
        self.snapshot.insert(key, file_index);
        let ghost before = self.snapshot@;
        self.snapshot.normalize();
        proof {
            lemma_normalized_keys_sorted(before.files, self.snapshot@.files);
        }
    }

    /// Forgets the file at `file_path`.
    pub fn remove_file(&mut self, file_path: &str)
        requires
            old(self).wf(),
        ensures
            final(self).wf(),
            final(self).root_view() == old(self).root_view(),
            final(self).recovered_view() == old(self).recovered_view(),
            final(self).snapshot_view().schema_version == old(self).snapshot_view().schema_version,
            final(self).snapshot_view().files == map_remove(
                old(self).snapshot_view().files,
                file_path@,
            ),
    {
        self.snapshot.remove(file_path);
    }

    pub fn snapshot(&self) -> (r: &IndexSnapshot)
        ensures
            r@ == self.snapshot_view(),
    {
        &self.snapshot
    }

    pub fn snapshot_mut(&mut self) -> (r: &mut IndexSnapshot)
        ensures
            r@ == old(self).snapshot_view(),
            final(self).snapshot_view() == final(r)@,
            final(self).root_view() == old(self).root_view(),
            final(self).recovered_view() == old(self).recovered_view(),
    {
        &mut self.snapshot
    }

    pub fn root(&self) -> (r: &str)
        ensures
            r@ == self.root_view(),
    {
        self.root.as_str()
    }

    /// The number of files, symbols, references, function records and
    /// diagnostics, and an estimate of the bytes of text the index holds.
    #[verifier::rlimit(40)]
    pub fn stats(&self) -> (r: IndexStats)
        requires
            stats_fit(self.snapshot_view()),
        ensures
            r.files == self.snapshot_view().files.len(),
            r.symbols == total(self.snapshot_view().files, symbol_count()),
            r.references == total(self.snapshot_view().files, reference_count()),
            r.function_meta == total(self.snapshot_view().files, function_meta_count()),
            r.diagnostics == total(self.snapshot_view().files, diagnostic_count()),
            r.memory_estimate_bytes == total(self.snapshot_view().files, entry_bytes()),
    {
        let ghost s = self.snapshot@.files;
        let files = self.snapshot.files.len();
        let mut symbols: usize = 0;
        let mut references: usize = 0;
        let mut function_meta: usize = 0;
        let mut diagnostics: usize = 0;
        let mut bytes: usize = 0;
        let mut i: usize = 0;
        assert(s.take(0) =~= Seq::<(Seq<char>, FileIndexView)>::empty());
        while i < self.snapshot.files.len()
            invariant
                s == self.snapshot@.files,
                i <= s.len(),
                stats_fit(self.snapshot@),
                symbols == total(s.take(i as int), symbol_count()),
                references == total(s.take(i as int), reference_count()),
                function_meta == total(s.take(i as int), function_meta_count()),
                diagnostics == total(s.take(i as int), diagnostic_count()),
                bytes == total(s.take(i as int), entry_bytes()),
            decreases self.snapshot.files.len() - i,
        {
            let (key, fi) = (&self.snapshot.files[i].0, &self.snapshot.files[i].1);
            assert(s[i as int] == (key@, fi@));
            proof {
                lemma_entry_bytes_nonneg();
                lemma_total_prefix(s, symbol_count(), i as int);
                lemma_total_prefix(s, reference_count(), i as int);
                lemma_total_prefix(s, function_meta_count(), i as int);
                lemma_total_prefix(s, diagnostic_count(), i as int);
                lemma_total_prefix(s, entry_bytes(), i as int);
            }
            symbols = symbols + fi.symbols.len();
            references = references + fi.references.len();
            function_meta = function_meta + fi.function_meta.len();
            diagnostics = diagnostics + fi.diagnostics.len();
            bytes = bytes + entry_bytes_of(key, fi);
            i = i + 1;
        }
        assert(s.take(s.len() as int) =~= s);
        IndexStats {
            files,
            symbols,
            references,
            function_meta,
            diagnostics,
            memory_estimate_bytes: bytes,
        }
    }

    pub fn recovered_from_corruption(&self) -> (r: bool)
        ensures
            r == self.recovered_view(),
    {
        self.recovered_from_corruption
    }
}

proof fn lemma_normalized_keys_sorted(
    old: Seq<(Seq<char>, FileIndexView)>,
    new: Seq<(Seq<char>, FileIndexView)>,
)
    requires
        keys_sorted(old),
        entries_normalized(old, new),
    ensures
        keys_sorted(new),
{
    assert forall|i: int, j: int| 0 <= i < j < new.len() implies str_lt(
        #[trigger] new[i].0,
        #[trigger] new[j].0,
    ) by {
        assert(new[i].0 == old[i].0);
        assert(new[j].0 == old[j].0);
    }
}

} // verus!
