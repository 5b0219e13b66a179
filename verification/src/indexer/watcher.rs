use vstd::prelude::*;

use crate::order::{
    is_stable_sort_of, key_le, key_less, lemma_key_le_total, lemma_key_le_transitive, stable_sort,
    views, KeyAtom, KeyPart, TotalPreorder,
};
use crate::text::str_eq;

verus! {

#[derive(Debug, Clone, Copy, PartialEq, Eq, Structural)]
pub enum FileChangeKind {
    Added,
    Modified,
    Removed,
}

#[derive(Debug, Clone, PartialEq, Eq)]
pub struct FileChange {
    pub file: String,
    pub kind: FileChangeKind,
    pub hash: Option<String>,
}

pub struct FileChangeView {
    pub file: Seq<char>,
    pub kind: FileChangeKind,
    pub hash: Option<Seq<char>>,
}

impl View for FileChange {
    type V = FileChangeView;

    open spec fn view(&self) -> FileChangeView {
        FileChangeView {
            file: self.file@,
            kind: self.kind,
            hash: crate::indexer::model::opt_text(self.hash),
        }
    }
}

/// The hash recorded for `file`: the first entry with that key.
pub open spec fn hash_of(hashes: Seq<(Seq<char>, Seq<char>)>, file: Seq<char>) -> Option<Seq<char>>
    decreases hashes.len(),
{
    if hashes.len() == 0 {
        None
    } else if hashes[0].0 == file {
        Some(hashes[0].1)
    } else {
        hash_of(hashes.drop_first(), file)
    }
}

/// The files of `new` that `old` does not know, in the order of `new`.
pub open spec fn added_changes(
    old: Seq<(Seq<char>, Seq<char>)>,
    new: Seq<(Seq<char>, Seq<char>)>,
) -> Seq<FileChangeView>
    decreases new.len(),
{
    if new.len() == 0 {
        Seq::empty()
    } else if hash_of(old, new.last().0).is_none() {
        added_changes(old, new.drop_last()).push(
            FileChangeView { file: new.last().0, kind: FileChangeKind::Added, hash: Some(new.last().1) },
        )
    } else {
        added_changes(old, new.drop_last())
    }
}

/// The files of `old` that `new` does not have, in the order of `old`.
pub open spec fn removed_changes(
    old: Seq<(Seq<char>, Seq<char>)>,
    new: Seq<(Seq<char>, Seq<char>)>,
) -> Seq<FileChangeView>
    decreases old.len(),
{
    if old.len() == 0 {
        Seq::empty()
    } else if hash_of(new, old.last().0).is_none() {
        removed_changes(old.drop_last(), new).push(
            FileChangeView { file: old.last().0, kind: FileChangeKind::Removed, hash: None },
        )
    } else {
        removed_changes(old.drop_last(), new)
    }
}

/// The files of both whose hash changed, in the order of `old`.
pub open spec fn modified_changes(
    old: Seq<(Seq<char>, Seq<char>)>,
    new: Seq<(Seq<char>, Seq<char>)>,
) -> Seq<FileChangeView>
    decreases old.len(),
{
    if old.len() == 0 {
        Seq::empty()
    } else if hash_of(new, old.last().0).is_some() && Some(old.last().1) != hash_of(
        new,
        old.last().0,
    ) {
        modified_changes(old.drop_last(), new).push(
            FileChangeView {
                file: old.last().0,
                kind: FileChangeKind::Modified,
                hash: hash_of(new, old.last().0),
            },
        )
    } else {
        modified_changes(old.drop_last(), new)
    }
}

pub open spec fn change_key(c: FileChangeView) -> Seq<KeyAtom> {
    seq![KeyAtom::Text(c.file)]
}

/// Changes ordered by file.
pub struct FileChangeOrder;

impl TotalPreorder<FileChange> for FileChangeOrder {
    open spec fn le(a: FileChangeView, b: FileChangeView) -> bool {
        key_le(change_key(a), change_key(b))
    }

    proof fn lemma_total(a: FileChangeView, b: FileChangeView) {
        lemma_key_le_total(change_key(a), change_key(b));
    }

    proof fn lemma_transitive(a: FileChangeView, b: FileChangeView, c: FileChangeView) {
        lemma_key_le_transitive(change_key(a), change_key(b), change_key(c));
    }

    fn le_exec(a: &FileChange, b: &FileChange) -> (r: bool) {
        let ka = vec![KeyPart::Text(a.file.as_str())];
        let kb = vec![KeyPart::Text(b.file.as_str())];
        assert(views(ka@) =~= change_key(a@));
        assert(views(kb@) =~= change_key(b@));
        !key_less(kb.as_slice(), ka.as_slice())
    }
}

fn hash_lookup<'a>(hashes: &'a Vec<(String, String)>, file: &str) -> (r: Option<&'a String>)
    ensures
        match r {
            Some(h) => hash_of(views(hashes@), file@) == Some(h@),
            None => hash_of(views(hashes@), file@).is_none(),
        },
{
    let ghost s = views(hashes@);
    let mut i: usize = 0;
    assert(s.skip(0) =~= s);
    while i < hashes.len()
        invariant
            s == views(hashes@),
            i <= s.len(),
            hash_of(s, file@) == hash_of(s.skip(i as int), file@),
        decreases hashes.len() - i,
    {
        assert(s.skip(i as int)[0] == s[i as int]);
        assert(s[i as int] == (hashes@[i as int].0@, hashes@[i as int].1@));
        if str_eq(hashes[i].0.as_str(), file) {
            return Some(&hashes[i].1);
        }
        assert(s.skip(i as int).drop_first() =~= s.skip(i + 1));
        i = i + 1;
    }
    None
}

/// Tracks the content hashes of source files between scans.
#[derive(Debug, Clone, Default)]
pub struct FileWatcher {
    known_hashes: Vec<(String, String)>,
}

impl FileWatcher {
    pub closed spec fn known(&self) -> Seq<(Seq<char>, Seq<char>)> {
        views(self.known_hashes@)
    }

    pub fn new() -> (r: Self)
        ensures
            r.known().len() == 0,
    {
        let r = FileWatcher { known_hashes: Vec::new() };
        assert(views(r.known_hashes@) =~= Seq::<(Seq<char>, Seq<char>)>::empty());
        r
    }

    /// Remembers the hashes of a first scan (path and hash of each file).
    pub fn prime_from_paths(&mut self, hashes: Vec<(String, String)>)
        ensures
            final(self).known() == views(hashes@),
    {
        self.known_hashes = hashes;
    }

    /// Compares the hashes of a new scan with the known ones: added,
    /// removed and modified files, ordered by file; the new hashes become
    /// the known ones.
    pub fn scan(&mut self, next_hashes: Vec<(String, String)>) -> (r: Vec<FileChange>)
        ensures
            final(self).known() == views(next_hashes@),
            is_stable_sort_of::<FileChange, FileChangeOrder>(
                added_changes(old(self).known(), views(next_hashes@)) + removed_changes(
                    old(self).known(),
                    views(next_hashes@),
                ) + modified_changes(old(self).known(), views(next_hashes@)),
                views(r@),
            ),
    {
        let ghost old_s = views(self.known_hashes@);
        let ghost new_s = views(next_hashes@);
        let mut out: Vec<FileChange> = Vec::new();
        // added
        let mut j: usize = 0;
        assert(new_s.take(0) =~= Seq::<(Seq<char>, Seq<char>)>::empty());
        while j < next_hashes.len()
            invariant
                old_s == views(self.known_hashes@),
                new_s == views(next_hashes@),
                j <= new_s.len(),
                views(out@) == added_changes(old_s, new_s.take(j as int)),
            decreases next_hashes.len() - j,
        {
            let file = &next_hashes[j].0;
            let ghost t = new_s.take(j + 1);
            assert(t.drop_last() =~= new_s.take(j as int));
            assert(t.last() == new_s[j as int]);
            assert(new_s[j as int] == (next_hashes@[j as int].0@, next_hashes@[j as int].1@));
            if hash_lookup(&self.known_hashes, file.as_str()).is_none() {
                let h = Some(next_hashes[j].1.clone());
                let ghost before = views(out@);
                out.push(FileChange { file: file.clone(), kind: FileChangeKind::Added, hash: h });
                assert(views(out@) =~= before.push(out@[before.len() as int]@));
            }
            j = j + 1;
        }
        assert(new_s.take(new_s.len() as int) =~= new_s);
        let ghost added = views(out@);
        // removed
        let mut i: usize = 0;
        assert(old_s.take(0) =~= Seq::<(Seq<char>, Seq<char>)>::empty());
        assert(added + removed_changes(old_s.take(0), new_s) =~= added);
        while i < self.known_hashes.len()
            invariant
                old_s == views(self.known_hashes@),
                new_s == views(next_hashes@),
                i <= old_s.len(),
                views(out@) == added + removed_changes(old_s.take(i as int), new_s),
            decreases self.known_hashes.len() - i,
        {
            let file = &self.known_hashes[i].0;
            let ghost t = old_s.take(i + 1);
            assert(t.drop_last() =~= old_s.take(i as int));
            assert(t.last() == old_s[i as int]);
            assert(old_s[i as int] == (self.known_hashes@[i as int].0@, self.known_hashes@[i as int].1@));
            if hash_lookup(&next_hashes, file.as_str()).is_none() {
                let ghost before = views(out@);
                out.push(FileChange { file: file.clone(), kind: FileChangeKind::Removed, hash: None });
                assert(views(out@) =~= before.push(out@[before.len() as int]@));
                assert(added + removed_changes(t, new_s) =~= before.push(out@[before.len() as int]@));
            }
            i = i + 1;
        }
        assert(old_s.take(old_s.len() as int) =~= old_s);
        let ghost added_removed = views(out@);
        // modified
        let mut i: usize = 0;
        assert(added_removed + modified_changes(old_s.take(0), new_s) =~= added_removed);
        while i < self.known_hashes.len()
            invariant
                old_s == views(self.known_hashes@),
                new_s == views(next_hashes@),
                i <= old_s.len(),
                views(out@) == added_removed + modified_changes(old_s.take(i as int), new_s),
            decreases self.known_hashes.len() - i,
        {
            let file = &self.known_hashes[i].0;
            let ghost t = old_s.take(i + 1);
            assert(t.drop_last() =~= old_s.take(i as int));
            assert(t.last() == old_s[i as int]);
            assert(old_s[i as int] == (self.known_hashes@[i as int].0@, self.known_hashes@[i as int].1@));
            let old_hash = &self.known_hashes[i].1;
            let new_hash = hash_lookup(&next_hashes, file.as_str());
            let differs = match new_hash {
                Some(b) => !str_eq(old_hash.as_str(), b.as_str()),
                None => false,
            };
            if differs {
                let h = match new_hash {
                    Some(b) => Some(b.clone()),
                    None => None,
                };
                let ghost before = views(out@);
                out.push(FileChange { file: file.clone(), kind: FileChangeKind::Modified, hash: h });
                assert(views(out@) =~= before.push(out@[before.len() as int]@));
                assert(added_removed + modified_changes(t, new_s) =~= before.push(
                    out@[before.len() as int]@,
                ));
            }
            i = i + 1;
        }
        assert(old_s.take(old_s.len() as int) =~= old_s);
        self.known_hashes = next_hashes;
        stable_sort::<FileChange, FileChangeOrder>(out)
    }
}

/// No two entries share a file.
pub open spec fn files_distinct(h: Seq<(Seq<char>, Seq<char>)>) -> bool {
    forall|i: int, j: int| 0 <= i < j < h.len() ==> #[trigger] h[i].0 != #[trigger] h[j].0
}

proof fn lemma_hash_of_found(h: Seq<(Seq<char>, Seq<char>)>, i: int)
    requires
        0 <= i < h.len(),
    ensures
        hash_of(h, h[i].0).is_some(),
        files_distinct(h) ==> hash_of(h, h[i].0) == Some(h[i].1),
    decreases i,
{
    if i > 0 && h[0].0 != h[i].0 {
        lemma_hash_of_found(h.drop_first(), i - 1);
        assert(h.drop_first()[i - 1] == h[i]);
        if files_distinct(h) {
            assert forall|a: int, b: int| 0 <= a < b < h.drop_first().len() implies #[trigger] h.drop_first()[a].0
                != #[trigger] h.drop_first()[b].0 by {
                assert(h.drop_first()[a] == h[a + 1] && h.drop_first()[b] == h[b + 1]);
            }
        }
    } else if i > 0 && files_distinct(h) {
        assert(h[0].0 != h[i].0);
    }
}

proof fn lemma_unchanged_parts(h: Seq<(Seq<char>, Seq<char>)>, n: int)
    requires
        files_distinct(h),
        0 <= n <= h.len(),
    ensures
        added_changes(h, h.take(n)).len() == 0,
        removed_changes(h.take(n), h).len() == 0,
        modified_changes(h.take(n), h).len() == 0,
    decreases n,
{
    if n > 0 {
        lemma_unchanged_parts(h, n - 1);
        assert(h.take(n).drop_last() =~= h.take(n - 1));
        assert(h.take(n).last() == h[n - 1]);
        lemma_hash_of_found(h, n - 1);
    }
}

/// A scan that finds every file as it was reports no change: no file is
/// added, removed or modified.
pub proof fn lemma_unchanged_scan_reports_nothing(h: Seq<(Seq<char>, Seq<char>)>, out: Seq<FileChangeView>)
    requires
        files_distinct(h),
        is_stable_sort_of::<FileChange, FileChangeOrder>(
            added_changes(h, h) + removed_changes(h, h) + modified_changes(h, h),
            out,
        ),
    ensures
        out.len() == 0,
{
    lemma_unchanged_parts(h, h.len() as int);
    assert(h.take(h.len() as int) =~= h);
}

/// Every file of a scan, reported as added with its hash, in scan order.
pub open spec fn all_added(h: Seq<(Seq<char>, Seq<char>)>) -> Seq<FileChangeView> {
    h.map_values(
        |p: (Seq<char>, Seq<char>)| FileChangeView { file: p.0, kind: FileChangeKind::Added, hash: Some(p.1) },
    )
}

proof fn lemma_added_from_nothing(h: Seq<(Seq<char>, Seq<char>)>)
    ensures
        added_changes(Seq::empty(), h) == all_added(h),
    decreases h.len(),
{
    if h.len() > 0 {
        lemma_added_from_nothing(h.drop_last());
        assert(all_added(h) =~= all_added(h.drop_last()).push(
            FileChangeView { file: h.last().0, kind: FileChangeKind::Added, hash: Some(h.last().1) },
        ));
    } else {
        assert(all_added(h) =~= Seq::<FileChangeView>::empty());
    }
}

/// The first scan of a watcher that knows no file (as `new` makes it)
/// reports every scanned file as added, with its hash, ordered by file.
pub proof fn lemma_first_scan_reports_all_added(h: Seq<(Seq<char>, Seq<char>)>, out: Seq<FileChangeView>)
    requires
        is_stable_sort_of::<FileChange, FileChangeOrder>(
            added_changes(Seq::empty(), h) + removed_changes(Seq::empty(), h) + modified_changes(
                Seq::empty(),
                h,
            ),
            out,
        ),
    ensures
        is_stable_sort_of::<FileChange, FileChangeOrder>(all_added(h), out),
{
    lemma_added_from_nothing(h);
    assert(added_changes(Seq::empty(), h) + removed_changes(Seq::empty(), h) + modified_changes(
        Seq::empty(),
        h,
    ) =~= all_added(h));
}

} // verus!
