//! The diff stream's per-file section cache: a small least-recently-used
//! cache keyed by file, each entry tagged with the layout inputs and the
//! stream generation it was built for, so a stale entry is dropped when it
//! is next read rather than in an eager sweep.

use vstd::prelude::*;
use crate::git::history::Oid;
use crate::git::status::Section;
use crate::text::str_eq;
use crate::view::DiffMode;

verus! {

/// How many sections the cache keeps beyond those the current window needs.
pub const SECTION_BUDGET: usize = 32;

/// The pane-global inputs a file's rows were built for; rows built for one
/// key are stale under another.
#[derive(Clone, Copy, Debug, PartialEq, Eq, Structural)]
pub struct LayoutKey {
    pub width: u16,
    pub mode: DiffMode,
    pub wrap: bool,
    pub line_numbers: bool,
    pub cross_file: bool,
}

/// A file's identity in the current view's diff stream.
#[derive(Clone, Debug, PartialEq, Eq)]
pub enum FileId {
    /// A status entry: a path that is both staged and modified is two files.
    Status { section: Section, path: String },
    /// A file of the reviewed range.
    Review { path: String },
    /// A file of one commit (by its new path on a rename).
    History { commit: Oid, path: String },
}

/// The abstract value of a [`FileId`]: its path as characters.
pub enum FileIdView {
    Status { section: Section, path: Seq<char> },
    Review { path: Seq<char> },
    History { commit: Oid, path: Seq<char> },
}

impl View for FileId {
    type V = FileIdView;

    open spec fn view(&self) -> FileIdView {
        match self {
            FileId::Status { section, path } => FileIdView::Status { section: *section, path: path@ },
            FileId::Review { path } => FileIdView::Review { path: path@ },
            FileId::History { commit, path } => FileIdView::History { commit: *commit, path: path@ },
        }
    }
}

/// The path of a file, whichever view it came from.
pub open spec fn path_of(id: FileIdView) -> Seq<char> {
    match id {
        FileIdView::Status { path, .. } => path,
        FileIdView::Review { path } => path,
        FileIdView::History { path, .. } => path,
    }
}

impl FileId {
    /// The file's path, whichever view it came from.
    pub fn path(&self) -> (p: &str)
        ensures
            p@ == path_of(self@),
    {
        match self {
            FileId::Status { path, .. } => path.as_str(),
            FileId::Review { path } => path.as_str(),
            FileId::History { path, .. } => path.as_str(),
        }
    }
}

/// Whether two ids name the same file.
pub fn same_file(a: &FileId, b: &FileId) -> (r: bool)
    ensures
        r == (a@ == b@),
{
    match (a, b) {
        (FileId::Status { section: s1, path: p1 }, FileId::Status { section: s2, path: p2 }) => *s1
            == *s2 && str_eq(p1.as_str(), p2.as_str()),
        (FileId::Review { path: p1 }, FileId::Review { path: p2 }) => str_eq(p1.as_str(), p2.as_str()),
        (FileId::History { commit: c1, path: p1 }, FileId::History { commit: c2, path: p2 }) => *c1
            == *c2 && str_eq(p1.as_str(), p2.as_str()),
        _ => false,
    }
}

/// One cached section with its tags and its last-use stamp.
pub struct CacheEntry<S> {
    pub id: FileId,
    pub key: LayoutKey,
    pub generation: u64,
    pub used: u64,
    pub section: S,
}

/// The bounded per-file section cache: a least-recently-used cache over a
/// vector, with a monotonic use clock.
pub struct SectionCache<S> {
    entries: Vec<CacheEntry<S>>,
    clock: u64,
}

/// The entry for file `k`, if any (the last one, though a well-formed cache
/// holds at most one per file).
pub open spec fn lookup<S>(entries: Seq<CacheEntry<S>>, k: FileIdView) -> Option<CacheEntry<S>>
    decreases entries.len(),
{
    if entries.len() == 0 {
        None
    } else if entries.last().id@ == k {
        Some(entries.last())
    } else {
        lookup(entries.drop_last(), k)
    }
}

/// No file holds two entries.
pub open spec fn distinct_ids<S>(entries: Seq<CacheEntry<S>>) -> bool {
    forall|i: int, j: int| 0 <= i < j < entries.len() ==> entries[i].id@ != entries[j].id@
}

proof fn lemma_lookup_at<S>(entries: Seq<CacheEntry<S>>, i: int)
    requires
        distinct_ids(entries),
        0 <= i < entries.len(),
    ensures
        lookup(entries, entries[i].id@) == Some(entries[i]),
    decreases entries.len(),
{
    if i < entries.len() - 1 {
        lemma_lookup_at(entries.drop_last(), i);
    }
}

proof fn lemma_lookup_none<S>(entries: Seq<CacheEntry<S>>, k: FileIdView)
    requires
        forall|i: int| 0 <= i < entries.len() ==> entries[i].id@ != k,
    ensures
        lookup(entries, k) is None,
    decreases entries.len(),
{
    if entries.len() > 0 {
        lemma_lookup_none(entries.drop_last(), k);
    }
}

proof fn lemma_lookup_found<S>(entries: Seq<CacheEntry<S>>, k: FileIdView)
    ensures
        lookup(entries, k) matches Some(e) ==> exists|i: int| 0 <= i < entries.len() && entries[i] == e && e.id@ == k,
    decreases entries.len(),
{
    if entries.len() > 0 && entries.last().id@ != k {
        lemma_lookup_found(entries.drop_last(), k);
        if let Some(e) = lookup(entries, k) {
            let i = choose|i: int| 0 <= i < entries.drop_last().len() && entries.drop_last()[i] == e && e.id@ == k;
            assert(entries[i] == e);
        }
    }
}

/// Removing the entry at `pos` by moving the last one into its place drops
/// that entry's file and keeps every other file's entry.
proof fn lemma_swap_remove<S>(before: Seq<CacheEntry<S>>, pos: int)
    requires
        distinct_ids(before),
        0 <= pos < before.len(),
    ensures
        ({
            let after = before.update(pos, before.last()).drop_last();
            &&& distinct_ids(after)
            &&& lookup(after, before[pos].id@) is None
            &&& forall|k: FileIdView| k != before[pos].id@ ==> #[trigger] lookup(after, k) == lookup(before, k)
        }),
{
    let after = before.update(pos, before.last()).drop_last();
    let id = before[pos].id@;
    assert forall|i: int, j: int| 0 <= i < j < after.len() implies after[i].id@ != after[j].id@ by {
        if i == pos {
            assert(after[i] == before.last());
        }
    }
    assert forall|i: int| 0 <= i < after.len() implies after[i].id@ != id by {
        if i == pos {
            assert(after[i] == before[before.len() - 1]);
        } else {
            assert(after[i] == before[i]);
        }
    }
    lemma_lookup_none(after, id);
    assert forall|k: FileIdView| k != id implies #[trigger] lookup(after, k) == lookup(before, k) by {
        lemma_lookup_found(before, k);
        if let Some(e) = lookup(before, k) {
            let i = choose|i: int| 0 <= i < before.len() && before[i] == e && e.id@ == k;
            if i == before.len() - 1 {
                if pos < before.len() - 1 {
                    assert(after[pos] == e);
                    lemma_lookup_at(after, pos);
                }
            } else {
                assert(after[i] == e);
                lemma_lookup_at(after, i);
            }
        } else {
            assert forall|i: int| 0 <= i < after.len() implies after[i].id@ != k by {
                if i == pos {
                    lemma_lookup_at(before, before.len() - 1);
                } else {
                    lemma_lookup_at(before, i);
                }
            }
            lemma_lookup_none(after, k);
        }
    }
}

impl<S> SectionCache<S> {
    /// The cache's entries.
    pub closed spec fn entries(&self) -> Seq<CacheEntry<S>> {
        self.entries@
    }

    /// The use clock.
    pub closed spec fn clock(&self) -> u64 {
        self.clock
    }

    /// The entry cached for file `k`, if any.
    pub open spec fn entry(&self, k: FileIdView) -> Option<CacheEntry<S>> {
        lookup(self.entries(), k)
    }

    /// Well-formed: at most one entry per file.
    pub open spec fn wf(&self) -> bool {
        distinct_ids(self.entries())
    }

    /// How many sections are cached.
    pub open spec fn size(&self) -> nat {
        self.entries().len()
    }

    /// An empty cache.
    pub fn new() -> (c: Self)
        ensures
            c.wf(),
            c.size() == 0,
            c.clock() == 0,
            forall|k: FileIdView| c.entry(k) is None,
    {
        let c = SectionCache { entries: Vec::new(), clock: 0 };
        assert forall|k: FileIdView| c.entry(k) is None by {
            lemma_lookup_none(c.entries(), k);
        }
        c
    }

    /// How many sections are cached.
    pub fn len(&self) -> (n: usize)
        ensures
            n == self.size(),
    {
        self.entries.len()
    }

    fn position(&self, id: &FileId) -> (r: Option<usize>)
        requires
            self.wf(),
        ensures
            match r {
                Some(i) => i < self.entries@.len() && self.entries@[i as int].id@ == id@,
                None => forall|i: int| 0 <= i < self.entries@.len() ==> self.entries@[i].id@ != id@,
            },
    {
        let mut i: usize = 0;
        while i < self.entries.len()
            invariant
                i <= self.entries@.len(),
                forall|j: int| 0 <= j < i ==> self.entries@[j].id@ != id@,
            decreases self.entries.len() - i,
        {
            if same_file(&self.entries[i].id, id) {
                return Some(i);
            }
            i = i + 1;
        }
        None
    }
}

impl<S: Clone> SectionCache<S> {
    /// Caches `section` for `id` under the given tags, most recently used,
    /// replacing whatever `id` held.
    pub fn insert(&mut self, id: FileId, key: LayoutKey, generation: u64, section: S)
        requires
            old(self).wf(),
            old(self).clock() < u64::MAX,
        ensures
            final(self).wf(),
            final(self).clock() == old(self).clock() + 1,
            final(self).entry(id@) == Some(
                CacheEntry { id, key, generation, used: final(self).clock(), section },
            ),
            forall|k: FileIdView| k != id@ ==> #[trigger] final(self).entry(k) == old(self).entry(k),
    {
        let mut taken: Vec<CacheEntry<S>> = Vec::new();
        core::mem::swap(&mut taken, &mut self.entries);
        let ghost all = taken@;
        assert(all == old(self).entries());
        let mut kept: Vec<CacheEntry<S>> = Vec::new();
        for e in it: taken.into_iter()
            invariant
                it.seq() == all,
                distinct_ids(all),
                distinct_ids(kept@),
                forall|j: int| 0 <= j < kept@.len() ==> kept@[j].id@ != id@,
                forall|j: int, m: int|
                    0 <= j < kept@.len() && it.index() <= m < all.len() ==> kept@[j].id@ != all[m].id@,
                forall|k: FileIdView|
                    k != id@ ==> #[trigger] lookup(kept@, k) == lookup(all.take(it.index() as int), k),
        {
            let ghost idx = it.index();
            let ghost before = kept@;
            assert(e == all[idx as int]);
            proof {
                assert(all.take(idx + 1).drop_last() =~= all.take(idx as int));
                assert(all.take(idx + 1).last() == all[idx as int]);
            }
            let keep = !same_file(&e.id, &id);
            if keep {
                kept.push(e);
                proof {
                    assert(kept@.drop_last() =~= before);
                }
            }
            proof {
                assert forall|k: FileIdView| k != id@ implies #[trigger] lookup(kept@, k) == lookup(
                    all.take(idx + 1),
                    k,
                ) by {
                    let t = all.take(idx + 1);
                    assert(t.len() > 0);
                    assert(lookup(t, k) == if t.last().id@ == k {
                        Some(t.last())
                    } else {
                        lookup(t.drop_last(), k)
                    });
                    assert(t.drop_last() =~= all.take(idx as int));
                    assert(lookup(before, k) == lookup(all.take(idx as int), k));
                    if keep {
                        assert(kept@.last() == all[idx as int]);
                        assert(kept@.drop_last() =~= before);
                        assert(lookup(kept@, k) == if kept@.last().id@ == k {
                            Some(kept@.last())
                        } else {
                            lookup(kept@.drop_last(), k)
                        });
                    } else {
                        assert(kept@ == before);
                    }
                }
            }
        }
        proof {
            assert(all.take(all.len() as int) =~= all);
        }
        self.clock = self.clock + 1;
        let ghost kept_v = kept@;
        kept.push(CacheEntry { id, key, generation, used: self.clock, section });
        self.entries = kept;
        proof {
            assert(self.entries@.drop_last() =~= kept_v);
            assert forall|k: FileIdView| k != id@ implies #[trigger] self.entry(k) == old(self).entry(k) by {
                assert(lookup(self.entries@, k) == lookup(kept_v, k));
            }
        }
    }

    /// The live section for `id`, marked most recently used. An entry whose
    /// tags differ from `key` and `generation` is dropped here and reads as a
    /// miss.
    pub fn get(&mut self, id: &FileId, key: LayoutKey, generation: u64) -> (r: Option<S>)
        requires
            old(self).wf(),
            old(self).clock() < u64::MAX,
        ensures
            final(self).wf(),
            match old(self).entry(id@) {
                None => r is None && final(self).entries() == old(self).entries() && final(self).clock()
                    == old(self).clock(),
                Some(e) => if e.key != key || e.generation != generation {
                    &&& r is None
                    &&& final(self).clock() == old(self).clock()
                    &&& final(self).entry(id@) is None
                    &&& forall|k: FileIdView| k != id@ ==> #[trigger] final(self).entry(k) == old(self).entry(k)
                } else {
                    &&& r matches Some(s) && cloned::<S>(e.section, s)
                    &&& final(self).clock() == old(self).clock() + 1
                    &&& final(self).entry(id@) == Some(CacheEntry { used: final(self).clock(), ..e })
                    &&& forall|k: FileIdView| k != id@ ==> #[trigger] final(self).entry(k) == old(self).entry(k)
                },
            },
    {
        let pos = match self.position(id) {
            Some(p) => p,
            None => {
                proof {
                    lemma_lookup_none(self.entries@, id@);
                }
                return None;
            },
        };
        let ghost before = self.entries@;
        proof {
            lemma_lookup_at(before, pos as int);
        }
        if self.entries[pos].key != key || self.entries[pos].generation != generation {
            self.entries.swap_remove(pos);
            proof {
                lemma_swap_remove(before, pos as int);
            }
            return None;
        }
        self.clock = self.clock + 1;
        let mut e = self.entries.remove(pos);
        e.used = self.clock;
        let section = e.section.clone();
        self.entries.insert(pos, e);
        proof {
            let after = self.entries@;
            assert(after =~= before.update(pos as int, e));
            assert forall|i: int, j: int| 0 <= i < j < after.len() implies after[i].id@ != after[j].id@ by {
            }
            lemma_lookup_at(after, pos as int);
            assert forall|k: FileIdView| k != id@ implies #[trigger] lookup(after, k) == lookup(before, k) by {
                lemma_lookup_found(before, k);
                if let Some(x) = lookup(before, k) {
                    let i = choose|i: int| 0 <= i < before.len() && before[i] == x && x.id@ == k;
                    assert(after[i] == x);
                    lemma_lookup_at(after, i);
                } else {
                    assert forall|i: int| 0 <= i < after.len() implies after[i].id@ != k by {
                        lemma_lookup_at(before, i);
                    }
                    lemma_lookup_none(after, k);
                }
            }
        }
        Some(section)
    }

    /// The section cached for `id` whatever its tags, without touching the
    /// use order or dropping a stale entry.
    pub fn cached(&self, id: &FileId) -> (r: Option<S>)
        requires
            self.wf(),
        ensures
            match self.entry(id@) {
                Some(e) => r matches Some(s) && cloned::<S>(e.section, s),
                None => r is None,
            },
    {
        match self.position(id) {
            Some(p) => {
                proof {
                    lemma_lookup_at(self.entries@, p as int);
                }
                Some(self.entries[p].section.clone())
            },
            None => {
                proof {
                    lemma_lookup_none(self.entries@, id@);
                }
                None
            },
        }
    }

    /// Whether any cached section belongs to `path`, in either status
    /// section.
    pub fn holds_path(&self, path: &str) -> (r: bool)
        requires
            self.wf(),
        ensures
            r == exists|k: FileIdView| #[trigger] self.entry(k) is Some && path_of(k) == path@,
    {
        let mut i: usize = 0;
        while i < self.entries.len()
            invariant
                self.wf(),
                i <= self.entries@.len(),
                forall|j: int| 0 <= j < i ==> path_of(self.entries@[j].id@) != path@,
            decreases self.entries.len() - i,
        {
            let p = self.entries[i].id.path();
            if str_eq(p, path) {
                proof {
                    lemma_lookup_at(self.entries@, i as int);
                    assert(self.entry(self.entries@[i as int].id@) is Some);
                }
                return true;
            }
            i = i + 1;
        }
        proof {
            assert forall|k: FileIdView| #[trigger] self.entry(k) is Some implies path_of(k) != path@ by {
                lemma_lookup_found(self.entries@, k);
            }
        }
        false
    }
}

/// Whether file `k` is one of `pinned`.
pub open spec fn is_pinned(pinned: Seq<FileId>, k: FileIdView) -> bool {
    exists|p: int| 0 <= p < pinned.len() && pinned[p]@ == k
}

fn pinned_contains(pinned: &[FileId], id: &FileId) -> (r: bool)
    ensures
        r == is_pinned(pinned@, id@),
{
    let mut p: usize = 0;
    while p < pinned.len()
        invariant
            p <= pinned@.len(),
            forall|q: int| 0 <= q < p ==> pinned@[q]@ != id@,
        decreases pinned.len() - p,
    {
        if same_file(&pinned[p], id) {
            return true;
        }
        p = p + 1;
    }
    false
}

impl<S> SectionCache<S> {
    /// The unpinned entry used least recently (the first such on a tie).
    fn victim(&self, pinned: &[FileId]) -> (r: Option<usize>)
        ensures
            match r {
                Some(v) => {
                    &&& v < self.entries@.len()
                    &&& !is_pinned(pinned@, self.entries@[v as int].id@)
                    &&& forall|j: int|
                        0 <= j < self.entries@.len() && !is_pinned(pinned@, #[trigger] self.entries@[j].id@)
                            ==> self.entries@[v as int].used <= self.entries@[j].used
                },
                None => forall|j: int|
                    0 <= j < self.entries@.len() ==> is_pinned(pinned@, #[trigger] self.entries@[j].id@),
            },
    {
        let mut best: Option<usize> = None;
        let mut i: usize = 0;
        while i < self.entries.len()
            invariant
                i <= self.entries@.len(),
                match best {
                    Some(v) => {
                        &&& v < i
                        &&& !is_pinned(pinned@, self.entries@[v as int].id@)
                        &&& forall|j: int|
                            0 <= j < i && !is_pinned(pinned@, #[trigger] self.entries@[j].id@)
                                ==> self.entries@[v as int].used <= self.entries@[j].used
                    },
                    None => forall|j: int| 0 <= j < i ==> is_pinned(pinned@, #[trigger] self.entries@[j].id@),
                },
            decreases self.entries.len() - i,
        {
            if !pinned_contains(pinned, &self.entries[i].id) {
                match best {
                    Some(v) => {
                        if self.entries[i].used < self.entries[v].used {
                            best = Some(i);
                        }
                    },
                    None => {
                        best = Some(i);
                    },
                }
            }
            i = i + 1;
        }
        best
    }

    /// Evicts least recently used entries while more than
    /// [`SECTION_BUDGET`] are cached, never one of `pinned` (the sections the
    /// current window needs); when only pinned entries are left it stops.
    pub fn evict(&mut self, pinned: &[FileId])
        requires
            old(self).wf(),
        ensures
            final(self).wf(),
            final(self).clock() == old(self).clock(),
            forall|k: FileIdView| #[trigger] final(self).entry(k) is Some ==> final(self).entry(k) == old(self).entry(k),
            forall|k: FileIdView| is_pinned(pinned@, k) ==> #[trigger] final(self).entry(k) == old(self).entry(k),
            final(self).size() <= SECTION_BUDGET || forall|k: FileIdView|
                #[trigger] final(self).entry(k) is Some ==> is_pinned(pinned@, k),
            final(self).size() < old(self).size() ==> final(self).size() >= SECTION_BUDGET,
            forall|k1: FileIdView, k2: FileIdView|
                old(self).entry(k1) is Some && final(self).entry(k1) is None && #[trigger] final(self).entry(k2) is Some
                    && !is_pinned(pinned@, k2) ==> (#[trigger] old(self).entry(k1))->0.used <= final(self).entry(k2)->0.used,
    {
        let mut done = false;
        while !done && self.entries.len() > SECTION_BUDGET
            invariant
                self.wf(),
                self.clock() == old(self).clock(),
                forall|k: FileIdView| #[trigger] self.entry(k) is Some ==> self.entry(k) == old(self).entry(k),
                forall|k: FileIdView| is_pinned(pinned@, k) ==> #[trigger] self.entry(k) == old(self).entry(k),
                self.size() <= old(self).size(),
                self.size() < old(self).size() ==> self.size() >= SECTION_BUDGET,
                done ==> forall|j: int| 0 <= j < self.entries@.len() ==> is_pinned(pinned@, #[trigger] self.entries@[j].id@),
                forall|k1: FileIdView, k2: FileIdView|
                    old(self).entry(k1) is Some && self.entry(k1) is None && #[trigger] self.entry(k2) is Some
                        && !is_pinned(pinned@, k2) ==> (#[trigger] old(self).entry(k1))->0.used <= self.entry(k2)->0.used,
            decreases self.entries@.len() + if done {
                0int
            } else {
                1int
            },
        {
            match self.victim(pinned) {
                None => {
                    done = true;
                },
                Some(v) => {
                    let ghost before = self.entries@;
                    let ghost gone = before[v as int];
                    proof {
                        assert forall|k: FileIdView| #[trigger] lookup(before, k) is Some implies lookup(before, k)
                            == old(self).entry(k) by {
                            assert(self.entry(k) == lookup(before, k));
                        }
                        assert forall|k1: FileIdView, k2: FileIdView|
                            old(self).entry(k1) is Some && lookup(before, k1) is None && #[trigger] lookup(before, k2) is Some
                                && !is_pinned(pinned@, k2) implies (#[trigger] old(self).entry(k1))->0.used <= lookup(
                            before,
                            k2,
                        )->0.used by {
                            assert(self.entry(k2) == lookup(before, k2));
                            assert(self.entry(k1) == lookup(before, k1));
                        }
                    }
                    self.entries.swap_remove(v);
                    proof {
                        lemma_swap_remove(before, v as int);
                        lemma_lookup_at(before, v as int);
                        let after = self.entries@;
                        assert forall|k1: FileIdView, k2: FileIdView|
                            old(self).entry(k1) is Some && lookup(after, k1) is None && #[trigger] lookup(after, k2) is Some
                                && !is_pinned(pinned@, k2) implies (#[trigger] old(self).entry(k1))->0.used <= lookup(
                            after,
                            k2,
                        )->0.used by {
                            assert(k2 != gone.id@);
                            assert(lookup(after, k2) == lookup(before, k2));
                            lemma_lookup_found(before, k2);
                            if k1 == gone.id@ {
                                assert(lookup(before, k1) == Some(gone));
                                assert(old(self).entry(k1) == Some(gone));
                                let i = choose|i: int| 0 <= i < before.len() && before[i] == lookup(before, k2)->0
                                    && lookup(before, k2)->0.id@ == k2;
                                assert(!is_pinned(pinned@, before[i].id@));
                            } else {
                                assert(lookup(after, k1) == lookup(before, k1));
                            }
                        }
                    }
                },
            }
        }
        proof {
            if !(self.size() <= SECTION_BUDGET) {
                assert forall|k: FileIdView| #[trigger] self.entry(k) is Some implies is_pinned(pinned@, k) by {
                    lemma_lookup_found(self.entries@, k);
                }
            }
        }
    }
}

impl<S> Default for SectionCache<S> {
    fn default() -> (c: Self)
        ensures
            c.wf(),
            c.size() == 0,
            forall|k: FileIdView| c.entry(k) is None,
    {
        SectionCache::new()
    }
}

} // verus!
