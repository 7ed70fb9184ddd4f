use vstd::prelude::*;
use crate::generate::Metadata;
use crate::syntex::same_text;
use crate::types::Timestamp;

verus! {

/// What the cache knows of a source: its modification time when it was last
/// read, and its front matter then.
#[derive(Clone, Debug)]
pub struct CacheEntry {
    pub mtime: Timestamp,
    pub metadata: Metadata,
}

/// The map from paths to entries that a list of entries gives (a later entry for
/// the same path replacing an earlier one).
pub open spec fn entries_map(es: Seq<(String, CacheEntry)>) -> Map<Seq<char>, CacheEntry>
    decreases es.len(),
{
    if es.len() == 0 {
        Map::empty()
    } else {
        entries_map(es.drop_last()).insert(es.last().0@, es.last().1)
    }
}

/// No path occurs twice.
pub open spec fn distinct_keys(es: Seq<(String, CacheEntry)>) -> bool {
    forall|i: int, j: int| 0 <= i < j < es.len() ==> (#[trigger] es[i]).0@ != (#[trigger] es[j]).0@
}

proof fn lemma_map_domain(es: Seq<(String, CacheEntry)>, k: Seq<char>)
    ensures
        entries_map(es).contains_key(k) <==> exists|i: int| 0 <= i < es.len() && (#[trigger] es[i]).0@ == k,
    decreases es.len(),
{
    if es.len() > 0 {
        lemma_map_domain(es.drop_last(), k);
        if exists|i: int| 0 <= i < es.drop_last().len() && (#[trigger] es.drop_last()[i]).0@ == k {
            let i = choose|i: int| 0 <= i < es.drop_last().len() && (#[trigger] es.drop_last()[i]).0@ == k;
            assert(es[i].0@ == k);
        }
        if exists|i: int| 0 <= i < es.len() && (#[trigger] es[i]).0@ == k {
            let i = choose|i: int| 0 <= i < es.len() && (#[trigger] es[i]).0@ == k;
            if i < es.len() - 1 {
                assert(es.drop_last()[i].0@ == k);
            }
        }
    }
}

proof fn lemma_map_at(es: Seq<(String, CacheEntry)>, i: int)
    requires
        distinct_keys(es),
        0 <= i < es.len(),
    ensures
        entries_map(es).contains_key(es[i].0@),
        entries_map(es)[es[i].0@] == es[i].1,
    decreases es.len(),
{
    if i < es.len() - 1 {
        assert(distinct_keys(es.drop_last()));
        lemma_map_at(es.drop_last(), i);
        assert(es.drop_last()[i] == es[i]);
        assert(es.last().0@ != es[i].0@);
    }
}

proof fn lemma_map_update(es: Seq<(String, CacheEntry)>, i: int, k: String, e: CacheEntry)
    requires
        0 <= i < es.len(),
        es[i].0@ == k@,
        distinct_keys(es),
    ensures
        entries_map(es.update(i, (k, e))) == entries_map(es).insert(k@, e),
        distinct_keys(es.update(i, (k, e))),
    decreases es.len(),
{
    let es2 = es.update(i, (k, e));
    if i == es.len() - 1 {
        assert(es2.drop_last() =~= es.drop_last());
    } else {
        assert(distinct_keys(es.drop_last()));
        lemma_map_update(es.drop_last(), i, k, e);
        assert(es2.drop_last() =~= es.drop_last().update(i, (k, e)));
        assert(es.last().0@ != k@);
        assert(entries_map(es2) =~= entries_map(es).insert(k@, e));
    }
}

proof fn lemma_map_filter(es: Seq<(String, CacheEntry)>, keep: Set<Seq<char>>, f: spec_fn((String, CacheEntry)) -> bool)
    requires
        forall|p: (String, CacheEntry)| #[trigger] f(p) == keep.contains(p.0@),
    ensures
        entries_map(es.filter(f)) == entries_map(es).restrict(keep),
    decreases es.len(),
{
    reveal(Seq::filter);
    if es.len() == 0 {
        assert(es.filter(f) =~= es);
        assert(entries_map(es).restrict(keep) =~= Map::empty());
    } else {
        lemma_map_filter(es.drop_last(), keep, f);
        let sub = es.drop_last().filter(f);
        let k = es.last().0@;
        let v = es.last().1;
        assert(f(es.last()) == keep.contains(k));
        if keep.contains(k) {
            assert(es.filter(f) == sub.push(es.last()));
            assert(sub.push(es.last()).drop_last() =~= sub);
            assert(entries_map(es.filter(f)) == entries_map(sub).insert(k, v));
            assert(entries_map(sub).insert(k, v) =~= entries_map(es.drop_last()).insert(k, v).restrict(keep));
        } else {
            assert(es.filter(f) == sub);
            assert(entries_map(sub) =~= entries_map(es.drop_last()).insert(k, v).restrict(keep));
        }
    }
}

proof fn lemma_filter_members(es: Seq<(String, CacheEntry)>, f: spec_fn((String, CacheEntry)) -> bool)
    ensures
        forall|i: int| 0 <= i < es.filter(f).len() ==> exists|j: int| 0 <= j < es.len() && es[j] == #[trigger] es.filter(f)[i],
    decreases es.len(),
{
    reveal(Seq::filter);
    if es.len() > 0 {
        lemma_filter_members(es.drop_last(), f);
        let sub = es.drop_last().filter(f);
        assert forall|i: int| 0 <= i < es.filter(f).len() implies exists|j: int| 0 <= j < es.len() && es[j] == #[trigger] es.filter(f)[i] by {
            if i < sub.len() {
                assert(es.filter(f)[i] == sub[i]);
                let j = choose|j: int| 0 <= j < es.drop_last().len() && es.drop_last()[j] == sub[i];
                assert(es[j] == es.filter(f)[i]);
            } else {
                assert(es[es.len() - 1] == es.filter(f)[i]);
            }
        }
    }
}

proof fn lemma_filter_distinct(es: Seq<(String, CacheEntry)>, f: spec_fn((String, CacheEntry)) -> bool)
    requires
        distinct_keys(es),
    ensures
        distinct_keys(es.filter(f)),
    decreases es.len(),
{
    reveal(Seq::filter);
    if es.len() > 0 {
        assert(distinct_keys(es.drop_last()));
        lemma_filter_distinct(es.drop_last(), f);
        lemma_filter_members(es.drop_last(), f);
        let sub = es.drop_last().filter(f);
        if f(es.last()) {
            assert forall|i: int, j: int| 0 <= i < j < es.filter(f).len()
                implies (#[trigger] es.filter(f)[i]).0@ != (#[trigger] es.filter(f)[j]).0@ by {
                if j == es.filter(f).len() - 1 {
                    let k = choose|k: int| 0 <= k < es.drop_last().len() && es.drop_last()[k] == #[trigger] sub[i];
                    assert(es[k] == sub[i]);
                    assert(es[es.len() - 1] == es.last());
                } else {
                    assert(es.filter(f)[i] == sub[i]);
                    assert(es.filter(f)[j] == sub[j]);
                }
            }
        }
    }
}

/// The cache of the front matter read from each source, by path.
pub struct MetadataCache {
    entries: Vec<(String, CacheEntry)>,
}

impl MetadataCache {
    /// The entries by path.
    pub closed spec fn map(&self) -> Map<Seq<char>, CacheEntry> {
        entries_map(self.entries@)
    }

    /// No path is held twice.
    pub closed spec fn well_formed(&self) -> bool {
        distinct_keys(self.entries@)
    }

    /// An empty cache.
    pub fn new() -> (r: Self)
        ensures
            r.well_formed(),
            r.map() == Map::<Seq<char>, CacheEntry>::empty(),
    {
        MetadataCache { entries: Vec::new() }
    }

    fn find(&self, rel_path: &str) -> (r: Option<usize>)
        requires
            self.well_formed(),
        ensures
            match r {
                Some(i) => i < self.entries@.len() && self.entries@[i as int].0@ == rel_path@,
                None => !self.map().contains_key(rel_path@),
            },
    {
        let mut i: usize = 0;
        while i < self.entries.len()
            invariant
                i <= self.entries@.len(),
                forall|j: int| 0 <= j < i ==> (#[trigger] self.entries@[j]).0@ != rel_path@,
            decreases self.entries@.len() - i,
        {
            if same_text(self.entries[i].0.as_str(), rel_path) {
                return Some(i);
            }
            i = i + 1;
        }
        proof {
            lemma_map_domain(self.entries@, rel_path@);
        }
        None
    }

    /// The entry of a path, if the cache holds one.
    pub fn get_entry(&self, rel_path: &str) -> (r: Option<&CacheEntry>)
        requires
            self.well_formed(),
        ensures
            match r {
                Some(e) => self.map().contains_key(rel_path@) && self.map()[rel_path@] == *e,
                None => !self.map().contains_key(rel_path@),
            },
    {
        match self.find(rel_path) {
            Some(i) => {
                proof {
                    lemma_map_at(self.entries@, i as int);
                }
                Some(&self.entries[i].1)
            },
            None => None,
        }
    }

    /// Records the entry of a path, replacing the one it had.
    pub fn insert(&mut self, rel_path: &str, entry: CacheEntry)
        requires
            old(self).well_formed(),
        ensures
            final(self).well_formed(),
            final(self).map() == old(self).map().insert(rel_path@, entry),
    {
        let key = rel_path.to_owned();
        match self.find(rel_path) {
            Some(i) => {
                proof {
                    lemma_map_update(self.entries@, i as int, key, entry);
                }
                self.entries.set(i, (key, entry));
            },
            None => {
                let ghost before = self.entries@;
                proof {
                    lemma_map_domain(before, rel_path@);
                }
                self.entries.push((key, entry));
                proof {
                    assert(self.entries@.drop_last() == before);
                    assert forall|i: int, j: int| 0 <= i < j < self.entries@.len()
                        implies (#[trigger] self.entries@[i]).0@ != (#[trigger] self.entries@[j]).0@ by {
                        if j == self.entries@.len() - 1 {
                            assert(before[i].0@ != rel_path@);
                        } else {
                            assert(before[i] == self.entries@[i]);
                            assert(before[j] == self.entries@[j]);
                        }
                    }
                }
            },
        }
    }

    /// The paths the cache holds an entry for (in no stated order).
    pub fn paths(&self) -> (r: Vec<String>)
        ensures
            forall|p: Seq<char>| #[trigger] self.map().contains_key(p) <==> crate::generate::texts(r@).contains(p),
    {
        let mut r: Vec<String> = Vec::new();
        let mut i: usize = 0;
        while i < self.entries.len()
            invariant
                i <= self.entries@.len(),
                r@.len() == i,
                forall|j: int| 0 <= j < i ==> #[trigger] r@[j]@ == self.entries@[j].0@,
            decreases self.entries@.len() - i,
        {
            r.push(self.entries[i].0.clone());
            i = i + 1;
        }
        proof {
            assert forall|p: Seq<char>| #[trigger] self.map().contains_key(p) <==> crate::generate::texts(r@).contains(p) by {
                lemma_map_domain(self.entries@, p);
                if self.map().contains_key(p) {
                    let j = choose|j: int| 0 <= j < self.entries@.len() && (#[trigger] self.entries@[j]).0@ == p;
                    assert(crate::generate::texts(r@)[j] == p);
                }
                if crate::generate::texts(r@).contains(p) {
                    let j = choose|j: int| 0 <= j < crate::generate::texts(r@).len() && crate::generate::texts(r@)[j] == p;
                    assert(r@[j]@ == self.entries@[j].0@);
                }
            }
        }
        r
    }

    /// The front matter cached for a source whose cached time is not older than
    /// `mtime` (the source has not changed since it was read).
    pub fn fresh_metadata(&self, rel_path: &str, mtime: &Timestamp) -> (r: Option<&Metadata>)
        requires
            self.well_formed(),
        ensures
            match r {
                Some(m) => self.map().contains_key(rel_path@) && self.map()[rel_path@].metadata == *m
                    && !self.map()[rel_path@].mtime.before(*mtime),
                None => !self.map().contains_key(rel_path@) || self.map()[rel_path@].mtime.before(*mtime),
            },
    {
        match self.get_entry(rel_path) {
            Some(entry) => if !entry.mtime.is_before(mtime) {
                Some(&entry.metadata)
            } else {
                None
            },
            None => None,
        }
    }

    /// Keeps the entries of the given paths and drops every other.
    pub fn retain_paths(&mut self, keep: &Vec<String>)
        requires
            old(self).well_formed(),
        ensures
            final(self).well_formed(),
            final(self).map() == old(self).map().restrict(crate::generate::texts(keep@).to_set()),
    {
        let ghost keep_set = crate::generate::texts(keep@).to_set();
        let ghost f = |p: (String, CacheEntry)| keep_set.contains(p.0@);
        let mut entries: Vec<(String, CacheEntry)> = Vec::new();
        std::mem::swap(&mut entries, &mut self.entries);
        let ghost all = entries@;
        let mut kept: Vec<(String, CacheEntry)> = Vec::new();
        let mut rest = entries;
        // Reads the entries back to front, then restores their order.
        let mut stack: Vec<(String, CacheEntry)> = Vec::new();
        while rest.len() > 0
            invariant
                all == rest@ + stack@.reverse(),
            decreases rest@.len(),
        {
            let ghost before = rest@;
            let e = rest.pop().unwrap();
            proof {
                assert(before == rest@.push(e));
                assert(stack@.push(e).reverse() =~= seq![e] + stack@.reverse());
                assert(rest@ + (seq![e] + stack@.reverse()) =~= rest@.push(e) + stack@.reverse());
            }
            stack.push(e);
        }
        let ghost rev = stack@;
        proof {
            assert(all =~= rev.reverse());
            reveal(Seq::filter);
            assert(all.take(0).filter(f) =~= Seq::<(String, CacheEntry)>::empty());
        }
        while stack.len() > 0
            invariant
                all == rev.reverse(),
                stack@ == rev.take(stack@.len() as int),
                stack@.len() <= rev.len(),
                kept@ == all.take((rev.len() - stack@.len()) as int).filter(f),
                f == (|p: (String, CacheEntry)| keep_set.contains(p.0@)),
                keep_set == crate::generate::texts(keep@).to_set(),
            decreases stack@.len(),
        {
            let ghost before = stack@;
            let e = stack.pop().unwrap();
            let ghost k = rev.len() - before.len();
            proof {
                reveal(Seq::filter);
                assert(e == rev[before.len() - 1]);
                assert(all[k] == e);
                assert(all.take(k + 1).drop_last() =~= all.take(k));
                assert(all.take(k + 1).last() == e);
                assert(stack@ =~= rev.take(stack@.len() as int));
                assert(crate::generate::texts(keep@).contains(e.0@) == keep_set.contains(e.0@));
            }
            if crate::generate::contains_text(keep, e.0.as_str()) {
                kept.push(e);
            }
        }
        proof {
            assert(all.take(all.len() as int) =~= all);
            lemma_map_filter(all, keep_set, f);
            lemma_filter_distinct(all, f);
        }
        self.entries = kept;
    }

    /// The entries of the cache, path by path (in no stated order).
    pub fn into_entries(self) -> (r: Vec<(String, CacheEntry)>)
        requires
            self.well_formed(),
        ensures
            entries_map(r@) == self.map(),
            distinct_keys(r@),
    {
        self.entries
    }

    /// A cache of the given entries (a later entry for a path replacing an
    /// earlier one).
    pub fn from_entries(entries: Vec<(String, CacheEntry)>) -> (r: Self)
        ensures
            r.well_formed(),
            r.map() == entries_map(entries@),
    {
        let mut cache = MetadataCache::new();
        let mut rest = entries;
        let ghost all = rest@;
        let mut stack: Vec<(String, CacheEntry)> = Vec::new();
        while rest.len() > 0
            invariant
                all == rest@ + stack@.reverse(),
            decreases rest@.len(),
        {
            let ghost before = rest@;
            let e = rest.pop().unwrap();
            proof {
                assert(before == rest@.push(e));
                assert(stack@.push(e).reverse() =~= seq![e] + stack@.reverse());
                assert(rest@ + (seq![e] + stack@.reverse()) =~= rest@.push(e) + stack@.reverse());
            }
            stack.push(e);
        }
        let ghost rev = stack@;
        proof {
            assert(all =~= rev.reverse());
            assert(all.take(0) =~= Seq::<(String, CacheEntry)>::empty());
        }
        while stack.len() > 0
            invariant
                all == rev.reverse(),
                stack@ == rev.take(stack@.len() as int),
                stack@.len() <= rev.len(),
                cache.well_formed(),
                cache.map() == entries_map(all.take((rev.len() - stack@.len()) as int)),
            decreases stack@.len(),
        {
            let ghost before = stack@;
            let e = stack.pop().unwrap();
            let ghost k = rev.len() - before.len();
            proof {
                assert(e == rev[before.len() - 1]);
                assert(all[k] == e);
                assert(all.take(k + 1).drop_last() =~= all.take(k));
                assert(all.take(k + 1).last() == e);
                assert(stack@ =~= rev.take(stack@.len() as int));
            }
            let (key, entry) = e;
            cache.insert(key.as_str(), entry);
        }
        proof {
            assert(all.take(all.len() as int) =~= all);
        }
        cache
    }
}

/// What was recorded for a path is what a later lookup of that path finds, and
/// recording it leaves the entry of every other path as it was: `after` is a
/// cache as `MetadataCache::insert` leaves `before`, and `get_entry` reads `map`.
pub proof fn law_cache_read_after_write(
    before: MetadataCache,
    after: MetadataCache,
    path: Seq<char>,
    entry: CacheEntry,
    other: Seq<char>,
)
    requires
        after.map() == before.map().insert(path, entry),
    ensures
        after.map().contains_key(path),
        after.map()[path] == entry,
        other != path ==> (after.map().contains_key(other) <==> before.map().contains_key(other)),
        other != path && before.map().contains_key(other) ==> after.map()[other] == before.map()[other],
{
}

} // verus!
