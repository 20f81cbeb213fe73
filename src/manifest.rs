//! The manifest: source directories of synchronization pairs, their cache
//! directories, and the ignore patterns.
use vstd::prelude::*;
use vstd::pervasive::VecAdditionalExecFns;

verus! {

/// One entry of an identifier-to-path table, as plain character sequences.
pub type EntryModel = (Seq<char>, Seq<char>);

/// The abstract view of a table of `(identifier, path)` entries.
pub open spec fn entries_view(v: Seq<(String, String)>) -> Seq<EntryModel> {
    v.map_values(|e: (String, String)| (e.0@, e.1@))
}

/// A list of strings as character sequences.
pub open spec fn strings_view(v: Seq<String>) -> Seq<Seq<char>> {
    v.map_values(|p: String| p@)
}

/// Whether some entry of the table has key `k`.
pub open spec fn has_key(s: Seq<EntryModel>, k: Seq<char>) -> bool {
    exists|i: int| 0 <= i < s.len() && (#[trigger] s[i]).0 == k
}

/// No two entries of the table share a key.
pub open spec fn keys_unique(s: Seq<EntryModel>) -> bool {
    forall|i: int, j: int|
        0 <= i < s.len() && 0 <= j < s.len() && i != j ==> (#[trigger] s[i]).0 != (#[trigger] s[j]).0
}

/// The table read as a finite map from identifier to path.
pub open spec fn entries_map(s: Seq<EntryModel>) -> Map<Seq<char>, Seq<char>>
    decreases s.len(),
{
    if s.len() == 0 {
        Map::empty()
    } else {
        entries_map(s.drop_last()).insert(s.last().0, s.last().1)
    }
}

/// The path of the cache directory that a source directory gets by default:
/// the source path joined with `cache`.
pub open spec fn cache_path_of(src: Seq<char>) -> Seq<char> {
    src + seq!['/', 'c', 'a', 'c', 'h', 'e']
}

/// Every key of the map `entries_map(s)` is the key of some entry of `s`.
pub proof fn lemma_entries_map_dom(s: Seq<EntryModel>, k: Seq<char>)
    ensures
        entries_map(s).contains_key(k) <==> has_key(s, k),
    decreases s.len(),
{
    if s.len() > 0 {
        lemma_entries_map_dom(s.drop_last(), k);
        if has_key(s.drop_last(), k) {
            let i = choose|i: int| 0 <= i < s.drop_last().len() && (#[trigger] s.drop_last()[i]).0 == k;
            assert(s[i].0 == k);
        }
        if has_key(s, k) && s.last().0 != k {
            let i = choose|i: int| 0 <= i < s.len() && (#[trigger] s[i]).0 == k;
            assert(s.drop_last()[i].0 == k);
        }
    }
}

/// In a table with unique keys, the map sends each entry's key to its path.
pub proof fn lemma_entries_map_at(s: Seq<EntryModel>, i: int)
    requires
        keys_unique(s),
        0 <= i < s.len(),
    ensures
        entries_map(s).contains_key(s[i].0),
        entries_map(s)[s[i].0] == s[i].1,
    decreases s.len(),
{
    if i < s.len() - 1 {
        let t = s.drop_last();
        assert(t[i] == s[i]);
        assert forall|a: int, b: int|
            0 <= a < t.len() && 0 <= b < t.len() && a != b implies (#[trigger] t[a]).0 != (#[trigger] t[b]).0 by {
            assert(t[a] == s[a] && t[b] == s[b]);
        }
        lemma_entries_map_at(t, i);
        assert(s[i].0 != s[s.len() - 1].0);
    }
}

/// Appending an entry whose key is new keeps the keys unique.
pub proof fn lemma_push_unique(s: Seq<EntryModel>, e: EntryModel)
    requires
        keys_unique(s),
        !has_key(s, e.0),
    ensures
        keys_unique(s.push(e)),
        entries_map(s.push(e)) == entries_map(s).insert(e.0, e.1),
{
    let t = s.push(e);
    assert(t.drop_last() =~= s);
    assert forall|a: int, b: int|
        0 <= a < t.len() && 0 <= b < t.len() && a != b implies (#[trigger] t[a]).0 != (#[trigger] t[b]).0 by {
        if a < s.len() && b < s.len() {
            assert(t[a] == s[a] && t[b] == s[b]);
        } else if a < s.len() {
            assert(t[a] == s[a]);
        } else if b < s.len() {
            assert(t[b] == s[b]);
        }
    }
}

/// Replacing the path of an entry changes the map at that entry's key alone.
pub proof fn lemma_update_entry(s: Seq<EntryModel>, i: int, e: EntryModel)
    requires
        keys_unique(s),
        0 <= i < s.len(),
        s[i].0 == e.0,
    ensures
        keys_unique(s.update(i, e)),
        entries_map(s.update(i, e)) == entries_map(s).insert(e.0, e.1),
    decreases s.len(),
{
    let u = s.update(i, e);
    assert forall|a: int, b: int|
        0 <= a < u.len() && 0 <= b < u.len() && a != b implies (#[trigger] u[a]).0 != (#[trigger] u[b]).0 by {
        assert(u[a].0 == s[a].0 && u[b].0 == s[b].0);
    }
    let t = s.drop_last();
    assert forall|a: int, b: int|
        0 <= a < t.len() && 0 <= b < t.len() && a != b implies (#[trigger] t[a]).0 != (#[trigger] t[b]).0 by {
        assert(t[a] == s[a] && t[b] == s[b]);
    }
    if i == s.len() - 1 {
        assert(u.drop_last() =~= t);
        assert(entries_map(u) =~= entries_map(s).insert(e.0, e.1));
    } else {
        assert(u.drop_last() =~= t.update(i, e));
        lemma_update_entry(t, i, e);
        assert(s.last().0 != e.0);
        assert(entries_map(u) =~= entries_map(s).insert(e.0, e.1));
    }
}

/// The index of the entry with key `k`, if there is one.
pub fn find_key(v: &Vec<(String, String)>, k: &String) -> (r: Option<usize>)
    ensures
        r matches Some(j) ==> j < v@.len() && entries_view(v@)[j as int].0 == k@,
        r is None ==> !has_key(entries_view(v@), k@),
{
    let mut i: usize = 0;
    while i < v.len()
        invariant
            i <= v@.len(),
            forall|j: int| 0 <= j < i ==> (#[trigger] entries_view(v@)[j]).0 != k@,
        decreases v@.len() - i,
    {
        if v[i].0 == *k {
            return Some(i);
        }
        i = i + 1;
    }
    None
}

/// Sets the path of `k` in the table `v`: in place where `k` has an entry,
/// else as a new last entry.
pub fn insert_entry(v: &mut Vec<(String, String)>, k: String, path: String)
    requires
        keys_unique(entries_view(old(v)@)),
    ensures
        keys_unique(entries_view(final(v)@)),
        entries_map(entries_view(final(v)@)) == entries_map(entries_view(old(v)@)).insert(k@, path@),
        has_key(entries_view(old(v)@), k@) ==> final(v)@.len() == old(v)@.len(),
        !has_key(entries_view(old(v)@), k@) ==> entries_view(final(v)@) == entries_view(old(v)@).push(
            (k@, path@),
        ),
{
    let ghost s = entries_view(v@);
    let ghost e = (k@, path@);
    match find_key(v, &k) {
        Some(i) => {
            proof {
                lemma_update_entry(s, i as int, e);
            }
            v.set(i, (k, path));
            proof {
                assert(entries_view(v@) =~= s.update(i as int, e));
            }
        },
        None => {
            proof {
                lemma_push_unique(s, e);
            }
            v.push((k, path));
            proof {
                assert(entries_view(v@) =~= s.push(e));
            }
        },
    }
}

/// `after` is `before` with every pair's missing cache directory filled in:
/// the pairs and ignore patterns are unchanged, existing cache entries keep
/// their place and path, and each pair without one gets the default path.
pub open spec fn backfilled(before: Syncfile, after: Syncfile) -> bool {
    &&& after.wf()
    &&& after.st_pairs@ == before.st_pairs@
    &&& after.ignore@ == before.ignore@
    &&& after.cache_seq().len() >= before.cache_seq().len()
    &&& after.cache_seq().take(before.cache_seq().len() as int) == before.cache_seq()
    &&& forall|k: Seq<char>|
        #[trigger] after.cache_map().contains_key(k) <==> (before.cache_map().contains_key(k)
            || before.pairs_map().contains_key(k))
    &&& forall|k: Seq<char>|
        #[trigger] before.cache_map().contains_key(k) ==> after.cache_map()[k] == before.cache_map()[k]
    &&& forall|k: Seq<char>|
        #[trigger] before.pairs_map().contains_key(k) && !before.cache_map().contains_key(k)
            ==> after.cache_map()[k] == cache_path_of(before.pairs_map()[k])
}

/// The persisted manifest. Each table keeps its entries in insertion order
/// and holds each identifier at most once.
#[derive(Debug, PartialEq, Eq)]
pub struct Syncfile {
    /// Pair identifier to source directory.
    pub st_pairs: Vec<(String, String)>,
    /// Pair identifier to cache directory.
    pub cache_dirs: Vec<(String, String)>,
    /// Ignore patterns, in order.
    pub ignore: Vec<String>,
}

impl Syncfile {
    /// The source-directory table as a sequence of entries.
    pub open spec fn pairs_seq(&self) -> Seq<EntryModel> {
        entries_view(self.st_pairs@)
    }

    /// The cache-directory table as a sequence of entries.
    pub open spec fn cache_seq(&self) -> Seq<EntryModel> {
        entries_view(self.cache_dirs@)
    }

    /// The ignore patterns as character sequences.
    pub open spec fn ignore_seq(&self) -> Seq<Seq<char>> {
        strings_view(self.ignore@)
    }

    /// Identifier to source directory.
    pub open spec fn pairs_map(&self) -> Map<Seq<char>, Seq<char>> {
        entries_map(self.pairs_seq())
    }

    /// Identifier to cache directory.
    pub open spec fn cache_map(&self) -> Map<Seq<char>, Seq<char>> {
        entries_map(self.cache_seq())
    }

    /// Both tables hold each identifier at most once.
    pub open spec fn wf(&self) -> bool {
        keys_unique(self.pairs_seq()) && keys_unique(self.cache_seq())
    }
}

/// A manifest with no pairs, no cache directories and no ignore patterns.
pub fn init_syncfile() -> (r: Syncfile)
    ensures
        r.wf(),
        r.st_pairs@.len() == 0,
        r.cache_dirs@.len() == 0,
        r.ignore@.len() == 0,
{
    Syncfile { st_pairs: Vec::new(), cache_dirs: Vec::new(), ignore: Vec::new() }
}

impl Syncfile {
    /// Sets the source directory of the pair `id`.
    pub fn insert_pair(&mut self, id: String, path: String)
        requires
            old(self).wf(),
        ensures
            final(self).wf(),
            final(self).pairs_map() == old(self).pairs_map().insert(id@, path@),
            has_key(old(self).pairs_seq(), id@) ==> final(self).st_pairs@.len() == old(self).st_pairs@.len(),
            !has_key(old(self).pairs_seq(), id@) ==> final(self).pairs_seq() == old(self).pairs_seq().push(
                (id@, path@),
            ),
            final(self).cache_dirs@ == old(self).cache_dirs@,
            final(self).ignore@ == old(self).ignore@,
    {
        insert_entry(&mut self.st_pairs, id, path);
    }

    /// Gives every pair without a cache directory the default one, the
    /// source path joined with `cache`. Existing cache entries keep their
    /// place and their path; new ones are appended.
    pub fn backfill_cache_dirs(&mut self)
        requires
            old(self).wf(),
        ensures
            backfilled(*old(self), *final(self)),
    {
        let ghost pairs = self.pairs_seq();
        let ghost old_cache = self.cache_seq();
        let ghost old_map = self.cache_map();
        let n = self.st_pairs.len();
        let mut i: usize = 0;
        while i < n
            invariant
                n == self.st_pairs@.len(),
                i <= n,
                self.st_pairs@ == old(self).st_pairs@,
                self.ignore@ == old(self).ignore@,
                self.pairs_seq() == pairs,
                keys_unique(pairs),
                old_map == entries_map(old_cache),
                keys_unique(self.cache_seq()),
                self.cache_seq().len() >= old_cache.len(),
                self.cache_seq().take(old_cache.len() as int) == old_cache,
                forall|k: Seq<char>|
                    #[trigger] self.cache_map().contains_key(k) <==> (old_map.contains_key(k)
                        || entries_map(pairs.take(i as int)).contains_key(k)),
                forall|k: Seq<char>|
                    #[trigger] old_map.contains_key(k) ==> self.cache_map()[k] == old_map[k],
                forall|k: Seq<char>|
                    #[trigger] entries_map(pairs.take(i as int)).contains_key(k) && !old_map.contains_key(k)
                        ==> self.cache_map()[k] == cache_path_of(entries_map(pairs.take(i as int))[k]),
            decreases n - i,
        {
            let ghost before = self.cache_seq();
            let ghost before_map = self.cache_map();
            let ghost k = pairs[i as int].0;
            let ghost v = pairs[i as int].1;
            proof {
                assert(pairs.take(i + 1).drop_last() =~= pairs.take(i as int));
                assert(pairs.take(i + 1).last() == pairs[i as int]);
                assert(entries_map(pairs.take(i + 1)) == entries_map(pairs.take(i as int)).insert(k, v));
                lemma_entries_map_dom(pairs.take(i as int), k);
                if has_key(pairs.take(i as int), k) {
                    let j = choose|j: int|
                        0 <= j < pairs.take(i as int).len() && (#[trigger] pairs.take(i as int)[j]).0 == k;
                    assert(pairs[j].0 == k);
                }
                lemma_entries_map_dom(self.cache_seq(), k);
                lemma_entries_map_dom(old_cache, k);
            }
            let found = find_key(&self.cache_dirs, &self.st_pairs[i].0);
            if found.is_none() {
                let key = self.st_pairs[i].0.clone();
                let mut path = self.st_pairs[i].1.clone();
                path.append("/cache");
                proof {
                    reveal_strlit("/cache");
                    assert(path@ =~= cache_path_of(v));
                    lemma_push_unique(before, (k, path@));
                }
                self.cache_dirs.push((key, path));
                proof {
                    assert(self.cache_seq() =~= before.push((k, path@)));
                    assert(self.cache_seq().take(old_cache.len() as int) =~= before.take(old_cache.len() as int));
                    assert(self.cache_map() == before_map.insert(k, path@));
                    assert forall|k2: Seq<char>|
                        #[trigger] self.cache_map().contains_key(k2) <==> (old_map.contains_key(k2)
                            || entries_map(pairs.take(i + 1)).contains_key(k2)) by {
                        assert(before_map.contains_key(k2) <==> (old_map.contains_key(k2)
                            || entries_map(pairs.take(i as int)).contains_key(k2)));
                    }
                }
            } else {
                proof {
                    let j = found.unwrap() as int;
                    lemma_entries_map_at(before, j);
                    assert forall|k2: Seq<char>|
                        #[trigger] self.cache_map().contains_key(k2) <==> (old_map.contains_key(k2)
                            || entries_map(pairs.take(i + 1)).contains_key(k2)) by {
                        assert(before_map.contains_key(k2) <==> (old_map.contains_key(k2)
                            || entries_map(pairs.take(i as int)).contains_key(k2)));
                    }
                }
            }
            i = i + 1;
        }
        proof {
            assert(pairs.take(n as int) =~= pairs);
        }
    }
}

} // verus!
