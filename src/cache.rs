//! Per-source content hashes and their difference between two builds.
use vstd::prelude::*;

use crate::text::{insert_sorted, strictly_sorted, text_eq, text_lt, texts};
use vstd::utf8::encode_utf8;

verus! {

/// The hash recorded for path `k` in `s`: the last entry with that path.
pub open spec fn hash_of(s: Seq<(String, u64)>, k: Seq<char>) -> Option<u64>
    decreases s.len(),
{
    if s.len() == 0 {
        None
    } else if s.last().0@ == k {
        Some(s.last().1)
    } else {
        hash_of(s.drop_last(), k)
    }
}

/// Content hashes of source files, keyed by project-relative path.
pub struct SourceHashes {
    pub entries: Vec<(String, u64)>,
}

impl SourceHashes {
    /// No path occurs twice.
    pub open spec fn wf(&self) -> bool {
        forall|i: int, j: int|
            0 <= i < j < self.entries@.len() ==> #[trigger] self.entries@[i].0@ != #[trigger] self.entries@[j].0@
    }

    /// The hashes as a map from path to hash.
    pub open spec fn view(&self) -> Map<Seq<char>, u64> {
        Map::new(|k: Seq<char>| hash_of(self.entries@, k) is Some, |k: Seq<char>| hash_of(self.entries@, k)->Some_0)
    }

    /// No hashes.
    pub fn new() -> (r: SourceHashes)
        ensures
            r.wf(),
            r@ == Map::<Seq<char>, u64>::empty(),
    {
        let r = SourceHashes { entries: Vec::new() };
        assert(r@ =~= Map::<Seq<char>, u64>::empty());
        r
    }

    /// The number of paths.
    pub fn len(&self) -> (r: usize)
        requires
            self.wf(),
        ensures
            r == self@.dom().len(),
    {
        proof {
            lemma_hashes_dom(self.entries@);
        }
        self.entries.len()
    }

    /// The hash recorded for `path`.
    pub fn get(&self, path: &str) -> (r: Option<u64>)
        ensures
            r == hash_of(self.entries@, path@),
    {
        let mut i = self.entries.len();
        assert(self.entries@.subrange(0, i as int) =~= self.entries@);
        while i > 0
            invariant
                i <= self.entries@.len(),
                hash_of(self.entries@, path@) == hash_of(self.entries@.subrange(0, i as int), path@),
            decreases i,
        {
            let ghost sub = self.entries@.subrange(0, i as int);
            assert(sub.drop_last() =~= self.entries@.subrange(0, i - 1));
            if text_eq(self.entries[i - 1].0.as_str(), path) {
                return Some(self.entries[i - 1].1);
            }
            i = i - 1;
        }
        None
    }

    /// Records `hash` for `path`, replacing an earlier hash of that path.
    pub fn insert(&mut self, path: String, hash: u64)
        requires
            old(self).wf(),
        ensures
            final(self).wf(),
            final(self)@ == old(self)@.insert(path@, hash),
    {
        let ghost old_entries = self.entries@;
        let mut i: usize = 0;
        while i < self.entries.len()
            invariant
                self.entries@ == old_entries,
                old_entries == old(self).entries@,
                forall|a: int, b: int|
                    0 <= a < b < old_entries.len() ==> #[trigger] old_entries[a].0@ != #[trigger] old_entries[b].0@,
                i <= old_entries.len(),
                forall|j: int| 0 <= j < i ==> old_entries[j].0@ != path@,
            decreases old_entries.len() - i,
        {
            if text_eq(self.entries[i].0.as_str(), path.as_str()) {
                let ghost p = path@;
                self.entries.set(i, (path, hash));
                proof {
                    lemma_hash_of_unique(old_entries, i as int);
                    assert forall|k: Seq<char>| #[trigger] hash_of(self.entries@, k) == (if k == p {
                        Some(hash)
                    } else {
                        hash_of(old_entries, k)
                    }) by {
                        lemma_hash_of_set(old_entries, i as int, (self.entries@[i as int]), k);
                    }
                    assert(self@ =~= old(self)@.insert(p, hash));
                    assert forall|a: int, b: int|
                        0 <= a < b < self.entries@.len() implies #[trigger] self.entries@[a].0@
                        != #[trigger] self.entries@[b].0@ by {
                        assert(self.entries@[a].0@ == old_entries[a].0@);
                        assert(self.entries@[b].0@ == old_entries[b].0@);
                    }
                }
                return;
            }
            i = i + 1;
        }
        let ghost p = path@;
        self.entries.push((path, hash));
        proof {
            assert(self.entries@.drop_last() =~= old_entries);
            assert(self@ =~= old(self)@.insert(p, hash));
            assert forall|a: int, b: int|
                0 <= a < b < self.entries@.len() implies #[trigger] self.entries@[a].0@
                != #[trigger] self.entries@[b].0@ by {
                if b == old_entries.len() {
                    assert(self.entries@[a] == old_entries[a]);
                } else {
                    assert(self.entries@[a] == old_entries[a]);
                    assert(self.entries@[b] == old_entries[b]);
                }
            }
        }
    }
}

pub proof fn lemma_hash_of_in(s: Seq<(String, u64)>, k: Seq<char>)
    ensures
        hash_of(s, k) is Some <==> exists|j: int| 0 <= j < s.len() && s[j].0@ == k,
    decreases s.len(),
{
    if s.len() > 0 {
        lemma_hash_of_in(s.drop_last(), k);
        if exists|j: int| 0 <= j < s.len() && s[j].0@ == k {
            let j = choose|j: int| 0 <= j < s.len() && s[j].0@ == k;
            if j < s.len() - 1 {
                assert(s.drop_last()[j].0@ == k);
            }
        }
        if exists|j: int| 0 <= j < s.drop_last().len() && s.drop_last()[j].0@ == k {
            let j = choose|j: int| 0 <= j < s.drop_last().len() && s.drop_last()[j].0@ == k;
            assert(s[j].0@ == k);
        }
    }
}

/// With distinct paths, the entry at `i` gives its path's hash.
pub proof fn lemma_hash_of_unique(s: Seq<(String, u64)>, i: int)
    requires
        0 <= i < s.len(),
        forall|a: int, b: int| 0 <= a < b < s.len() ==> #[trigger] s[a].0@ != #[trigger] s[b].0@,
    ensures
        hash_of(s, s[i].0@) == Some(s[i].1),
    decreases s.len(),
{
    if i < s.len() - 1 {
        assert(s.last().0@ != s[i].0@);
        lemma_hash_of_unique(s.drop_last(), i);
    }
}

proof fn lemma_hash_of_set(s: Seq<(String, u64)>, i: int, e: (String, u64), k: Seq<char>)
    requires
        0 <= i < s.len(),
        e.0@ == s[i].0@,
        forall|a: int, b: int| 0 <= a < b < s.len() ==> #[trigger] s[a].0@ != #[trigger] s[b].0@,
    ensures
        hash_of(s.update(i, e), k) == if k == e.0@ {
            Some(e.1)
        } else {
            hash_of(s, k)
        },
    decreases s.len(),
{
    let t = s.update(i, e);
    if i == s.len() - 1 {
        assert(t.drop_last() =~= s.drop_last());
        if k == e.0@ {
        } else {
        }
    } else {
        assert(t.drop_last() =~= s.drop_last().update(i, e));
        lemma_hash_of_set(s.drop_last(), i, e, k);
        assert(s.last().0@ != s[i].0@);
    }
}

proof fn lemma_hashes_dom(s: Seq<(String, u64)>)
    requires
        forall|a: int, b: int| 0 <= a < b < s.len() ==> #[trigger] s[a].0@ != #[trigger] s[b].0@,
    ensures
        Set::new(|k: Seq<char>| hash_of(s, k) is Some).finite(),
        Set::new(|k: Seq<char>| hash_of(s, k) is Some).len() == s.len(),
    decreases s.len(),
{
    let d = Set::new(|k: Seq<char>| hash_of(s, k) is Some);
    if s.len() == 0 {
        assert(d =~= Set::empty());
    } else {
        let s0 = s.drop_last();
        lemma_hashes_dom(s0);
        let d0 = Set::new(|k: Seq<char>| hash_of(s0, k) is Some);
        assert(d =~= d0.insert(s.last().0@));
        lemma_hash_of_in(s0, s.last().0@);
        if d0.contains(s.last().0@) {
            let j = choose|j: int| 0 <= j < s0.len() && s0[j].0@ == s.last().0@;
            assert(s[j].0@ == s[s.len() - 1].0@);
        }
    }
}

/// The paths whose hash differs between `old` and `new`.
pub open spec fn changed_paths(old: Map<Seq<char>, u64>, new: Map<Seq<char>, u64>) -> Set<Seq<char>> {
    Set::new(|k: Seq<char>| old.contains_key(k) && new.contains_key(k) && old[k] != new[k])
}

/// Collects, in increasing order, the paths of `from` that `other` lacks
/// (when `missing`) or that `other` holds with another hash (otherwise).
fn collect_paths(from: &SourceHashes, other: &SourceHashes, missing: bool) -> (r: Vec<String>)
    requires
        from.wf(),
    ensures
        strictly_sorted(texts(r@)),
        missing ==> texts(r@).to_set() == from@.dom().difference(other@.dom()),
        !missing ==> texts(r@).to_set() == changed_paths(other@, from@),
{
    let mut out: Vec<String> = Vec::new();
    let ghost es = from.entries@;
    let ghost goal = if missing {
        from@.dom().difference(other@.dom())
    } else {
        changed_paths(other@, from@)
    };
    let mut i: usize = 0;
    assert(texts(out@).to_set() =~= Set::empty());
    assert(es.subrange(0, 0) =~= Seq::empty());
    while i < from.entries.len()
        invariant
            es == from.entries@,
            from.wf(),
            i <= es.len(),
            goal == (if missing {
                from@.dom().difference(other@.dom())
            } else {
                changed_paths(other@, from@)
            }),
            strictly_sorted(texts(out@)),
            texts(out@).to_set() == goal.filter(|k: Seq<char>| hash_of(es.subrange(0, i as int), k) is Some),
        decreases es.len() - i,
    {
        let path = &from.entries[i].0;
        let h = from.entries[i].1;
        let o = other.get(path.as_str());
        let ghost pre = es.subrange(0, i as int);
        let ghost post = es.subrange(0, i + 1);
        proof {
            assert(post.drop_last() =~= pre);
            lemma_hash_of_unique(es, i as int);
            lemma_hash_of_in(pre, path@);
            if hash_of(pre, path@) is Some {
                let j = choose|j: int| 0 <= j < pre.len() && pre[j].0@ == path@;
                assert(es[j].0@ == es[i as int].0@);
            }
        }
        let take = match o {
            None => missing,
            Some(oh) => !missing && oh != h,
        };
        if take {
            proof {
                assert(!texts(out@).to_set().contains(path@));
                assert(!texts(out@).contains(path@));
            }
            insert_sorted(&mut out, path.clone());
        }
        proof {
            assert(texts(out@).to_set() =~= goal.filter(|k: Seq<char>| hash_of(post, k) is Some));
        }
        i = i + 1;
    }
    proof {
        assert(es.subrange(0, es.len() as int) =~= es);
        assert(goal.filter(|k: Seq<char>| hash_of(es, k) is Some) =~= goal);
    }
    out
}

/// The difference between the hashes of the last build and the current
/// ones: the paths whose hash changed, the paths added and the paths
/// deleted, each in increasing order.
pub fn diff_hashes(old: &SourceHashes, new: &SourceHashes) -> (r: (Vec<String>, Vec<String>, Vec<String>))
    requires
        old.wf(),
        new.wf(),
    ensures
        strictly_sorted(texts(r.0@)),
        strictly_sorted(texts(r.1@)),
        strictly_sorted(texts(r.2@)),
        texts(r.0@).to_set() == changed_paths(old@, new@),
        texts(r.1@).to_set() == new@.dom().difference(old@.dom()),
        texts(r.2@).to_set() == old@.dom().difference(new@.dom()),
{
    let changed = collect_paths(new, old, false);
    let added = collect_paths(new, old, true);
    let deleted = collect_paths(old, new, true);
    (changed, added, deleted)
}

/// The 64-bit XXH3 digest of a byte sequence.
pub uninterp spec fn xxh3_of(b: Seq<u8>) -> u64;

/// Relies on xxhash_rust::xxh3::xxh3_64: the default-seeded 64-bit XXH3
/// digest, a function of the bytes alone.
#[verifier::external_body]
fn xxh3_64(b: &[u8]) -> (r: u64)
    ensures
        r == xxh3_of(b@),
{
    xxhash_rust::xxh3::xxh3_64(b)
}

/// The content hash of a file's bytes.
pub fn content_hash(bytes: &[u8]) -> (r: u64)
    ensures
        r == xxh3_of(bytes@),
{
    xxh3_64(bytes)
}

/// The bytes hashed for a list of texts: each one's UTF-8 bytes followed
/// by a zero byte.
pub open spec fn joined_bytes(items: Seq<Seq<char>>) -> Seq<u8>
    decreases items.len(),
{
    if items.len() == 0 {
        Seq::empty()
    } else {
        joined_bytes(items.drop_last()) + encode_utf8(items.last()) + seq![0u8]
    }
}

/// The digest of a list of texts, each terminated by a zero byte.
pub fn hash_strings(items: &Vec<String>) -> (r: u64)
    ensures
        r == xxh3_of(joined_bytes(texts(items@))),
{
    let mut bytes: Vec<u8> = Vec::new();
    let mut i: usize = 0;
    while i < items.len()
        invariant
            i <= items@.len(),
            bytes@ == joined_bytes(texts(items@.subrange(0, i as int))),
        decreases items@.len() - i,
    {
        let b = items[i].as_str().as_bytes();
        let mut j: usize = 0;
        let ghost start = bytes@;
        while j < b.len()
            invariant
                j <= b@.len(),
                bytes@ == start + b@.subrange(0, j as int),
            decreases b@.len() - j,
        {
            bytes.push(b[j]);
            proof {
                assert(b@.subrange(0, j + 1) =~= b@.subrange(0, j as int).push(b@[j as int]));
            }
            j = j + 1;
        }
        bytes.push(0u8);
        proof {
            let t = texts(items@.subrange(0, i + 1));
            assert(t.drop_last() =~= texts(items@.subrange(0, i as int)));
            assert(t.last() == items@[i as int]@);
            assert(b@.subrange(0, b@.len() as int) =~= b@);
            assert(bytes@ =~= joined_bytes(t));
        }
        i = i + 1;
    }
    assert(items@.subrange(0, items@.len() as int) =~= items@);
    xxh3_64(bytes.as_slice())
}

/// `v` is in increasing order, equal texts allowed.
pub open spec fn sorted(v: Seq<Seq<char>>) -> bool {
    forall|i: int, j: int| 0 <= i < j < v.len() ==> !text_lt(#[trigger] v[j], #[trigger] v[i])
}

/// Relies on slice::sort of std: the same strings, in increasing order of
/// `str`'s ordering.
#[verifier::external_body]
fn sort_strings(v: &mut Vec<String>)
    ensures
        texts(final(v)@).to_multiset() == texts(old(v)@).to_multiset(),
        sorted(texts(final(v)@)),
{
    v.sort();
}

/// The fingerprint of a dependency list and a compiler version: the digest
/// of the version followed by the dependencies in increasing order.
pub fn dependency_fingerprint(compiler_version: &String, dependencies: &Vec<String>) -> (r: u64)
    ensures
        exists|s: Seq<Seq<char>>|
            sorted(s) && s.to_multiset() == texts(dependencies@).to_multiset() && r == xxh3_of(
                joined_bytes(seq![compiler_version@] + s),
            ),
{
    let mut items: Vec<String> = Vec::new();
    let mut i: usize = 0;
    while i < dependencies.len()
        invariant
            i <= dependencies@.len(),
            items@.len() == i,
            texts(items@) == texts(dependencies@.subrange(0, i as int)),
        decreases dependencies@.len() - i,
    {
        let ghost before = items@;
        let d = dependencies[i].clone();
        assert(d@ == dependencies@[i as int]@);
        items.push(d);
        proof {
            assert(items@ == before.push(d));
            assert forall|k: int| 0 <= k < i + 1 implies #[trigger] texts(items@)[k] == texts(
                dependencies@.subrange(0, i + 1),
            )[k] by {
                if k < i {
                    assert(texts(items@)[k] == texts(before)[k]);
                    assert(texts(before)[k] == texts(dependencies@.subrange(0, i as int))[k]);
                }
            }
            assert(texts(items@) =~= texts(dependencies@.subrange(0, i + 1)));
        }
        i = i + 1;
    }
    assert(dependencies@.subrange(0, dependencies@.len() as int) =~= dependencies@);
    sort_strings(&mut items);
    let ghost s = texts(items@);
    items.insert(0, compiler_version.clone());
    assert(texts(items@) =~= seq![compiler_version@] + s);
    hash_strings(&items)
}

} // verus!
