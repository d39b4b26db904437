//! The incremental-compilation state and the scheduler's decisions: which
//! sources to compile in each round, and the state that each round leaves.
use vstd::prelude::*;

use crate::cache::{diff_hashes, hash_of, lemma_hash_of_in, lemma_hash_of_unique, SourceHashes};
use crate::text::{
    concat, contains_text, ends_with, file_name, file_name_of, has_prefix, has_suffix, insert_sorted,
    starts_with, strictly_sorted, text_eq, texts, trim_end, trim_end_text,
};

verus! {

/// An output artifact and the sources it depends on.
pub struct ArtifactRecord {
    /// Path relative to the output directory.
    pub path: String,
    /// Sources whose artifacts this one references.
    pub deps_out: Vec<String>,
}

/// What the state records of one source.
pub struct SourceRecord {
    /// Project-relative path, the source's identity.
    pub path: String,
    /// Digest of the source's bytes.
    pub content_hash: u64,
    /// Digest of the interface of its artifacts; absent before it compiled.
    pub api_hash: Option<u64>,
    /// The artifacts compiling it produced.
    pub artifacts: Vec<ArtifactRecord>,
}

/// The persisted state: the dependency fingerprint and a record per source.
pub struct IncrementalState {
    pub dep_hash: u64,
    pub sources: Vec<SourceRecord>,
}

/// An artifact record as mathematical values.
pub struct ArtifactModel {
    pub path: Seq<char>,
    pub deps_out: Seq<Seq<char>>,
}

/// A source record as mathematical values.
pub struct SourceModel {
    pub path: Seq<char>,
    pub content_hash: u64,
    pub api_hash: Option<u64>,
    pub artifacts: Seq<ArtifactModel>,
}

impl ArtifactRecord {
    pub open spec fn model(&self) -> ArtifactModel {
        ArtifactModel { path: self.path@, deps_out: texts(self.deps_out@) }
    }
}

impl SourceRecord {
    pub open spec fn model(&self) -> SourceModel {
        SourceModel {
            path: self.path@,
            content_hash: self.content_hash,
            api_hash: self.api_hash,
            artifacts: self.artifacts@.map_values(|a: ArtifactRecord| a.model()),
        }
    }
}

/// The record of path `k` in `s`: the first one with that path.
pub open spec fn record_for(s: Seq<SourceRecord>, k: Seq<char>) -> Option<SourceModel>
    decreases s.len(),
{
    if s.len() == 0 {
        None
    } else if s[0].path@ == k {
        Some(s[0].model())
    } else {
        record_for(s.drop_first(), k)
    }
}

/// The interface digest recorded for path `k`.
pub open spec fn api_of(s: Seq<SourceRecord>, k: Seq<char>) -> Option<u64> {
    match record_for(s, k) {
        Some(m) => m.api_hash,
        None => None,
    }
}

/// Whether an artifact of `m` depends on source `t`.
pub open spec fn depends_on(m: SourceModel, t: Seq<char>) -> bool {
    exists|a: int, d: int|
        0 <= a < m.artifacts.len() && 0 <= d < m.artifacts[a].deps_out.len() && #[trigger] m.artifacts[a].deps_out[d] == t
}

/// The sources of `s` that depend on source `t`: the reverse dependencies of `t`.
pub open spec fn dependents(s: Seq<SourceRecord>, t: Seq<char>) -> Set<Seq<char>> {
    Set::new(|p: Seq<char>| exists|i: int| 0 <= i < s.len() && #[trigger] s[i].path@ == p && depends_on(s[i].model(), t))
}

/// A copy of a list of texts.
pub fn copy_texts(v: &Vec<String>) -> (r: Vec<String>)
    ensures
        texts(r@) == texts(v@),
{
    let mut out: Vec<String> = Vec::new();
    let mut i: usize = 0;
    while i < v.len()
        invariant
            i <= v@.len(),
            out@.len() == i,
            forall|k: int| 0 <= k < i ==> #[trigger] out@[k]@ == v@[k]@,
        decreases v@.len() - i,
    {
        out.push(v[i].clone());
        i = i + 1;
    }
    assert(texts(out@) =~= texts(v@));
    out
}

/// A copy of a source record.
pub fn copy_record(r: &SourceRecord) -> (c: SourceRecord)
    ensures
        c.model() == r.model(),
{
    let mut artifacts: Vec<ArtifactRecord> = Vec::new();
    let mut i: usize = 0;
    while i < r.artifacts.len()
        invariant
            i <= r.artifacts@.len(),
            artifacts@.len() == i,
            forall|k: int| 0 <= k < i ==> #[trigger] artifacts@[k].model() == r.artifacts@[k].model(),
        decreases r.artifacts@.len() - i,
    {
        let a = &r.artifacts[i];
        artifacts.push(ArtifactRecord { path: a.path.clone(), deps_out: copy_texts(&a.deps_out) });
        i = i + 1;
    }
    let c = SourceRecord { path: r.path.clone(), content_hash: r.content_hash, api_hash: r.api_hash, artifacts };
    assert(c.model().artifacts =~= r.model().artifacts);
    c
}

/// Whether an artifact of `r` depends on source `t`.
fn record_depends_on(r: &SourceRecord, t: &str) -> (b: bool)
    ensures
        b == depends_on(r.model(), t@),
{
    let ghost m = r.model();
    let mut a: usize = 0;
    while a < r.artifacts.len()
        invariant
            m == r.model(),
            a <= r.artifacts@.len(),
            forall|x: int, d: int|
                0 <= x < a && 0 <= d < m.artifacts[x].deps_out.len() ==> #[trigger] m.artifacts[x].deps_out[d] != t@,
        decreases r.artifacts@.len() - a,
    {
        let deps = &r.artifacts[a].deps_out;
        let mut d: usize = 0;
        while d < deps.len()
            invariant
                m == r.model(),
                a < r.artifacts@.len(),
                deps == &r.artifacts@[a as int].deps_out,
                d <= deps@.len(),
                forall|y: int| 0 <= y < d ==> #[trigger] deps@[y]@ != t@,
                forall|x: int, e: int|
                    0 <= x < a && 0 <= e < m.artifacts[x].deps_out.len() ==> #[trigger] m.artifacts[x].deps_out[e] != t@,
            decreases deps@.len() - d,
        {
            if text_eq(deps[d].as_str(), t) {
                assert(m.artifacts[a as int].deps_out[d as int] == t@);
                return true;
            }
            d = d + 1;
        }
        proof {
            assert forall|x: int, e: int|
                0 <= x < a + 1 && 0 <= e < m.artifacts[x].deps_out.len() implies #[trigger] m.artifacts[x].deps_out[e]
                != t@ by {
                if x == a {
                    assert(m.artifacts[x].deps_out[e] == deps@[e]@);
                }
            }
        }
        a = a + 1;
    }
    false
}

impl IncrementalState {
    /// No source occurs twice.
    pub open spec fn wf(&self) -> bool {
        forall|i: int, j: int|
            0 <= i < j < self.sources@.len() ==> #[trigger] self.sources@[i].path@ != #[trigger] self.sources@[j].path@
    }

    /// The index of the record of `path`, if there is one.
    pub fn find(&self, path: &str) -> (r: Option<usize>)
        ensures
            match r {
                Some(i) => i < self.sources@.len() && self.sources@[i as int].path@ == path@ && record_for(
                    self.sources@,
                    path@,
                ) == Some(self.sources@[i as int].model()),
                None => record_for(self.sources@, path@) is None,
            },
    {
        let ghost s = self.sources@;
        let mut i: usize = 0;
        assert(s.subrange(0, s.len() as int) =~= s);
        while i < self.sources.len()
            invariant
                s == self.sources@,
                i <= s.len(),
                record_for(s, path@) == record_for(s.subrange(i as int, s.len() as int), path@),
            decreases s.len() - i,
        {
            let ghost rest = s.subrange(i as int, s.len() as int);
            assert(rest.drop_first() =~= s.subrange(i + 1, s.len() as int));
            if text_eq(self.sources[i].path.as_str(), path) {
                return Some(i);
            }
            i = i + 1;
        }
        None
    }

    /// The interface digest recorded for `path`.
    pub fn api_hash_for_source(&self, path: &str) -> (r: Option<u64>)
        ensures
            r == api_of(self.sources@, path@),
    {
        match self.find(path) {
            Some(i) => self.sources[i].api_hash,
            None => None,
        }
    }

    /// The sources that depend on `target`, in increasing order.
    pub fn dependents_of(&self, target: &str) -> (r: Vec<String>)
        ensures
            strictly_sorted(texts(r@)),
            texts(r@).to_set() == dependents(self.sources@, target@),
    {
        let ghost s = self.sources@;
        let mut out: Vec<String> = Vec::new();
        let mut i: usize = 0;
        assert(texts(out@).to_set() =~= Set::empty());
        while i < self.sources.len()
            invariant
                s == self.sources@,
                i <= s.len(),
                strictly_sorted(texts(out@)),
                texts(out@).to_set() == Set::new(
                    |p: Seq<char>| exists|k: int| 0 <= k < i && #[trigger] s[k].path@ == p && depends_on(s[k].model(), target@),
                ),
            decreases s.len() - i,
        {
            let rec = &self.sources[i];
            let ghost before = texts(out@).to_set();
            if record_depends_on(rec, target) && !contains_text(&out, rec.path.as_str()) {
                insert_sorted(&mut out, rec.path.clone());
            }
            proof {
                assert(texts(out@).to_set() =~= Set::new(
                    |p: Seq<char>| exists|k: int| 0 <= k < i + 1 && #[trigger] s[k].path@ == p && depends_on(s[k].model(), target@),
                )) by {
                    assert forall|p: Seq<char>| Set::new(
                        |p: Seq<char>| exists|k: int| 0 <= k < i + 1 && #[trigger] s[k].path@ == p && depends_on(s[k].model(), target@),
                    ).contains(p) implies texts(out@).to_set().contains(p) by {
                        let k = choose|k: int| 0 <= k < i + 1 && #[trigger] s[k].path@ == p && depends_on(s[k].model(), target@);
                        if k < i {
                            assert(before.contains(p));
                        }
                    }
                }
            }
            i = i + 1;
        }
        assert(texts(out@).to_set() =~= dependents(s, target@));
        out
    }
}

/// Adds to the strictly sorted `out` each text of `items` that `except`
/// does not hold.
fn add_all_except(out: &mut Vec<String>, items: &Vec<String>, except: &Vec<String>)
    requires
        strictly_sorted(texts(old(out)@)),
    ensures
        strictly_sorted(texts(final(out)@)),
        texts(final(out)@).to_set() == texts(old(out)@).to_set().union(
            texts(items@).to_set().difference(texts(except@).to_set()),
        ),
{
    let ghost start = texts(out@).to_set();
    let mut i: usize = 0;
    while i < items.len()
        invariant
            i <= items@.len(),
            strictly_sorted(texts(out@)),
            texts(out@).to_set() == start.union(
                texts(items@.subrange(0, i as int)).to_set().difference(texts(except@).to_set()),
            ),
        decreases items@.len() - i,
    {
        let x = &items[i];
        let ghost before = texts(out@).to_set();
        if !contains_text(except, x.as_str()) && !contains_text(out, x.as_str()) {
            insert_sorted(out, x.clone());
        }
        proof {
            assert(texts(items@.subrange(0, i + 1)) =~= texts(items@.subrange(0, i as int)).push(x@));
            texts(items@.subrange(0, i as int)).lemma_push_to_set_commute(x@);
            assert(texts(out@).to_set() =~= start.union(
                texts(items@.subrange(0, i + 1)).to_set().difference(texts(except@).to_set()),
            ));
        }
        i = i + 1;
    }
    assert(items@.subrange(0, items@.len() as int) =~= items@);
}

/// The sources compiled in the first round: those changed or added, and
/// those that depended on a deleted source.
pub open spec fn first_round(
    prior: Seq<SourceRecord>,
    changed: Seq<Seq<char>>,
    added: Seq<Seq<char>>,
    deleted: Seq<Seq<char>>,
) -> Set<Seq<char>> {
    changed.to_set().union(added.to_set()).union(
        Set::new(|p: Seq<char>| exists|j: int| 0 <= j < deleted.len() && #[trigger] dependents(prior, deleted[j]).contains(p)),
    )
}

/// The dirty set of the first round (see `first_round`), in increasing order.
pub fn initial_dirty(prior: &IncrementalState, changed: &Vec<String>, added: &Vec<String>, deleted: &Vec<String>) -> (r: Vec<String>)
    ensures
        strictly_sorted(texts(r@)),
        texts(r@).to_set() == first_round(prior.sources@, texts(changed@), texts(added@), texts(deleted@)),
{
    let none: Vec<String> = Vec::new();
    let mut out: Vec<String> = Vec::new();
    add_all_except(&mut out, changed, &none);
    add_all_except(&mut out, added, &none);
    let ghost base = texts(out@).to_set();
    proof {
        assert(texts(none@).to_set() =~= Set::empty());
        assert(base =~= texts(changed@).to_set().union(texts(added@).to_set()));
    }
    let mut j: usize = 0;
    while j < deleted.len()
        invariant
            j <= deleted@.len(),
            strictly_sorted(texts(out@)),
            texts(none@).to_set() == Set::<Seq<char>>::empty(),
            texts(out@).to_set() == base.union(
                Set::new(|p: Seq<char>| exists|k: int| 0 <= k < j && #[trigger] dependents(prior.sources@, deleted@[k]@).contains(p)),
            ),
        decreases deleted@.len() - j,
    {
        let deps = prior.dependents_of(deleted[j].as_str());
        let ghost before = texts(out@).to_set();
        add_all_except(&mut out, &deps, &none);
        proof {
            assert(texts(out@).to_set() =~= base.union(
                Set::new(|p: Seq<char>| exists|k: int| 0 <= k < j + 1 && #[trigger] dependents(prior.sources@, deleted@[k]@).contains(p)),
            )) by {
                assert forall|p: Seq<char>| #[trigger] texts(out@).to_set().contains(p) == base.union(
                    Set::new(|p: Seq<char>| exists|k: int| 0 <= k < j + 1 && #[trigger] dependents(prior.sources@, deleted@[k]@).contains(p)),
                ).contains(p) by {
                    if exists|k: int| 0 <= k < j + 1 && #[trigger] dependents(prior.sources@, deleted@[k]@).contains(p) {
                        let k = choose|k: int| 0 <= k < j + 1 && #[trigger] dependents(prior.sources@, deleted@[k]@).contains(p);
                        if k == j {
                            assert(texts(deps@).to_set().contains(p));
                        } else {
                            assert(before.contains(p));
                        }
                    }
                }
            }
        }
        j = j + 1;
    }
    proof {
        let d = texts(deleted@);
        let a = Set::new(|p: Seq<char>| exists|k: int| 0 <= k < deleted@.len() && #[trigger] dependents(prior.sources@, deleted@[k]@).contains(p));
        let b = Set::new(|p: Seq<char>| exists|k: int| 0 <= k < d.len() && #[trigger] dependents(prior.sources@, d[k]).contains(p));
        assert forall|p: Seq<char>| #[trigger] a.contains(p) == b.contains(p) by {
            if b.contains(p) {
                let k = choose|k: int| 0 <= k < d.len() && #[trigger] dependents(prior.sources@, d[k]).contains(p);
                assert(d[k] == deleted@[k]@);
            }
            if a.contains(p) {
                let k = choose|k: int| 0 <= k < deleted@.len() && #[trigger] dependents(prior.sources@, deleted@[k]@).contains(p);
                assert(d[k] == deleted@[k]@);
            }
        }
        assert(a =~= b);
    }
    out
}

/// The sources added to the next round: those outside `dirty` that depend,
/// in the prior state or in the state after the round, on a source of
/// `dirty` whose interface digest changed in the round.
pub open spec fn cascade(
    prior: Seq<SourceRecord>,
    before: Seq<SourceRecord>,
    after: Seq<SourceRecord>,
    dirty: Seq<Seq<char>>,
) -> Set<Seq<char>> {
    Set::new(
        |t: Seq<char>|
            !dirty.contains(t) && exists|j: int|
                0 <= j < dirty.len() && api_of(before, #[trigger] dirty[j]) != api_of(after, dirty[j]) && (dependents(
                    prior,
                    dirty[j],
                ).contains(t) || dependents(after, dirty[j]).contains(t)),
    )
}

/// The dirty set of the next round (see `cascade`), in increasing order.
/// `before` holds the interface digests seen before the round, `after` the
/// state the round produced.
pub fn next_dirty(
    prior: &IncrementalState,
    before: &IncrementalState,
    after: &IncrementalState,
    dirty: &Vec<String>,
) -> (r: Vec<String>)
    ensures
        strictly_sorted(texts(r@)),
        texts(r@).to_set() == cascade(prior.sources@, before.sources@, after.sources@, texts(dirty@)),
{
    let ghost d = texts(dirty@);
    let mut out: Vec<String> = Vec::new();
    let mut j: usize = 0;
    assert(texts(out@).to_set() =~= Set::empty());
    while j < dirty.len()
        invariant
            j <= dirty@.len(),
            d == texts(dirty@),
            strictly_sorted(texts(out@)),
            texts(out@).to_set() == Set::new(
                |t: Seq<char>|
                    !d.contains(t) && exists|k: int|
                        0 <= k < j && api_of(before.sources@, #[trigger] d[k]) != api_of(after.sources@, d[k]) && (
                        dependents(prior.sources@, d[k]).contains(t) || dependents(after.sources@, d[k]).contains(t)),
            ),
        decreases dirty@.len() - j,
    {
        let src = dirty[j].as_str();
        let ghost before_set = texts(out@).to_set();
        assert(d[j as int] == src@);
        if before.api_hash_for_source(src) != after.api_hash_for_source(src) {
            let a = prior.dependents_of(src);
            let b = after.dependents_of(src);
            add_all_except(&mut out, &a, dirty);
            add_all_except(&mut out, &b, dirty);
        }
        proof {
            assert forall|t: Seq<char>| texts(out@).to_set().contains(t) == (!d.contains(t) && exists|k: int|
                0 <= k < j + 1 && api_of(before.sources@, #[trigger] d[k]) != api_of(after.sources@, d[k]) && (
                dependents(prior.sources@, d[k]).contains(t) || dependents(after.sources@, d[k]).contains(t))) by {
                assert(d.to_set().contains(t) == d.contains(t));
                if exists|k: int|
                    0 <= k < j + 1 && api_of(before.sources@, #[trigger] d[k]) != api_of(after.sources@, d[k]) && (
                    dependents(prior.sources@, d[k]).contains(t) || dependents(after.sources@, d[k]).contains(t)) {
                    let k = choose|k: int|
                        0 <= k < j + 1 && api_of(before.sources@, #[trigger] d[k]) != api_of(after.sources@, d[k]) && (
                        dependents(prior.sources@, d[k]).contains(t) || dependents(after.sources@, d[k]).contains(t));
                    if k < j {
                        if !d.contains(t) {
                            assert(before_set.contains(t));
                        }
                    }
                }
            }
            assert(texts(out@).to_set() =~= Set::new(
                |t: Seq<char>|
                    !d.contains(t) && exists|k: int|
                        0 <= k < j + 1 && api_of(before.sources@, #[trigger] d[k]) != api_of(after.sources@, d[k]) && (
                        dependents(prior.sources@, d[k]).contains(t) || dependents(after.sources@, d[k]).contains(t)),
            ));
        }
        j = j + 1;
    }
    out
}

/// The largest number of compile rounds in one invocation.
pub const MAX_ROUNDS: u32 = 100;

/// Whether round `round` (counted from 1) runs: some source is dirty and
/// the round cap is not passed.
pub fn may_start_round(round: u32, dirty: &Vec<String>) -> (r: bool)
    ensures
        r == (dirty@.len() > 0 && round <= MAX_ROUNDS),
{
    dirty.len() > 0 && round <= MAX_ROUNDS
}

/// The record a round leaves for source `p` with content hash `h`: for a
/// dirty source the one the rescan found, for another the one the state
/// held before; either with the current content hash, and an empty record
/// when there is none.
pub open spec fn merged_record(
    working: Seq<SourceRecord>,
    rescanned: Seq<SourceRecord>,
    dirty: Seq<Seq<char>>,
    p: Seq<char>,
    h: u64,
) -> SourceModel {
    let from = if dirty.contains(p) {
        record_for(rescanned, p)
    } else {
        record_for(working, p)
    };
    match from {
        Some(m) => SourceModel { content_hash: h, ..m },
        None => SourceModel { path: p, content_hash: h, api_hash: None, artifacts: Seq::empty() },
    }
}

pub proof fn lemma_record_for_path(s: Seq<SourceRecord>, k: Seq<char>)
    ensures
        record_for(s, k) matches Some(m) ==> m.path == k,
        record_for(s, k) is Some <==> exists|i: int| 0 <= i < s.len() && s[i].path@ == k,
    decreases s.len(),
{
    if s.len() > 0 {
        lemma_record_for_path(s.drop_first(), k);
        if exists|i: int| 0 <= i < s.len() && s[i].path@ == k {
            let i = choose|i: int| 0 <= i < s.len() && s[i].path@ == k;
            if i > 0 {
                assert(s.drop_first()[i - 1].path@ == k);
            }
        }
        if exists|i: int| 0 <= i < s.drop_first().len() && s.drop_first()[i].path@ == k {
            let i = choose|i: int| 0 <= i < s.drop_first().len() && s.drop_first()[i].path@ == k;
            assert(s[i + 1].path@ == k);
        }
    }
}

proof fn lemma_record_for_unique(s: Seq<SourceRecord>, i: int)
    requires
        0 <= i < s.len(),
        forall|a: int, b: int| 0 <= a < b < s.len() ==> #[trigger] s[a].path@ != #[trigger] s[b].path@,
    ensures
        record_for(s, s[i].path@) == Some(s[i].model()),
    decreases s.len(),
{
    if i > 0 {
        assert(s[0].path@ != s[i].path@);
        lemma_record_for_unique(s.drop_first(), i - 1);
    }
}

impl IncrementalState {
    /// The recorded content hashes, by path.
    pub open spec fn hashes_view(&self) -> Map<Seq<char>, u64> {
        Map::new(
            |k: Seq<char>| record_for(self.sources@, k) is Some,
            |k: Seq<char>| record_for(self.sources@, k)->Some_0.content_hash,
        )
    }

    /// The recorded content hashes.
    pub fn content_hashes(&self) -> (r: SourceHashes)
        requires
            self.wf(),
        ensures
            r.wf(),
            r@ == self.hashes_view(),
    {
        let mut r = SourceHashes::new();
        let mut i: usize = 0;
        while i < self.sources.len()
            invariant
                self.wf(),
                i <= self.sources@.len(),
                r.wf(),
                r@ == Map::new(
                    |k: Seq<char>| record_for(self.sources@.subrange(0, i as int), k) is Some,
                    |k: Seq<char>| record_for(self.sources@.subrange(0, i as int), k)->Some_0.content_hash,
                ),
            decreases self.sources@.len() - i,
        {
            let ghost pre = self.sources@.subrange(0, i as int);
            let ghost post = self.sources@.subrange(0, i + 1);
            let ghost before = r@;
            r.insert(self.sources[i].path.clone(), self.sources[i].content_hash);
            proof {
                let e = self.sources@[i as int];
                lemma_record_for_unique(post, i as int);
                assert forall|k: Seq<char>| k != e.path@ implies record_for(post, k) == record_for(pre, k) by {
                    lemma_record_for_prefix(pre, e, k);
                    assert(post =~= pre.push(e));
                }
                assert(post[i as int] == e);
                assert forall|a: int, b: int| 0 <= a < b < post.len() implies #[trigger] post[a].path@ != #[trigger] post[b].path@ by {
                    assert(post[a] == self.sources@[a]);
                    assert(post[b] == self.sources@[b]);
                }
                assert(r@ =~= Map::new(
                    |k: Seq<char>| record_for(post, k) is Some,
                    |k: Seq<char>| record_for(post, k)->Some_0.content_hash,
                ));
            }
            i = i + 1;
        }
        assert(self.sources@.subrange(0, self.sources@.len() as int) =~= self.sources@);
        r
    }
}

proof fn lemma_record_for_prefix(pre: Seq<SourceRecord>, e: SourceRecord, k: Seq<char>)
    requires
        e.path@ != k,
    ensures
        record_for(pre.push(e), k) == record_for(pre, k),
    decreases pre.len(),
{
    if pre.len() > 0 {
        assert(pre.push(e)[0] == pre[0]);
        assert(pre.push(e).drop_first() =~= pre.drop_first().push(e));
        lemma_record_for_prefix(pre.drop_first(), e, k);
    } else {
        let t = pre.push(e);
        assert(t[0] == e);
        assert(t.drop_first() =~= Seq::<SourceRecord>::empty());
        assert(record_for(t.drop_first(), k) is None);
        assert(record_for(t, k) == record_for(t.drop_first(), k));
    }
}

/// The state after a round: one record per current source, in the order
/// of `hashes` (see `merged_record`). Every source gets its current content
/// hash; a source outside `dirty` whose hash did not change keeps its record.
pub fn merge_round(
    working: &IncrementalState,
    hashes: &SourceHashes,
    dirty: &Vec<String>,
    rescanned: &IncrementalState,
    dep_hash: u64,
) -> (r: IncrementalState)
    ensures
        r.dep_hash == dep_hash,
        r.sources@.len() == hashes.entries@.len(),
        forall|i: int|
            0 <= i < hashes.entries@.len() ==> (#[trigger] r.sources@[i]).model() == merged_record(
                working.sources@,
                rescanned.sources@,
                texts(dirty@),
                hashes.entries@[i].0@,
                hashes.entries@[i].1,
            ),
        hashes.wf() ==> r.wf() && r.hashes_view() == hashes@,
        hashes.wf() ==> forall|p: Seq<char>|
            #[trigger] hashes@.contains_key(p) && !texts(dirty@).contains(p) && record_for(working.sources@, p) is Some
                && record_for(working.sources@, p)->Some_0.content_hash == hashes@[p] ==> record_for(r.sources@, p)
                == record_for(working.sources@, p),
{
    let ghost d = texts(dirty@);
    let mut out: Vec<SourceRecord> = Vec::new();
    let mut i: usize = 0;
    while i < hashes.entries.len()
        invariant
            i <= hashes.entries@.len(),
            d == texts(dirty@),
            out@.len() == i,
            forall|k: int|
                0 <= k < i ==> (#[trigger] out@[k]).model() == merged_record(
                    working.sources@,
                    rescanned.sources@,
                    d,
                    hashes.entries@[k].0@,
                    hashes.entries@[k].1,
                ),
        decreases hashes.entries@.len() - i,
    {
        let path = &hashes.entries[i].0;
        let h = hashes.entries[i].1;
        let is_dirty = contains_text(dirty, path.as_str());
        let src = if is_dirty {
            rescanned
        } else {
            working
        };
        let mut rec = match src.find(path.as_str()) {
            Some(k) => copy_record(&src.sources[k]),
            None => SourceRecord { path: path.clone(), content_hash: h, api_hash: None, artifacts: Vec::new() },
        };
        rec.content_hash = h;
        proof {
            assert(rec.model().artifacts =~= merged_record(working.sources@, rescanned.sources@, d, path@, h).artifacts);
        }
        out.push(rec);
        i = i + 1;
    }
    let r = IncrementalState { dep_hash, sources: out };
    proof {
        if hashes.wf() {
            let es = hashes.entries@;
            assert forall|a: int| 0 <= a < es.len() implies (#[trigger] r.sources@[a]).path@ == es[a].0@ && r.sources@[a].content_hash
                == es[a].1 by {
                let p = es[a].0@;
                let from = if d.contains(p) {
                    record_for(rescanned.sources@, p)
                } else {
                    record_for(working.sources@, p)
                };
                lemma_record_for_path(rescanned.sources@, p);
                lemma_record_for_path(working.sources@, p);
            }
            assert forall|a: int, b: int| 0 <= a < b < r.sources@.len() implies #[trigger] r.sources@[a].path@
                != #[trigger] r.sources@[b].path@ by {
                assert(r.sources@[a].path@ == es[a].0@);
                assert(r.sources@[b].path@ == es[b].0@);
            }
            assert forall|k: Seq<char>| #[trigger] record_for(r.sources@, k) is Some == hash_of(es, k) is Some && (
            record_for(r.sources@, k) is Some ==> record_for(r.sources@, k)->Some_0.content_hash == hash_of(es, k)->Some_0
                && record_for(r.sources@, k) == Some(r.sources@[index_of_path(r.sources@, k)].model()) && es[index_of_path(r.sources@, k)].0@ == k) by {
                lemma_record_for_path(r.sources@, k);
                lemma_index_of_path(r.sources@, k);
                lemma_hash_of_in(es, k);
                if record_for(r.sources@, k) is Some {
                    let j = index_of_path(r.sources@, k);
                    assert(r.sources@[j].path@ == k);
                    lemma_record_for_unique(r.sources@, j);
                    lemma_hash_of_unique(es, j);
                } else if hash_of(es, k) is Some {
                    let j = choose|j: int| 0 <= j < es.len() && es[j].0@ == k;
                    assert(r.sources@[j].path@ == k);
                }
            }
            assert(r.hashes_view() =~= hashes@);
            assert forall|p: Seq<char>|
                #[trigger] hashes@.contains_key(p) && !d.contains(p) && record_for(working.sources@, p) is Some
                    && record_for(working.sources@, p)->Some_0.content_hash == hashes@[p] implies record_for(r.sources@, p)
                == record_for(working.sources@, p) by {
                let j = index_of_path(r.sources@, p);
                lemma_index_of_path(r.sources@, p);
                let m = record_for(working.sources@, p)->Some_0;
                assert(r.sources@[j].model() == merged_record(working.sources@, rescanned.sources@, d, es[j].0@, es[j].1));
                lemma_hash_of_unique(es, j);
                assert(SourceModel { content_hash: es[j].1, ..m } == m);
            }
        }
    }
    r
}

proof fn lemma_index_of_path(s: Seq<SourceRecord>, k: Seq<char>)
    ensures
        record_for(s, k) is Some ==> 0 <= index_of_path(s, k) < s.len() && s[index_of_path(s, k)].path@ == k,
    decreases s.len(),
{
    if s.len() > 0 && s[0].path@ != k {
        lemma_index_of_path(s.drop_first(), k);
    }
}

/// The index of the first record of `s` with path `k`.
pub open spec fn index_of_path(s: Seq<SourceRecord>, k: Seq<char>) -> int
    decreases s.len(),
{
    if s.len() == 0 {
        0
    } else if s[0].path@ == k {
        0
    } else {
        1 + index_of_path(s.drop_first(), k)
    }
}

/// How an invocation proceeds.
pub enum BuildPlan {
    /// Nothing changed since the last build.
    NothingToCompile,
    /// Compile every source from scratch.
    FullRebuild,
    /// Compile from the differences to the last build.
    Incremental { changed: Vec<String>, added: Vec<String>, deleted: Vec<String> },
}

/// Why an invocation cannot proceed.
#[derive(Debug, Clone, Copy, PartialEq, Eq)]
pub enum BuildError {
    /// The source directory holds no source file.
    NoSources,
}

impl BuildError {
    /// A one-line description.
    pub fn message(&self) -> (r: String)
        ensures
            r@.len() > 0,
    {
        proof {
            reveal_strlit("no source files found");
        }
        String::from_str("no source files found")
    }
}

/// The kind of plan an invocation makes.
pub enum PlanKind {
    NoSources,
    FullRebuild,
    NothingToCompile,
    Incremental,
}

/// The plan for current hashes `hashes`, given the prior state's
/// dependency fingerprint and hashes, if there is a prior state: no
/// sources is an error; a missing state, another fingerprint or a missing
/// output directory ask for a full rebuild; otherwise equal hashes mean
/// nothing to do, and different ones an incremental build.
pub open spec fn plan_kind(
    prior: Option<(u64, Map<Seq<char>, u64>)>,
    dep_hash: u64,
    output_exists: bool,
    hashes: Map<Seq<char>, u64>,
) -> PlanKind {
    if hashes == Map::<Seq<char>, u64>::empty() {
        PlanKind::NoSources
    } else {
        match prior {
            None => PlanKind::FullRebuild,
            Some((d, old)) => if d != dep_hash || !output_exists {
                PlanKind::FullRebuild
            } else if old == hashes {
                PlanKind::NothingToCompile
            } else {
                PlanKind::Incremental
            },
        }
    }
}

/// The prior state's fingerprint and hashes.
pub open spec fn prior_view(prior: Option<&IncrementalState>) -> Option<(u64, Map<Seq<char>, u64>)> {
    match prior {
        Some(p) => Some((p.dep_hash, p.hashes_view())),
        None => None,
    }
}

proof fn lemma_empty_texts(v: Seq<String>)
    ensures
        texts(v).to_set() == Set::<Seq<char>>::empty() ==> v.len() == 0,
{
    if v.len() > 0 {
        assert(texts(v).to_set().contains(texts(v)[0]));
    }
}

/// Decides how an invocation proceeds (see `plan_kind`); for an
/// incremental build, gives the changed, added and deleted paths.
pub fn plan_build(
    prior: Option<&IncrementalState>,
    dep_hash: u64,
    output_exists: bool,
    hashes: &SourceHashes,
) -> (r: Result<BuildPlan, BuildError>)
    requires
        hashes.wf(),
        prior matches Some(p) ==> p.wf(),
    ensures
        match plan_kind(prior_view(prior), dep_hash, output_exists, hashes@) {
            PlanKind::NoSources => r == Err::<BuildPlan, BuildError>(BuildError::NoSources),
            PlanKind::FullRebuild => r matches Ok(BuildPlan::FullRebuild),
            PlanKind::NothingToCompile => r matches Ok(BuildPlan::NothingToCompile),
            PlanKind::Incremental => r matches Ok(BuildPlan::Incremental { .. }),
        },
        r matches Ok(BuildPlan::Incremental { changed, added, deleted }) ==> prior matches Some(p) && {
            let old = p.hashes_view();
            &&& strictly_sorted(texts(changed@))
            &&& strictly_sorted(texts(added@))
            &&& strictly_sorted(texts(deleted@))
            &&& texts(changed@).to_set() == crate::cache::changed_paths(old, hashes@)
            &&& texts(added@).to_set() == hashes@.dom().difference(old.dom())
            &&& texts(deleted@).to_set() == old.dom().difference(hashes@.dom())
        },
{
    if hashes.entries.len() == 0 {
        assert(hashes@ =~= Map::<Seq<char>, u64>::empty());
        return Err(BuildError::NoSources);
    }
    proof {
        lemma_hash_of_in(hashes.entries@, hashes.entries@[0].0@);
        assert(hashes@.contains_key(hashes.entries@[0].0@));
    }
    match prior {
        None => Ok(BuildPlan::FullRebuild),
        Some(p) => {
            if p.dep_hash != dep_hash || !output_exists {
                return Ok(BuildPlan::FullRebuild);
            }
            let old = p.content_hashes();
            let (changed, added, deleted) = diff_hashes(&old, hashes);
            if changed.len() == 0 && added.len() == 0 && deleted.len() == 0 {
                proof {
                    let a = p.hashes_view();
                    let b = hashes@;
                    assert(texts(changed@) =~= Seq::<Seq<char>>::empty());
                    assert(texts(added@) =~= Seq::<Seq<char>>::empty());
                    assert(texts(deleted@) =~= Seq::<Seq<char>>::empty());
                    assert(Seq::<Seq<char>>::empty().to_set() =~= Set::<Seq<char>>::empty());
                    assert(old@ == a);
                    assert forall|k: Seq<char>| #[trigger] a.dom().contains(k) implies b.dom().contains(k) && a[k] == b[k] by {
                        assert(!old@.dom().difference(b.dom()).contains(k));
                        assert(!crate::cache::changed_paths(old@, b).contains(k));
                    }
                    assert forall|k: Seq<char>| #[trigger] b.dom().contains(k) implies a.dom().contains(k) by {
                        assert(!b.dom().difference(old@.dom()).contains(k));
                    }
                    assert(a =~= b);
                }
                Ok(BuildPlan::NothingToCompile)
            } else {
                proof {
                    if p.hashes_view() == hashes@ {
                        assert(texts(changed@).to_set() =~= Set::empty());
                        assert(texts(added@).to_set() =~= Set::empty());
                        assert(texts(deleted@).to_set() =~= Set::empty());
                        lemma_empty_texts(changed@);
                        lemma_empty_texts(added@);
                        lemma_empty_texts(deleted@);
                    }
                }
                Ok(BuildPlan::Incremental { changed, added, deleted })
            }
        },
    }
}

/// Building again with no source change compiles nothing: once a build has
/// recorded the current hashes under the current fingerprint, the next plan
/// is `NothingToCompile`.
pub proof fn lemma_rebuild_is_noop(st: &IncrementalState, hashes: Map<Seq<char>, u64>)
    requires
        st.hashes_view() == hashes,
        hashes != Map::<Seq<char>, u64>::empty(),
    ensures
        plan_kind(prior_view(Some(st)), st.dep_hash, true, hashes) == PlanKind::NothingToCompile,
{
}

/// After `clean` no state is left, so the next build is a full rebuild,
/// planned as a first build from nothing is.
pub proof fn lemma_clean_then_build_is_full(dep_hash: u64, output_exists: bool, hashes: Map<Seq<char>, u64>)
    requires
        hashes != Map::<Seq<char>, u64>::empty(),
    ensures
        plan_kind(None, dep_hash, output_exists, hashes) == PlanKind::FullRebuild,
{
}

/// A full rebuild compiles every source, so the state it leaves depends on
/// the rescan and the current hashes alone, not on the state before it.
pub proof fn lemma_full_build_ignores_prior(
    w1: Seq<SourceRecord>,
    w2: Seq<SourceRecord>,
    rescanned: Seq<SourceRecord>,
    dirty: Seq<Seq<char>>,
    p: Seq<char>,
    h: u64,
)
    requires
        dirty.contains(p),
    ensures
        merged_record(w1, rescanned, dirty, p, h) == merged_record(w2, rescanned, dirty, p, h),
{
}

/// A source that a round does not compile, and whose content did not
/// change, keeps the record it had.
pub proof fn lemma_untouched_source_kept(
    working: Seq<SourceRecord>,
    rescanned: Seq<SourceRecord>,
    dirty: Seq<Seq<char>>,
    p: Seq<char>,
    h: u64,
)
    requires
        !dirty.contains(p),
        record_for(working, p) is Some,
        record_for(working, p)->Some_0.content_hash == h,
    ensures
        merged_record(working, rescanned, dirty, p, h) == record_for(working, p)->Some_0,
{
}

/// A source whose interface digest did not change adds nothing to the next
/// round: a source that depends on no other compiled source is not cascaded to.
pub proof fn lemma_stable_interface_no_cascade(
    prior: Seq<SourceRecord>,
    before: Seq<SourceRecord>,
    after: Seq<SourceRecord>,
    dirty: Seq<Seq<char>>,
    s: Seq<char>,
    t: Seq<char>,
)
    requires
        api_of(before, s) == api_of(after, s),
        forall|j: int|
            0 <= j < dirty.len() && #[trigger] dirty[j] != s ==> !dependents(prior, dirty[j]).contains(t)
                && !dependents(after, dirty[j]).contains(t),
    ensures
        !cascade(prior, before, after, dirty).contains(t),
{
}

/// A round cascades only through interface changes and never to its own
/// sources: the next dirty set is disjoint from the round's, and empty when
/// no source compiled in the round changed its interface digest.
pub proof fn lemma_cascade_needs_interface_change(
    prior: Seq<SourceRecord>,
    before: Seq<SourceRecord>,
    after: Seq<SourceRecord>,
    dirty: Seq<Seq<char>>,
)
    ensures
        cascade(prior, before, after, dirty).disjoint(dirty.to_set()),
        (forall|j: int| 0 <= j < dirty.len() ==> api_of(before, #[trigger] dirty[j]) == api_of(after, dirty[j]))
            ==> cascade(prior, before, after, dirty) == Set::<Seq<char>>::empty(),
{
    if forall|j: int| 0 <= j < dirty.len() ==> api_of(before, #[trigger] dirty[j]) == api_of(after, dirty[j]) {
        assert(cascade(prior, before, after, dirty) =~= Set::<Seq<char>>::empty());
    }
}

/// The first round compiles a source that did not change and was not added
/// only when it depended on a deleted source.
pub proof fn lemma_first_round_bounded(
    prior: Seq<SourceRecord>,
    changed: Seq<Seq<char>>,
    added: Seq<Seq<char>>,
    deleted: Seq<Seq<char>>,
    t: Seq<char>,
)
    requires
        !changed.contains(t),
        !added.contains(t),
        forall|j: int| 0 <= j < deleted.len() ==> !(#[trigger] dependents(prior, deleted[j])).contains(t),
    ensures
        !first_round(prior, changed, added, deleted).contains(t),
{
}

/// The files to remove for one artifact: the artifact itself, and the
/// class files of the same stem with and without a trailing `$`.
pub open spec fn stale_files(a: Seq<char>) -> Seq<Seq<char>> {
    let stem = trim_end(a, ".tasty"@);
    seq![a, stem + ".class"@, stem + "$.class"@]
}

/// The files to remove for a source's artifacts, artifact by artifact.
pub open spec fn stale_paths(arts: Seq<ArtifactModel>) -> Seq<Seq<char>>
    decreases arts.len(),
{
    if arts.len() == 0 {
        Seq::empty()
    } else {
        stale_paths(arts.drop_last()) + stale_files(arts.last().path)
    }
}

/// The prefix of the co-generated class files of an artifact: its stem's
/// file name followed by `$`.
pub open spec fn companion_prefix_of(a: Seq<char>) -> Seq<char> {
    file_name(trim_end(a, ".tasty"@)) + "$"@
}

impl IncrementalState {
    /// The files, relative to the output directory, to remove before
    /// `source` is compiled again or after it is deleted (see `stale_paths`);
    /// none when the state holds no record of it.
    pub fn stale_artifacts(&self, source: &str) -> (r: Vec<String>)
        ensures
            texts(r@) == match record_for(self.sources@, source@) {
                Some(m) => stale_paths(m.artifacts),
                None => Seq::empty(),
            },
    {
        let mut out: Vec<String> = Vec::new();
        match self.find(source) {
            None => {
                assert(texts(out@) =~= Seq::empty());
                out
            },
            Some(k) => {
                let rec = &self.sources[k];
                let ghost arts = rec.model().artifacts;
                let mut i: usize = 0;
                assert(arts.subrange(0, 0) =~= Seq::empty());
                while i < rec.artifacts.len()
                    invariant
                        arts == rec.model().artifacts,
                        i <= rec.artifacts@.len(),
                        texts(out@) == stale_paths(arts.subrange(0, i as int)),
                    decreases rec.artifacts@.len() - i,
                {
                    let a = rec.artifacts[i].path.as_str();
                    let stem = trim_end_text(a, ".tasty");
                    let ghost before = texts(out@);
                    out.push(String::from_str(a));
                    out.push(concat(stem.as_str(), ".class"));
                    out.push(concat(stem.as_str(), "$.class"));
                    proof {
                        assert(arts.subrange(0, i + 1).drop_last() =~= arts.subrange(0, i as int));
                        assert(arts[i as int].path == a@);
                        assert(texts(out@) =~= before + stale_files(a@));
                    }
                    i = i + 1;
                }
                assert(arts.subrange(0, arts.len() as int) =~= arts);
                out
            },
        }
    }
}

/// The prefix of the co-generated class files of `artifact` (see
/// `companion_prefix_of`).
pub fn companion_prefix(artifact: &str) -> (r: String)
    ensures
        r@ == companion_prefix_of(artifact@),
{
    let stem = trim_end_text(artifact, ".tasty");
    let name = file_name_of(stem.as_str());
    concat(name.as_str(), "$")
}

/// Whether a file named `name` is a class file co-generated under `prefix`.
pub fn is_companion_class(name: &str, prefix: &str) -> (r: bool)
    ensures
        r == (starts_with(name@, prefix@) && ends_with(name@, ".class"@)),
{
    has_prefix(name, prefix) && has_suffix(name, ".class")
}

} // verus!
