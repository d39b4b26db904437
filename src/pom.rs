//! POM models: properties and `${...}` interpolation, dependency entries,
//! and what a POM inherits from its parent.
use vstd::prelude::*;

use crate::coord::MavenCoord;
use crate::resolve::{find_char, find_char_from};
use crate::text::{text_eq, texts};

verus! {

/// The value recorded for key `k` in `s`: the last entry with that key.
pub open spec fn prop_of(s: Seq<(String, String)>, k: Seq<char>) -> Option<Seq<char>>
    decreases s.len(),
{
    if s.len() == 0 {
        None
    } else if s.last().0@ == k {
        Some(s.last().1@)
    } else {
        prop_of(s.drop_last(), k)
    }
}

/// Named text values of a POM.
pub struct Properties {
    pub entries: Vec<(String, String)>,
}

/// The map that entries `s` give, later entries winning.
pub open spec fn props_map(s: Seq<(String, String)>) -> Map<Seq<char>, Seq<char>> {
    Map::new(|k: Seq<char>| prop_of(s, k) is Some, |k: Seq<char>| prop_of(s, k)->Some_0)
}

impl Properties {
    /// The properties as a map.
    pub open spec fn view(&self) -> Map<Seq<char>, Seq<char>> {
        props_map(self.entries@)
    }

    /// No properties.
    pub fn new() -> (r: Properties)
        ensures
            r@ == Map::<Seq<char>, Seq<char>>::empty(),
    {
        let r = Properties { entries: Vec::new() };
        assert(r@ =~= Map::<Seq<char>, Seq<char>>::empty());
        r
    }

    /// The value of `key`.
    pub fn get(&self, key: &str) -> (r: Option<&String>)
        ensures
            match prop_of(self.entries@, key@) {
                Some(v) => r matches Some(x) && x@ == v,
                None => r is None,
            },
    {
        let mut i = self.entries.len();
        assert(self.entries@.subrange(0, i as int) =~= self.entries@);
        while i > 0
            invariant
                i <= self.entries@.len(),
                prop_of(self.entries@, key@) == prop_of(self.entries@.subrange(0, i as int), key@),
            decreases i,
        {
            let ghost sub = self.entries@.subrange(0, i as int);
            assert(sub.drop_last() =~= self.entries@.subrange(0, i - 1));
            if text_eq(self.entries[i - 1].0.as_str(), key) {
                return Some(&self.entries[i - 1].1);
            }
            i = i - 1;
        }
        None
    }

    /// Sets `key` to `value`.
    pub fn insert(&mut self, key: String, value: String)
        ensures
            final(self)@ == old(self)@.insert(key@, value@),
    {
        let ghost k = key@;
        let ghost v = value@;
        self.entries.push((key, value));
        proof {
            assert(self.entries@.drop_last() =~= old(self).entries@);
            assert(props_map(self.entries@) =~= props_map(old(self).entries@).insert(k, v));
        }
    }
}

/// The first `${` in `s` at or after `from`.
pub open spec fn find_open(s: Seq<char>, from: int) -> Option<int>
    decreases s.len() - from,
{
    if from < 0 || from + 1 >= s.len() {
        None
    } else if s[from] == '$' && s[from + 1] == '{' {
        Some(from)
    } else {
        find_open(s, from + 1)
    }
}

proof fn lemma_find_open(s: Seq<char>, from: int)
    ensures
        find_open(s, from) matches Some(i) ==> from <= i && i + 1 < s.len(),
    decreases s.len() - from,
{
    if 0 <= from && from + 1 < s.len() && !(s[from] == '$' && s[from + 1] == '{') {
        lemma_find_open(s, from + 1);
    }
}

proof fn lemma_find_char_range(s: Seq<char>, c: char, from: int)
    ensures
        find_char(s, c, from) matches Some(i) ==> from <= i < s.len(),
    decreases s.len() - from,
{
    if 0 <= from < s.len() && s[from] != c {
        lemma_find_char_range(s, c, from + 1);
    }
}

/// One substitution pass over `s` from offset `from`: each `${key}` whose
/// key is a property becomes its value; an unknown placeholder, and the
/// text from a `${` that no `}` closes, stay as they are.
pub open spec fn pass_from(s: Seq<char>, from: int, props: Map<Seq<char>, Seq<char>>) -> Seq<char>
    decreases s.len() - from,
{
    if from < 0 || from > s.len() {
        Seq::empty()
    } else {
        match find_open(s, from) {
            None => s.subrange(from, s.len() as int),
            Some(st) => match find_char(s, '}', st + 2) {
                None => s.subrange(from, s.len() as int),
                Some(e) => {
                    let key = s.subrange(st + 2, e);
                    let shown = if props.contains_key(key) {
                        props[key]
                    } else {
                        s.subrange(st, e + 1)
                    };
                    if from < e + 1 && e + 1 <= s.len() {
                        s.subrange(from, st) + shown + pass_from(s, e + 1, props)
                    } else {
                        // not reached: the closing brace follows the opening
                        Seq::empty()
                    }
                },
            },
        }
    }
}

/// Up to `n` substitution passes, stopping early when a pass changes nothing.
pub open spec fn interpolated(s: Seq<char>, props: Map<Seq<char>, Seq<char>>, n: nat) -> Seq<char>
    decreases n,
{
    if n == 0 {
        s
    } else {
        let t = pass_from(s, 0, props);
        if t == s {
            s
        } else {
            interpolated(t, props, (n - 1) as nat)
        }
    }
}

fn find_open_from(s: &str, from: usize) -> (r: Option<usize>)
    ensures
        r matches Some(i) ==> find_open(s@, from as int) == Some(i as int),
        r is None ==> find_open(s@, from as int) is None,
{
    let n = s.unicode_len();
    let mut i = from;
    while n > 0 && i < n - 1
        invariant
            n == s@.len(),
            from <= i,
            find_open(s@, from as int) == find_open(s@, i as int),
        decreases n - i,
    {
        if s.get_char(i) == '$' && s.get_char(i + 1) == '{' {
            return Some(i);
        }
        i = i + 1;
    }
    None
}

fn one_pass(s: &str, props: &Properties) -> (r: String)
    ensures
        r@ == pass_from(s@, 0, props@),
{
    let n = s.unicode_len();
    let mut out = String::new();
    let mut pos: usize = 0;
    loop
        invariant
            n == s@.len(),
            pos <= n,
            out@ + pass_from(s@, pos as int, props@) == pass_from(s@, 0, props@),
        decreases n - pos,
    {
        proof {
            lemma_find_open(s@, pos as int);
        }
        let st = match find_open_from(s, pos) {
            Some(st) => st,
            None => {
                out.append(s.substring_char(pos, n));
                assert(out@ =~= pass_from(s@, 0, props@));
                return out;
            },
        };
        proof {
            lemma_find_char_range(s@, '}', st + 2);
        }
        let e = match find_char_from(s, '}', st + 2) {
            Some(e) => e,
            None => {
                out.append(s.substring_char(pos, n));
                assert(out@ =~= pass_from(s@, 0, props@));
                return out;
            },
        };
        let ghost before = out@;
        out.append(s.substring_char(pos, st));
        let key = s.substring_char(st + 2, e);
        match props.get(key) {
            Some(v) => {
                out.append(v.as_str());
            },
            None => {
                out.append(s.substring_char(st, e + 1));
            },
        }
        proof {
            assert(props@.contains_key(key@) == (prop_of(props.entries@, key@) is Some));
            assert(before + pass_from(s@, pos as int, props@) =~= out@ + pass_from(s@, e + 1, props@));
        }
        pos = e + 1;
    }
}

/// Replaces `${key}` placeholders with property values, pass after pass,
/// until a pass changes nothing or ten passes are done (see `interpolated`).
pub fn interpolate(s: &str, props: &Properties) -> (r: String)
    ensures
        r@ == interpolated(s@, props@, 10),
{
    let mut result = String::from_str(s);
    let mut n: usize = 0;
    while n < 10
        invariant
            n <= 10,
            interpolated(s@, props@, 10) == interpolated(result@, props@, (10 - n) as nat),
        decreases 10 - n,
    {
        let t = one_pass(result.as_str(), props);
        if text_eq(t.as_str(), result.as_str()) {
            return result;
        }
        result = t;
        n = n + 1;
    }
    result
}

/// A dependency declared by a POM.
pub struct PomDep {
    pub group_id: String,
    pub artifact_id: String,
    pub version: Option<String>,
    pub scope: String,
    pub optional: bool,
    pub dep_type: String,
    /// Excluded (group, artifact) pairs.
    pub exclusions: Vec<(String, String)>,
}

/// A dependencyManagement entry of a POM.
pub struct ManagedDep {
    pub group_id: String,
    pub artifact_id: String,
    pub version: String,
    pub scope: Option<String>,
    pub dep_type: String,
    /// Excluded (group, artifact) pairs.
    pub exclusions: Vec<(String, String)>,
}

/// A parsed POM.
pub struct Pom {
    pub parent: Option<MavenCoord>,
    pub group_id: Option<String>,
    pub artifact_id: Option<String>,
    pub version: Option<String>,
    pub packaging: String,
    pub properties: Properties,
    pub dependency_management: Vec<ManagedDep>,
    pub dependencies: Vec<PomDep>,
}

/// An optional text as a mathematical value.
pub open spec fn opt_text(o: Option<String>) -> Option<Seq<char>> {
    match o {
        Some(s) => Some(s@),
        None => None,
    }
}

/// A managed dependency as mathematical values.
pub struct ManagedModel {
    pub group_id: Seq<char>,
    pub artifact_id: Seq<char>,
    pub version: Seq<char>,
    pub scope: Option<Seq<char>>,
    pub dep_type: Seq<char>,
    pub exclusions: Seq<(Seq<char>, Seq<char>)>,
}

/// A declared dependency as mathematical values.
pub struct DepModel {
    pub group_id: Seq<char>,
    pub artifact_id: Seq<char>,
    pub version: Option<Seq<char>>,
    pub scope: Seq<char>,
    pub optional: bool,
    pub dep_type: Seq<char>,
    pub exclusions: Seq<(Seq<char>, Seq<char>)>,
}

/// Pairs of texts as mathematical values.
pub open spec fn pairs(v: Seq<(String, String)>) -> Seq<(Seq<char>, Seq<char>)> {
    v.map_values(|p: (String, String)| (p.0@, p.1@))
}

impl ManagedDep {
    pub open spec fn model(&self) -> ManagedModel {
        ManagedModel {
            group_id: self.group_id@,
            artifact_id: self.artifact_id@,
            version: self.version@,
            scope: opt_text(self.scope),
            dep_type: self.dep_type@,
            exclusions: pairs(self.exclusions@),
        }
    }
}

impl PomDep {
    pub open spec fn model(&self) -> DepModel {
        DepModel {
            group_id: self.group_id@,
            artifact_id: self.artifact_id@,
            version: opt_text(self.version),
            scope: self.scope@,
            optional: self.optional,
            dep_type: self.dep_type@,
            exclusions: pairs(self.exclusions@),
        }
    }
}

/// The managed entries as mathematical values.
pub open spec fn managed_models(v: Seq<ManagedDep>) -> Seq<ManagedModel> {
    v.map_values(|m: ManagedDep| m.model())
}

/// The declared dependencies as mathematical values.
pub open spec fn dep_models(v: Seq<PomDep>) -> Seq<DepModel> {
    v.map_values(|d: PomDep| d.model())
}

/// Whether `v` manages the artifact `(g, a)`.
pub open spec fn manages(v: Seq<ManagedModel>, g: Seq<char>, a: Seq<char>) -> bool {
    exists|i: int| 0 <= i < v.len() && #[trigger] v[i].group_id == g && v[i].artifact_id == a
}

/// The entries of `parent` for artifacts that `child` does not manage, in order.
pub open spec fn inherited(child: Seq<ManagedModel>, parent: Seq<ManagedModel>) -> Seq<ManagedModel> {
    parent.filter(|m: ManagedModel| !manages(child, m.group_id, m.artifact_id))
}

fn copy_text_opt(o: &Option<String>) -> (r: Option<String>)
    ensures
        opt_text(r) == opt_text(*o),
{
    match o {
        Some(s) => Some(s.clone()),
        None => None,
    }
}

fn copy_pairs(v: &Vec<(String, String)>) -> (r: Vec<(String, String)>)
    ensures
        pairs(r@) == pairs(v@),
{
    let mut out: Vec<(String, String)> = Vec::new();
    let mut i: usize = 0;
    while i < v.len()
        invariant
            i <= v@.len(),
            out@.len() == i,
            forall|k: int| 0 <= k < i ==> (#[trigger] out@[k]).0@ == v@[k].0@ && out@[k].1@ == v@[k].1@,
        decreases v@.len() - i,
    {
        out.push((v[i].0.clone(), v[i].1.clone()));
        i = i + 1;
    }
    assert(pairs(out@) =~= pairs(v@));
    out
}

fn copy_managed(m: &ManagedDep) -> (r: ManagedDep)
    ensures
        r.model() == m.model(),
{
    ManagedDep {
        group_id: m.group_id.clone(),
        artifact_id: m.artifact_id.clone(),
        version: m.version.clone(),
        scope: copy_text_opt(&m.scope),
        dep_type: m.dep_type.clone(),
        exclusions: copy_pairs(&m.exclusions),
    }
}

fn manages_exec(v: &Vec<ManagedDep>, g: &str, a: &str) -> (r: bool)
    ensures
        r == manages(managed_models(v@), g@, a@),
{
    let ghost ms = managed_models(v@);
    let mut i: usize = 0;
    while i < v.len()
        invariant
            ms == managed_models(v@),
            i <= v@.len(),
            forall|k: int| 0 <= k < i ==> !(#[trigger] ms[k].group_id == g@ && ms[k].artifact_id == a@),
        decreases v@.len() - i,
    {
        if text_eq(v[i].group_id.as_str(), g) && text_eq(v[i].artifact_id.as_str(), a) {
            assert(ms[i as int].group_id == g@ && ms[i as int].artifact_id == a@);
            return true;
        }
        i = i + 1;
    }
    false
}

proof fn lemma_prop_of_prepend(s: Seq<(String, String)>, i: int, k: Seq<char>)
    requires
        0 < i <= s.len(),
    ensures
        prop_of(s.subrange(i - 1, s.len() as int), k) == match prop_of(s.subrange(i, s.len() as int), k) {
            Some(v) => Some(v),
            None => if s[i - 1].0@ == k {
                Some(s[i - 1].1@)
            } else {
                None
            },
        },
    decreases s.len() - i,
{
    let a = s.subrange(i - 1, s.len() as int);
    let b = s.subrange(i, s.len() as int);
    if i == s.len() {
        assert(a.last() == s[i - 1]);
        assert(a.drop_last() =~= Seq::<(String, String)>::empty());
        assert(prop_of(a.drop_last(), k) is None);
        assert(b =~= Seq::<(String, String)>::empty());
    } else {
        assert(a.last() == b.last());
        if b.last().0@ != k {
            lemma_prop_of_prepend(s.drop_last(), i, k);
            assert(a.drop_last() =~= s.drop_last().subrange(i - 1, s.len() - 1));
            assert(b.drop_last() =~= s.drop_last().subrange(i, s.len() - 1));
        }
    }
}

/// Adds to `child` each property of `parent` that it does not set.
fn merge_properties(child: &mut Properties, parent: &Properties)
    ensures
        final(child)@ == parent@.union_prefer_right(old(child)@),
{
    let ghost own = child@;
    let pe = &parent.entries;
    let mut i = pe.len();
    proof {
        assert(pe@.subrange(pe@.len() as int, pe@.len() as int) =~= Seq::<(String, String)>::empty());
        assert(props_map(Seq::<(String, String)>::empty()) =~= Map::<Seq<char>, Seq<char>>::empty());
        assert(Map::<Seq<char>, Seq<char>>::empty().union_prefer_right(own) =~= own);
    }
    while i > 0
        invariant
            i <= pe@.len(),
            pe == &parent.entries,
            child@ == props_map(pe@.subrange(i as int, pe@.len() as int)).union_prefer_right(own),
        decreases i,
    {
        let ghost before = child@;
        let ghost mi = props_map(pe@.subrange(i as int, pe@.len() as int));
        let ghost mi1 = props_map(pe@.subrange(i - 1, pe@.len() as int));
        let k = &pe[i - 1].0;
        let absent = child.get(k.as_str()).is_none();
        if absent {
            child.insert(k.clone(), pe[i - 1].1.clone());
        }
        proof {
            let k0 = pe@[i - 1].0@;
            let v0 = pe@[i - 1].1@;
            assert(absent == !before.contains_key(k0));
            let goal = mi1.union_prefer_right(own);
            assert forall|key: Seq<char>| #[trigger] child@.contains_key(key) == goal.contains_key(key) && (
            child@.contains_key(key) ==> child@[key] == goal[key]) by {
                lemma_prop_of_prepend(pe@, i as int, key);
            }
            assert(child@ =~= goal);
        }
        i = i - 1;
    }
    assert(pe@.subrange(0, pe@.len() as int) =~= pe@);
}

/// Appends to `dst` a copy of each entry of `src`.
fn append_managed(dst: &mut Vec<ManagedDep>, src: &Vec<ManagedDep>)
    ensures
        managed_models(final(dst)@) == managed_models(old(dst)@) + managed_models(src@),
{
    let ghost base = managed_models(dst@);
    let n0 = dst.len();
    let mut k: usize = 0;
    while k < src.len()
        invariant
            k <= src@.len(),
            n0 == base.len(),
            dst@.len() == n0 + k,
            forall|x: int| 0 <= x < n0 ==> (#[trigger] dst@[x]).model() == base[x],
            forall|x: int| 0 <= x < k ==> (#[trigger] dst@[n0 + x]).model() == src@[x].model(),
        decreases src@.len() - k,
    {
        dst.push(copy_managed(&src[k]));
        k = k + 1;
    }
    proof {
        assert forall|x: int| 0 <= x < dst@.len() implies #[trigger] managed_models(dst@)[x] == (base + managed_models(src@))[x] by {
            if x >= n0 {
                assert(dst@[n0 + (x - n0)].model() == src@[x - n0].model());
            }
        }
        assert(managed_models(dst@) =~= base + managed_models(src@));
    }
}

/// The managed entries of `parent` for artifacts that `own` does not manage.
fn inherited_managed(own: &Vec<ManagedDep>, parent: &Vec<ManagedDep>) -> (r: Vec<ManagedDep>)
    ensures
        managed_models(r@) == inherited(managed_models(own@), managed_models(parent@)),
{
    let ghost om = managed_models(own@);
    let mut added: Vec<ManagedDep> = Vec::new();
    let mut j: usize = 0;
    while j < parent.len()
        invariant
            j <= parent@.len(),
            om == managed_models(own@),
            managed_models(added@) == inherited(om, managed_models(parent@.subrange(0, j as int))),
        decreases parent@.len() - j,
    {
        let md = &parent[j];
        let keep = !manages_exec(own, md.group_id.as_str(), md.artifact_id.as_str());
        let ghost before = added@;
        if keep {
            let c = copy_managed(md);
            added.push(c);
            proof {
                assert(managed_models(added@) =~= managed_models(before).push(md.model()));
            }
        }
        proof {
            let pm = managed_models(parent@.subrange(0, j + 1));
            assert(pm =~= managed_models(parent@.subrange(0, j as int)).push(md.model()));
            reveal(Seq::filter);
            assert(pm.drop_last() =~= managed_models(parent@.subrange(0, j as int)));
            assert(managed_models(added@) =~= inherited(om, pm));
        }
        j = j + 1;
    }
    assert(parent@.subrange(0, parent@.len() as int) =~= parent@);
    added
}

/// Fills in what `child` inherits from `parent`: its group and version
/// when absent, the parent's properties that it does not set, and the
/// parent's managed dependencies for artifacts it does not manage.
pub fn merge_parent(child: &mut Pom, parent: &Pom)
    ensures
        opt_text(final(child).group_id) == if old(child).group_id is Some {
            opt_text(old(child).group_id)
        } else {
            opt_text(parent.group_id)
        },
        opt_text(final(child).version) == if old(child).version is Some {
            opt_text(old(child).version)
        } else {
            opt_text(parent.version)
        },
        final(child).properties@ == parent.properties@.union_prefer_right(old(child).properties@),
        managed_models(final(child).dependency_management@) == managed_models(old(child).dependency_management@)
            + inherited(managed_models(old(child).dependency_management@), managed_models(parent.dependency_management@)),
        final(child).artifact_id == old(child).artifact_id,
        final(child).packaging == old(child).packaging,
        final(child).parent == old(child).parent,
        final(child).dependencies == old(child).dependencies,
{
    if child.group_id.is_none() {
        child.group_id = copy_text_opt(&parent.group_id);
    }
    if child.version.is_none() {
        child.version = copy_text_opt(&parent.version);
    }
    merge_properties(&mut child.properties, &parent.properties);
    let added = inherited_managed(&child.dependency_management, &parent.dependency_management);
    append_managed(&mut child.dependency_management, &added);
}

/// An optional text with its placeholders replaced.
pub open spec fn interpolated_opt(o: Option<Seq<char>>, props: Map<Seq<char>, Seq<char>>) -> Option<Seq<char>> {
    match o {
        Some(t) => Some(interpolated(t, props, 10)),
        None => None,
    }
}

/// A managed entry with its coordinates interpolated.
pub open spec fn interpolated_managed(m: ManagedModel, props: Map<Seq<char>, Seq<char>>) -> ManagedModel {
    ManagedModel {
        group_id: interpolated(m.group_id, props, 10),
        artifact_id: interpolated(m.artifact_id, props, 10),
        version: interpolated(m.version, props, 10),
        ..m
    }
}

/// A declared dependency with its coordinates and scope interpolated.
pub open spec fn interpolated_dep(d: DepModel, props: Map<Seq<char>, Seq<char>>) -> DepModel {
    DepModel {
        group_id: interpolated(d.group_id, props, 10),
        artifact_id: interpolated(d.artifact_id, props, 10),
        version: interpolated_opt(d.version, props),
        scope: interpolated(d.scope, props, 10),
        ..d
    }
}

fn interpolate_opt(o: &Option<String>, props: &Properties) -> (r: Option<String>)
    ensures
        opt_text(r) == interpolated_opt(opt_text(*o), props@),
{
    match o {
        Some(t) => Some(interpolate(t.as_str(), props)),
        None => None,
    }
}

/// Interpolates the group, version, managed dependencies and declared
/// dependencies of `pom` with `props`.
pub fn interpolate_pom(pom: &mut Pom, props: &Properties)
    ensures
        opt_text(final(pom).group_id) == interpolated_opt(opt_text(old(pom).group_id), props@),
        opt_text(final(pom).version) == interpolated_opt(opt_text(old(pom).version), props@),
        managed_models(final(pom).dependency_management@) == managed_models(old(pom).dependency_management@).map_values(
            |m: ManagedModel| interpolated_managed(m, props@),
        ),
        dep_models(final(pom).dependencies@) == dep_models(old(pom).dependencies@).map_values(
            |d: DepModel| interpolated_dep(d, props@),
        ),
        final(pom).artifact_id == old(pom).artifact_id,
        final(pom).packaging == old(pom).packaging,
        final(pom).parent == old(pom).parent,
{
    pom.group_id = interpolate_opt(&pom.group_id, props);
    pom.version = interpolate_opt(&pom.version, props);
    let mut dm: Vec<ManagedDep> = Vec::new();
    let mut i: usize = 0;
    while i < pom.dependency_management.len()
        invariant
            i <= pom.dependency_management@.len(),
            pom.dependency_management@ == old(pom).dependency_management@,
            dm@.len() == i,
            forall|x: int| 0 <= x < i ==> (#[trigger] dm@[x]).model() == interpolated_managed(
                pom.dependency_management@[x].model(),
                props@,
            ),
        decreases pom.dependency_management@.len() - i,
    {
        let m = &pom.dependency_management[i];
        let c = ManagedDep {
            group_id: interpolate(m.group_id.as_str(), props),
            artifact_id: interpolate(m.artifact_id.as_str(), props),
            version: interpolate(m.version.as_str(), props),
            scope: copy_text_opt(&m.scope),
            dep_type: m.dep_type.clone(),
            exclusions: copy_pairs(&m.exclusions),
        };
        dm.push(c);
        i = i + 1;
    }
    let mut deps: Vec<PomDep> = Vec::new();
    let mut j: usize = 0;
    while j < pom.dependencies.len()
        invariant
            j <= pom.dependencies@.len(),
            pom.dependencies@ == old(pom).dependencies@,
            deps@.len() == j,
            forall|x: int| 0 <= x < j ==> (#[trigger] deps@[x]).model() == interpolated_dep(
                pom.dependencies@[x].model(),
                props@,
            ),
        decreases pom.dependencies@.len() - j,
    {
        let d = &pom.dependencies[j];
        let c = PomDep {
            group_id: interpolate(d.group_id.as_str(), props),
            artifact_id: interpolate(d.artifact_id.as_str(), props),
            version: interpolate_opt(&d.version, props),
            scope: interpolate(d.scope.as_str(), props),
            optional: d.optional,
            dep_type: d.dep_type.clone(),
            exclusions: copy_pairs(&d.exclusions),
        };
        deps.push(c);
        j = j + 1;
    }
    proof {
        assert(managed_models(dm@) =~= managed_models(old(pom).dependency_management@).map_values(
            |m: ManagedModel| interpolated_managed(m, props@),
        ));
        assert(dep_models(deps@) =~= dep_models(old(pom).dependencies@).map_values(
            |d: DepModel| interpolated_dep(d, props@),
        ));
    }
    pom.dependency_management = dm;
    pom.dependencies = deps;
}

/// The properties of a POM with the built-in `project.*` and `pom.*`
/// names for its group, version and artifact, where those are known.
pub open spec fn with_builtins(p: Map<Seq<char>, Seq<char>>, g: Option<Seq<char>>, v: Option<Seq<char>>, a: Option<Seq<char>>) -> Map<
    Seq<char>,
    Seq<char>,
> {
    let p1 = match g {
        Some(x) => p.insert("project.groupId"@, x).insert("pom.groupId"@, x),
        None => p,
    };
    let p2 = match v {
        Some(x) => p1.insert("project.version"@, x).insert("pom.version"@, x),
        None => p1,
    };
    match a {
        Some(x) => p2.insert("project.artifactId"@, x),
        None => p2,
    }
}

/// Adds the built-in properties (see `with_builtins`) to `pom`.
pub fn add_builtin_properties(pom: &mut Pom)
    ensures
        final(pom).properties@ == with_builtins(
            old(pom).properties@,
            opt_text(old(pom).group_id),
            opt_text(old(pom).version),
            opt_text(old(pom).artifact_id),
        ),
        final(pom).group_id == old(pom).group_id,
        final(pom).version == old(pom).version,
        final(pom).artifact_id == old(pom).artifact_id,
        final(pom).dependency_management == old(pom).dependency_management,
        final(pom).dependencies == old(pom).dependencies,
        final(pom).packaging == old(pom).packaging,
        final(pom).parent == old(pom).parent,
{
    match &pom.group_id {
        Some(g) => {
            pom.properties.insert(String::from_str("project.groupId"), g.clone());
            pom.properties.insert(String::from_str("pom.groupId"), g.clone());
        },
        None => {},
    }
    match &pom.version {
        Some(v) => {
            pom.properties.insert(String::from_str("project.version"), v.clone());
            pom.properties.insert(String::from_str("pom.version"), v.clone());
        },
        None => {},
    }
    match &pom.artifact_id {
        Some(a) => {
            pom.properties.insert(String::from_str("project.artifactId"), a.clone());
        },
        None => {},
    }
}

/// A coordinate waiting in the resolver's queue.
pub struct QueueEntry {
    pub coord: MavenCoord,
    /// Distance from a root coordinate.
    pub depth: u32,
    /// (group, artifact) pairs excluded below this entry; an artifact `*`
    /// excludes the whole group.
    pub exclusions: Vec<(String, String)>,
}

/// The first managed entry for `(g, a)`.
pub open spec fn managed_for(dm: Seq<ManagedModel>, g: Seq<char>, a: Seq<char>) -> Option<ManagedModel>
    decreases dm.len(),
{
    if dm.len() == 0 {
        None
    } else if dm[0].group_id == g && dm[0].artifact_id == a {
        Some(dm[0])
    } else {
        managed_for(dm.drop_first(), g, a)
    }
}

/// Whether a declared dependency is left out below an entry: a test,
/// provided or system scope, an optional one, an excluded one, or one
/// already resolved.
pub open spec fn left_out(
    d: DepModel,
    excl: Seq<(Seq<char>, Seq<char>)>,
    resolved: Seq<(Seq<char>, Seq<char>)>,
) -> bool {
    d.scope == "test"@ || d.scope == "provided"@ || d.scope == "system"@ || d.optional || excl.contains(
        (d.group_id, d.artifact_id),
    ) || excl.contains((d.group_id, "*"@)) || resolved.contains((d.group_id, d.artifact_id))
}

/// The version a dependency resolves to: its own when not empty, else the
/// managed one; `None` when there is none or it is a range.
pub open spec fn chosen_version(d: DepModel, dm: Seq<ManagedModel>) -> Option<Seq<char>> {
    let own = match d.version {
        Some(v) => if v.len() > 0 {
            Some(v)
        } else {
            None
        },
        None => None,
    };
    let v = match own {
        Some(v) => Some(v),
        None => match managed_for(dm, d.group_id, d.artifact_id) {
            Some(m) => Some(m.version),
            None => None,
        },
    };
    match v {
        Some(x) => if x.len() > 0 && (x[0] == '[' || x[0] == '(') {
            None
        } else {
            Some(x)
        },
        None => None,
    }
}

/// A queue entry as mathematical values.
pub struct EntryModel {
    pub group_id: Seq<char>,
    pub artifact_id: Seq<char>,
    pub version: Seq<char>,
    pub depth: int,
    pub exclusions: Seq<(Seq<char>, Seq<char>)>,
}

impl QueueEntry {
    pub open spec fn model(&self) -> EntryModel {
        EntryModel {
            group_id: self.coord.group_id@,
            artifact_id: self.coord.artifact_id@,
            version: self.coord.version@,
            depth: self.depth as int,
            exclusions: pairs(self.exclusions@),
        }
    }
}

/// The exclusions below a dependency: the entry's, the dependency's own,
/// and those of its managed entry.
pub open spec fn child_exclusions(
    excl: Seq<(Seq<char>, Seq<char>)>,
    d: DepModel,
    dm: Seq<ManagedModel>,
) -> Seq<(Seq<char>, Seq<char>)> {
    excl + d.exclusions + match managed_for(dm, d.group_id, d.artifact_id) {
        Some(m) => m.exclusions,
        None => Seq::empty(),
    }
}

/// The entries that the declared dependencies `deps` of an entry at
/// `depth` with exclusions `excl` add to the queue, in order.
pub open spec fn children_of(
    depth: int,
    excl: Seq<(Seq<char>, Seq<char>)>,
    deps: Seq<DepModel>,
    dm: Seq<ManagedModel>,
    resolved: Seq<(Seq<char>, Seq<char>)>,
) -> Seq<EntryModel>
    decreases deps.len(),
{
    if deps.len() == 0 {
        Seq::empty()
    } else {
        let d = deps.last();
        children_of(depth, excl, deps.drop_last(), dm, resolved) + if left_out(d, excl, resolved) {
            Seq::empty()
        } else {
            match chosen_version(d, dm) {
                Some(v) => seq![
                    EntryModel {
                        group_id: d.group_id,
                        artifact_id: d.artifact_id,
                        version: v,
                        depth: depth + 1,
                        exclusions: child_exclusions(excl, d, dm),
                    },
                ],
                None => Seq::empty(),
            }
        }
    }
}

fn contains_pair(v: &Vec<(String, String)>, g: &str, a: &str) -> (r: bool)
    ensures
        r == pairs(v@).contains((g@, a@)),
{
    let mut i: usize = 0;
    while i < v.len()
        invariant
            i <= v@.len(),
            forall|k: int| 0 <= k < i ==> #[trigger] pairs(v@)[k] != (g@, a@),
        decreases v@.len() - i,
    {
        if text_eq(v[i].0.as_str(), g) && text_eq(v[i].1.as_str(), a) {
            assert(pairs(v@)[i as int] == (g@, a@));
            return true;
        }
        i = i + 1;
    }
    false
}

fn find_managed(dm: &Vec<ManagedDep>, g: &str, a: &str) -> (r: Option<usize>)
    ensures
        match managed_for(managed_models(dm@), g@, a@) {
            Some(m) => r matches Some(i) && i < dm@.len() && dm@[i as int].model() == m,
            None => r is None,
        },
{
    let ghost ms = managed_models(dm@);
    let mut i: usize = 0;
    assert(ms.subrange(0, ms.len() as int) =~= ms);
    while i < dm.len()
        invariant
            ms == managed_models(dm@),
            i <= dm@.len(),
            managed_for(ms, g@, a@) == managed_for(ms.subrange(i as int, ms.len() as int), g@, a@),
        decreases dm@.len() - i,
    {
        let ghost rest = ms.subrange(i as int, ms.len() as int);
        assert(rest.drop_first() =~= ms.subrange(i + 1, ms.len() as int));
        if text_eq(dm[i].group_id.as_str(), g) && text_eq(dm[i].artifact_id.as_str(), a) {
            return Some(i);
        }
        i = i + 1;
    }
    None
}

fn append_pairs(dst: &mut Vec<(String, String)>, src: &Vec<(String, String)>)
    ensures
        pairs(final(dst)@) == pairs(old(dst)@) + pairs(src@),
{
    let ghost base = pairs(dst@);
    let n0 = dst.len();
    let mut k: usize = 0;
    while k < src.len()
        invariant
            k <= src@.len(),
            n0 == base.len(),
            dst@.len() == n0 + k,
            forall|x: int| 0 <= x < n0 ==> #[trigger] pairs(dst@)[x] == base[x],
            forall|x: int| 0 <= x < k ==> #[trigger] pairs(dst@)[n0 + x] == pairs(src@)[x],
        decreases src@.len() - k,
    {
        let ghost before = dst@;
        dst.push((src[k].0.clone(), src[k].1.clone()));
        proof {
            assert forall|x: int| 0 <= x < n0 implies #[trigger] pairs(dst@)[x] == base[x] by {
                assert(pairs(dst@)[x] == pairs(before)[x]);
            }
            assert forall|x: int| 0 <= x < k + 1 implies #[trigger] pairs(dst@)[n0 + x] == pairs(src@)[x] by {
                if x < k {
                    assert(pairs(dst@)[n0 + x] == pairs(before)[n0 + x]);
                }
            }
        }
        k = k + 1;
    }
    proof {
        assert forall|x: int| 0 <= x < dst@.len() implies #[trigger] pairs(dst@)[x] == (base + pairs(src@))[x] by {
            if x >= n0 {
                assert(pairs(dst@)[n0 + (x - n0)] == pairs(src@)[x - n0]);
            }
        }
        assert(pairs(dst@) =~= base + pairs(src@));
    }
}

fn chosen_version_exec(d: &PomDep, dm: &Vec<ManagedDep>) -> (r: Option<String>)
    ensures
        opt_text(r) == chosen_version(d.model(), managed_models(dm@)),
{
    let own: Option<String> = match &d.version {
        Some(v) => if v.unicode_len() > 0 {
            Some(v.clone())
        } else {
            None
        },
        None => None,
    };
    let v: Option<String> = match own {
        Some(v) => Some(v),
        None => match find_managed(dm, d.group_id.as_str(), d.artifact_id.as_str()) {
            Some(i) => Some(dm[i].version.clone()),
            None => None,
        },
    };
    match v {
        Some(x) => {
            let n = x.unicode_len();
            if n > 0 && (x.get_char(0) == '[' || x.get_char(0) == '(') {
                None
            } else {
                Some(x)
            }
        },
        None => None,
    }
}

/// The queue entries that the declared dependencies of `effective` add
/// below `entry` (see `children_of`); `resolved` holds the (group,
/// artifact) pairs already resolved, `dep_mgmt` the managed versions.
pub fn dependency_children(
    entry: &QueueEntry,
    effective: &Pom,
    dep_mgmt: &Vec<ManagedDep>,
    resolved: &Vec<(String, String)>,
) -> (r: Vec<QueueEntry>)
    requires
        entry.depth < u32::MAX,
    ensures
        r@.map_values(|e: QueueEntry| e.model()) == children_of(
            entry.depth as int,
            pairs(entry.exclusions@),
            dep_models(effective.dependencies@),
            managed_models(dep_mgmt@),
            pairs(resolved@),
        ),
{
    let deps = &effective.dependencies;
    let ghost excl = pairs(entry.exclusions@);
    let ghost dm = managed_models(dep_mgmt@);
    let ghost res = pairs(resolved@);
    let mut out: Vec<QueueEntry> = Vec::new();
    let mut i: usize = 0;
    proof {
        reveal_strlit("test");
        reveal_strlit("provided");
        reveal_strlit("system");
        reveal_strlit("*");
    }
    while i < deps.len()
        invariant
            i <= deps@.len(),
            entry.depth < u32::MAX,
            excl == pairs(entry.exclusions@),
            dm == managed_models(dep_mgmt@),
            res == pairs(resolved@),
            out@.map_values(|e: QueueEntry| e.model()) == children_of(
                entry.depth as int,
                excl,
                dep_models(deps@.subrange(0, i as int)),
                dm,
                res,
            ),
        decreases deps@.len() - i,
    {
        let d = &deps[i];
        let ghost dmod = d.model();
        let sc = d.scope.as_str();
        let skip = text_eq(sc, "test") || text_eq(sc, "provided") || text_eq(sc, "system") || d.optional
            || contains_pair(&entry.exclusions, d.group_id.as_str(), d.artifact_id.as_str())
            || contains_pair(&entry.exclusions, d.group_id.as_str(), "*")
            || contains_pair(resolved, d.group_id.as_str(), d.artifact_id.as_str());
        let ghost before = out@;
        if !skip {
            match chosen_version_exec(d, dep_mgmt) {
                Some(v) => {
                    let mut ex = copy_pairs(&entry.exclusions);
                    append_pairs(&mut ex, &d.exclusions);
                    match find_managed(dep_mgmt, d.group_id.as_str(), d.artifact_id.as_str()) {
                        Some(k) => append_pairs(&mut ex, &dep_mgmt[k].exclusions),
                        None => {},
                    }
                    let child = QueueEntry {
                        coord: MavenCoord::new(d.group_id.clone(), d.artifact_id.clone(), v),
                        depth: entry.depth + 1,
                        exclusions: ex,
                    };
                    proof {
                        assert(pairs(child.exclusions@) =~= child_exclusions(excl, dmod, dm));
                    }
                    out.push(child);
                },
                None => {},
            }
        }
        proof {
            let sub = deps@.subrange(0, i + 1);
            assert(dep_models(sub).drop_last() =~= dep_models(deps@.subrange(0, i as int)));
            assert(dep_models(sub).last() == dmod);
            assert(skip == left_out(dmod, excl, res));
            assert(out@.map_values(|e: QueueEntry| e.model()) =~= children_of(
                entry.depth as int,
                excl,
                dep_models(sub),
                dm,
                res,
            ));
        }
        i = i + 1;
    }
    assert(deps@.subrange(0, deps@.len() as int) =~= deps@);
    out
}

} // verus!
