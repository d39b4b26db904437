//! What a build reads from a compiled artifact: the source it came from,
//! the digest of its interface and the sources it depends on.
use vstd::prelude::*;
use vstd::utf8::encode_utf8;

use crate::attributes::Attributes;
use crate::cache::{content_hash, xxh3_of};
use crate::dump::TastyFile;
use crate::incremental::{copy_texts, record_for, ArtifactModel, ArtifactRecord, IncrementalState, SourceModel, SourceRecord};
use crate::format::{category_of, DEFDEF, PARAM, TYPEDEF, TYPEPARAM, VALDEF};
use crate::names::{name_text, NameEntry, NameModel, NameTable};
use crate::text::{contains_text, insert_sorted, strictly_sorted, text_eq, texts};
use crate::trees::{TreeArena, TreeNode};

verus! {

/// The tag of the source-file attribute.
pub const SOURCEFILE_ATTR: u8 = 129;

/// The name of the first source-file attribute in `attrs`.
pub open spec fn source_attr(ms: Seq<NameModel>, attrs: Seq<(u8, u32)>) -> Option<Seq<char>>
    decreases attrs.len(),
{
    if attrs.len() == 0 {
        None
    } else if attrs[0].0 == SOURCEFILE_ATTR {
        Some(name_text(ms, attrs[0].1 as int))
    } else {
        source_attr(ms, attrs.drop_first())
    }
}

/// The source file that an artifact names in its attributes, if any.
pub fn artifact_source(names: &NameTable, attrs: &Attributes) -> (r: Option<String>)
    ensures
        match source_attr(names.models(), attrs.utf8ref_attrs@) {
            Some(t) => r matches Some(s) && s@ == t,
            None => r is None,
        },
{
    let ghost a = attrs.utf8ref_attrs@;
    let mut i: usize = 0;
    assert(a.subrange(0, a.len() as int) =~= a);
    while i < attrs.utf8ref_attrs.len()
        invariant
            a == attrs.utf8ref_attrs@,
            i <= a.len(),
            source_attr(names.models(), a) == source_attr(names.models(), a.subrange(i as int, a.len() as int)),
        decreases a.len() - i,
    {
        let ghost rest = a.subrange(i as int, a.len() as int);
        assert(rest.drop_first() =~= a.subrange(i + 1, a.len() as int));
        let (tag, name_ref) = attrs.utf8ref_attrs[i];
        if tag == SOURCEFILE_ATTR {
            return Some(names.display(name_ref as usize));
        }
        i = i + 1;
    }
    None
}

/// Whether `tag` declares something: a val, def, type, parameter or type
/// parameter.
pub open spec fn is_definition(tag: u8) -> bool {
    tag == VALDEF || tag == DEFDEF || tag == TYPEDEF || tag == TYPEPARAM || tag == PARAM
}

/// Whether `tag` is a modifier flag (a tag-only record that is no constant).
pub open spec fn is_modifier(tag: u8) -> bool {
    category_of(tag) == 1 && tag >= 6
}

/// The modifier tags among the children `cs`, in order.
pub open spec fn modifier_bytes(nodes: Seq<TreeNode>, cs: Seq<crate::trees::NodeId>) -> Seq<u8>
    decreases cs.len(),
{
    if cs.len() == 0 {
        Seq::empty()
    } else {
        let c = cs.last().0 as int;
        modifier_bytes(nodes, cs.drop_last()) + if 0 <= c < nodes.len() && is_modifier(nodes[c].tag) {
            seq![nodes[c].tag]
        } else {
            Seq::empty()
        }
    }
}

/// The interface record of node `n`: for a definition, its tag, its name
/// (zero-terminated), its modifier tags and an end mark; nothing for other
/// nodes.
pub open spec fn definition_bytes(nodes: Seq<TreeNode>, ms: Seq<NameModel>, n: TreeNode) -> Seq<u8> {
    if is_definition(n.tag) && n.nat is Some {
        seq![n.tag] + encode_utf8(name_text(ms, (n.nat->Some_0 as usize) as int)) + seq![0u8] + modifier_bytes(
            nodes,
            n.children@,
        ) + seq![0xffu8]
    } else {
        Seq::empty()
    }
}

/// The interface records of the first `k` nodes.
pub open spec fn definitions_bytes(nodes: Seq<TreeNode>, ms: Seq<NameModel>, k: int) -> Seq<u8>
    decreases k,
{
    if k <= 0 {
        Seq::empty()
    } else {
        definitions_bytes(nodes, ms, k - 1) + definition_bytes(nodes, ms, nodes[k - 1])
    }
}

/// The method signatures among the first `k` names, each zero-terminated.
pub open spec fn signature_bytes(ms: Seq<NameModel>, k: int) -> Seq<u8>
    decreases k,
{
    if k <= 0 {
        Seq::empty()
    } else {
        signature_bytes(ms, k - 1) + match ms[k - 1] {
            NameModel::Signed(..) | NameModel::TargetSigned(..) => encode_utf8(name_text(ms, k - 1)) + seq![0u8],
            _ => Seq::empty(),
        }
    }
}

/// The interface of an artifact: its definitions with names and modifiers,
/// then the method signatures of its name table. Bodies, positions and
/// other attributes do not enter it.
pub open spec fn api_projection(ms: Seq<NameModel>, nodes: Option<Seq<TreeNode>>) -> Seq<u8> {
    let defs = match nodes {
        Some(ns) => definitions_bytes(ns, ms, ns.len() as int),
        None => Seq::empty(),
    };
    defs + signature_bytes(ms, ms.len() as int)
}

fn push_bytes(out: &mut Vec<u8>, b: &[u8])
    ensures
        final(out)@ == old(out)@ + b@,
{
    let ghost start = out@;
    let mut i: usize = 0;
    while i < b.len()
        invariant
            i <= b@.len(),
            out@ == start + b@.subrange(0, i as int),
        decreases b@.len() - i,
    {
        out.push(b[i]);
        proof {
            assert(out@ =~= start + b@.subrange(0, i + 1));
        }
        i = i + 1;
    }
    assert(b@.subrange(0, b@.len() as int) =~= b@);
}

fn push_definition(out: &mut Vec<u8>, arena: &TreeArena, names: &NameTable, i: usize)
    requires
        i < arena.nodes@.len(),
    ensures
        final(out)@ == old(out)@ + definition_bytes(arena.nodes@, names.models(), arena.nodes@[i as int]),
{
    let n = &arena.nodes[i];
    let t = n.tag;
    if (t == VALDEF || t == DEFDEF || t == TYPEDEF || t == TYPEPARAM || t == PARAM) && n.nat.is_some() {
        let v = match n.nat {
            Some(v) => v,
            None => 0,
        };
        out.push(t);
        let text = names.display(v as usize);
        push_bytes(out, text.as_str().as_bytes());
        out.push(0u8);
        let ghost mid = out@;
        let mut j: usize = 0;
        let cs = &n.children;
        assert(cs@.subrange(0, 0) =~= Seq::<crate::trees::NodeId>::empty());
        while j < cs.len()
            invariant
                j <= cs@.len(),
                cs == &arena.nodes@[i as int].children,
                out@ == mid + modifier_bytes(arena.nodes@, cs@.subrange(0, j as int)),
            decreases cs@.len() - j,
        {
            let c = cs[j].0 as usize;
            if c < arena.nodes.len() {
                let ct = arena.nodes[c].tag;
                if crate::format::ast_category(ct) == 1 && ct >= 6 {
                    out.push(ct);
                }
            }
            proof {
                assert(cs@.subrange(0, j + 1).drop_last() =~= cs@.subrange(0, j as int));
                assert(out@ =~= mid + modifier_bytes(arena.nodes@, cs@.subrange(0, j + 1)));
            }
            j = j + 1;
        }
        assert(cs@.subrange(0, cs@.len() as int) =~= cs@);
        out.push(0xffu8);
        proof {
            assert(out@ =~= old(out)@ + definition_bytes(arena.nodes@, names.models(), arena.nodes@[i as int]));
        }
    } else {
        assert(out@ =~= old(out)@ + definition_bytes(arena.nodes@, names.models(), arena.nodes@[i as int]));
    }
}

/// The bytes of an artifact's interface (see `api_projection`).
pub fn api_bytes(names: &NameTable, trees: Option<&TreeArena>) -> (r: Vec<u8>)
    ensures
        r@ == api_projection(
            names.models(),
            match trees {
                Some(t) => Some(t.nodes@),
                None => None,
            },
        ),
{
    let mut out: Vec<u8> = Vec::new();
    match trees {
        Some(arena) => {
            let mut i: usize = 0;
            while i < arena.nodes.len()
                invariant
                    i <= arena.nodes@.len(),
                    out@ == definitions_bytes(arena.nodes@, names.models(), i as int),
                decreases arena.nodes@.len() - i,
            {
                push_definition(&mut out, arena, names, i);
                i = i + 1;
            }
        },
        None => {},
    }
    let ghost head = out@;
    let mut k: usize = 0;
    while k < names.entries.len()
        invariant
            k <= names.entries@.len(),
            out@ == head + signature_bytes(names.models(), k as int),
        decreases names.entries@.len() - k,
    {
        let is_sig = match &names.entries[k] {
            NameEntry::Signed(..) => true,
            NameEntry::TargetSigned(..) => true,
            _ => false,
        };
        if is_sig {
            let text = names.display(k);
            push_bytes(&mut out, text.as_str().as_bytes());
            out.push(0u8);
        }
        proof {
            assert(names.models()[k as int] == names.entries@[k as int].model());
            assert(out@ =~= head + signature_bytes(names.models(), k + 1));
        }
        k = k + 1;
    }
    out
}

/// The interface digest of an artifact: the digest of its interface bytes.
pub fn api_digest(file: &TastyFile) -> (r: u64)
    ensures
        r == xxh3_of(
            api_projection(
                file.names.models(),
                match file.trees {
                    Some(t) => Some(t.nodes@),
                    None => None,
                },
            ),
        ),
{
    let b = api_bytes(&file.names, file.trees.as_ref());
    content_hash(b.as_slice())
}

/// The sources that an artifact of source `own` references: every source
/// of `defined` (pairs of a top-level name and the source defining it)
/// other than `own` whose name is a plain entry of the name table.
pub open spec fn referenced(ms: Seq<NameModel>, defined: Seq<(String, String)>, own: Seq<char>) -> Set<Seq<char>> {
    Set::new(
        |p: Seq<char>|
            p != own && exists|k: int|
                0 <= k < defined.len() && #[trigger] defined[k].1@ == p && ms.contains(NameModel::Utf8(defined[k].0@)),
    )
}

fn has_plain_name(names: &NameTable, t: &str) -> (r: bool)
    ensures
        r == names.models().contains(NameModel::Utf8(t@)),
{
    let mut i: usize = 0;
    while i < names.entries.len()
        invariant
            i <= names.entries@.len(),
            forall|j: int| 0 <= j < i ==> names.models()[j] != NameModel::Utf8(t@),
        decreases names.entries@.len() - i,
    {
        match &names.entries[i] {
            NameEntry::Utf8(s) => {
                if text_eq(s.as_str(), t) {
                    assert(names.models()[i as int] == NameModel::Utf8(t@));
                    return true;
                }
            },
            _ => {},
        }
        assert(names.models()[i as int] == names.entries@[i as int].model());
        i = i + 1;
    }
    false
}

/// The sources an artifact depends on (see `referenced`), in increasing order.
pub fn referenced_sources(names: &NameTable, defined: &Vec<(String, String)>, own: &str) -> (r: Vec<String>)
    ensures
        strictly_sorted(texts(r@)),
        texts(r@).to_set() == referenced(names.models(), defined@, own@),
{
    let mut out: Vec<String> = Vec::new();
    let mut k: usize = 0;
    let ghost ms = names.models();
    assert(texts(out@).to_set() =~= Set::empty());
    while k < defined.len()
        invariant
            k <= defined@.len(),
            ms == names.models(),
            strictly_sorted(texts(out@)),
            texts(out@).to_set() == Set::new(
                |p: Seq<char>|
                    p != own@ && exists|x: int|
                        0 <= x < k && #[trigger] defined@[x].1@ == p && ms.contains(NameModel::Utf8(defined@[x].0@)),
            ),
        decreases defined@.len() - k,
    {
        let (name, src) = (&defined[k].0, &defined[k].1);
        let ghost before = texts(out@).to_set();
        if !text_eq(src.as_str(), own) && has_plain_name(names, name.as_str()) && !contains_text(&out, src.as_str()) {
            insert_sorted(&mut out, src.clone());
        }
        proof {
            assert forall|p: Seq<char>| texts(out@).to_set().contains(p) == (p != own@ && exists|x: int|
                0 <= x < k + 1 && #[trigger] defined@[x].1@ == p && ms.contains(NameModel::Utf8(defined@[x].0@))) by {
                if p != own@ && exists|x: int|
                    0 <= x < k + 1 && #[trigger] defined@[x].1@ == p && ms.contains(NameModel::Utf8(defined@[x].0@)) {
                    let x = choose|x: int|
                        0 <= x < k + 1 && #[trigger] defined@[x].1@ == p && ms.contains(NameModel::Utf8(defined@[x].0@));
                    if x < k {
                        assert(before.contains(p));
                    }
                }
            }
            assert(texts(out@).to_set() =~= Set::new(
                |p: Seq<char>|
                    p != own@ && exists|x: int|
                        0 <= x < k + 1 && #[trigger] defined@[x].1@ == p && ms.contains(NameModel::Utf8(defined@[x].0@)),
            ));
        }
        k = k + 1;
    }
    out
}

/// What a rescan found of one artifact.
pub struct ArtifactScan {
    /// Path relative to the output directory.
    pub path: String,
    /// The source it was compiled from.
    pub source: String,
    /// Its interface bytes (see `api_projection`).
    pub api: Vec<u8>,
    /// The sources it depends on.
    pub deps_out: Vec<String>,
}

/// The artifacts of source `p` among `scans`, in order.
pub open spec fn artifacts_of(scans: Seq<ArtifactScan>, p: Seq<char>) -> Seq<ArtifactModel>
    decreases scans.len(),
{
    if scans.len() == 0 {
        Seq::empty()
    } else {
        let a = scans.last();
        artifacts_of(scans.drop_last(), p) + if a.source@ == p {
            seq![ArtifactModel { path: a.path@, deps_out: texts(a.deps_out@) }]
        } else {
            Seq::empty()
        }
    }
}

/// The interface bytes of source `p`: those of its artifacts, in order.
pub open spec fn interface_of(scans: Seq<ArtifactScan>, p: Seq<char>) -> Seq<u8>
    decreases scans.len(),
{
    if scans.len() == 0 {
        Seq::empty()
    } else {
        let a = scans.last();
        interface_of(scans.drop_last(), p) + if a.source@ == p {
            a.api@
        } else {
            Seq::empty()
        }
    }
}

/// The sources that `scans` name.
pub open spec fn scanned_sources(scans: Seq<ArtifactScan>) -> Set<Seq<char>> {
    Set::new(|p: Seq<char>| exists|i: int| 0 <= i < scans.len() && #[trigger] scans[i].source@ == p)
}

/// The record a rescan gives source `p`: its artifacts, and the digest of
/// their interface bytes. The content hash is left at zero: the round
/// that merges the record sets it.
pub open spec fn scanned_record(scans: Seq<ArtifactScan>, p: Seq<char>) -> SourceModel {
    SourceModel {
        path: p,
        content_hash: 0,
        api_hash: Some(xxh3_of(interface_of(scans, p))),
        artifacts: artifacts_of(scans, p),
    }
}

fn source_record(scans: &Vec<ArtifactScan>, p: &String) -> (r: SourceRecord)
    ensures
        r.model() == scanned_record(scans@, p@),
{
    let mut artifacts: Vec<ArtifactRecord> = Vec::new();
    let mut bytes: Vec<u8> = Vec::new();
    let mut i: usize = 0;
    while i < scans.len()
        invariant
            i <= scans@.len(),
            artifacts@.map_values(|a: ArtifactRecord| a.model()) == artifacts_of(scans@.subrange(0, i as int), p@),
            bytes@ == interface_of(scans@.subrange(0, i as int), p@),
        decreases scans@.len() - i,
    {
        let sc = &scans[i];
        let ghost before = artifacts@;
        if text_eq(sc.source.as_str(), p.as_str()) {
            artifacts.push(ArtifactRecord { path: sc.path.clone(), deps_out: copy_texts(&sc.deps_out) });
            push_bytes(&mut bytes, sc.api.as_slice());
        }
        proof {
            let sub = scans@.subrange(0, i + 1);
            assert(sub.drop_last() =~= scans@.subrange(0, i as int));
            assert(sub.last() == scans@[i as int]);
            assert(artifacts@.map_values(|a: ArtifactRecord| a.model()) =~= artifacts_of(sub, p@));
            assert(bytes@ =~= interface_of(sub, p@));
        }
        i = i + 1;
    }
    assert(scans@.subrange(0, scans@.len() as int) =~= scans@);
    let api = content_hash(bytes.as_slice());
    let r = SourceRecord { path: p.clone(), content_hash: 0, api_hash: Some(api), artifacts };
    assert(r.model().artifacts =~= artifacts_of(scans@, p@));
    r
}

/// The state a rescan finds: one record per source that an artifact names
/// (see `scanned_record`), sources in increasing order.
pub fn collect_sources(scans: &Vec<ArtifactScan>, dep_hash: u64) -> (r: IncrementalState)
    ensures
        r.dep_hash == dep_hash,
        r.wf(),
        forall|p: Seq<char>| #[trigger] record_for(r.sources@, p) is Some <==> scanned_sources(scans@).contains(p),
        forall|i: int| 0 <= i < r.sources@.len() ==> (#[trigger] r.sources@[i]).model() == scanned_record(scans@, r.sources@[i].path@),
{
    let mut paths: Vec<String> = Vec::new();
    let mut i: usize = 0;
    assert(texts(paths@).to_set() =~= Set::empty());
    while i < scans.len()
        invariant
            i <= scans@.len(),
            strictly_sorted(texts(paths@)),
            texts(paths@).to_set() == Set::new(|p: Seq<char>| exists|j: int| 0 <= j < i && #[trigger] scans@[j].source@ == p),
        decreases scans@.len() - i,
    {
        let src = &scans[i].source;
        let ghost before = texts(paths@).to_set();
        if !contains_text(&paths, src.as_str()) {
            insert_sorted(&mut paths, src.clone());
        }
        proof {
            assert forall|p: Seq<char>| texts(paths@).to_set().contains(p) == exists|j: int| 0 <= j < i + 1 && #[trigger] scans@[j].source@ == p by {
                if exists|j: int| 0 <= j < i + 1 && #[trigger] scans@[j].source@ == p {
                    let j = choose|j: int| 0 <= j < i + 1 && #[trigger] scans@[j].source@ == p;
                    if j < i {
                        assert(before.contains(p));
                    }
                }
            }
            assert(texts(paths@).to_set() =~= Set::new(|p: Seq<char>| exists|j: int| 0 <= j < i + 1 && #[trigger] scans@[j].source@ == p));
        }
        i = i + 1;
    }
    let mut sources: Vec<SourceRecord> = Vec::new();
    let mut k: usize = 0;
    while k < paths.len()
        invariant
            k <= paths@.len(),
            sources@.len() == k,
            forall|j: int| 0 <= j < k ==> (#[trigger] sources@[j]).model() == scanned_record(scans@, paths@[j]@),
        decreases paths@.len() - k,
    {
        let rec = source_record(scans, &paths[k]);
        sources.push(rec);
        k = k + 1;
    }
    let r = IncrementalState { dep_hash, sources };
    proof {
        let ps = texts(paths@);
        assert forall|j: int| 0 <= j < r.sources@.len() implies #[trigger] r.sources@[j].path@ == ps[j] by {
            assert(r.sources@[j].model() == scanned_record(scans@, paths@[j]@));
        }
        assert forall|a: int, b: int| 0 <= a < b < r.sources@.len() implies #[trigger] r.sources@[a].path@
            != #[trigger] r.sources@[b].path@ by {
            assert(r.sources@[a].path@ == ps[a]);
            assert(r.sources@[b].path@ == ps[b]);
            crate::text::lemma_text_lt_irreflexive(ps[a]);
        }
        assert forall|p: Seq<char>| #[trigger] record_for(r.sources@, p) is Some <==> scanned_sources(scans@).contains(p) by {
            crate::incremental::lemma_record_for_path(r.sources@, p);
            if record_for(r.sources@, p) is Some {
                let j = choose|j: int| 0 <= j < r.sources@.len() && r.sources@[j].path@ == p;
                assert(ps[j] == p);
                assert(ps.to_set().contains(p));
            }
            if scanned_sources(scans@).contains(p) {
                assert(ps.to_set().contains(p));
                let j = choose|j: int| 0 <= j < ps.len() && ps[j] == p;
                assert(r.sources@[j].path@ == p);
            }
        }
    }
    r
}

} // verus!
