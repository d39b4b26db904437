//! The ASTs section: tree records decoded into a flat arena, with shared
//! references resolved through a map from section offset to node.
use std::collections::HashMap;
use vstd::prelude::*;

use crate::error::TastyError;
use crate::format::{
    ast_category, category_of, BIND, DEFDEF, HOLE, METHODtype, NAMEDARG, PARAM, PARAMtype,
    POLYtype, REFINEDtype, RETURN, SELECTin, SELFDEF, SHAREDterm, SHAREDtype, TERMREFin,
    TYPEDEF, TYPELAMBDAtype, TYPEPARAM, TYPEREFin, VALDEF,
};
use crate::reader::{lemma_terminal_from_range, spec_nat, TastyReader};

verus! {

broadcast use vstd::std_specs::hash::group_hash_axioms;

/// Index of a node in the arena.
#[derive(Debug, Clone, Copy, PartialEq, Eq)]
pub struct NodeId(pub u32);

/// One decoded tree record.
#[derive(Debug)]
pub struct TreeNode {
    pub tag: u8,
    /// The natural number of a category 2 or 4 record, or the first leading
    /// number of a category 5 record.
    pub nat: Option<u64>,
    /// The second leading number of a category 5 record that has two.
    pub nat2: Option<u64>,
    /// The child trees, in order.
    pub children: Vec<NodeId>,
    /// For a binder type: the name of each parameter; `binder_param_names[i]`
    /// names `children[i + 1]` (`children[0]` is the result type).
    pub binder_param_names: Vec<u64>,
}

/// Flat arena of tree nodes; a node's children come before it.
pub struct TreeArena {
    pub nodes: Vec<TreeNode>,
}

/// Whether `tag` is a shared reference to an earlier record.
pub open spec fn is_shared_tag(tag: u8) -> bool {
    tag == SHAREDterm || tag == SHAREDtype
}

/// How many natural numbers lead the payload of a category 5 record.
pub open spec fn leading_nats(tag: u8) -> int {
    if tag == VALDEF || tag == DEFDEF || tag == TYPEDEF || tag == TYPEPARAM || tag == PARAM
        || tag == NAMEDARG || tag == RETURN || tag == BIND || tag == SELFDEF || tag == REFINEDtype
        || tag == TERMREFin || tag == TYPEREFin || tag == SELECTin || tag == HOLE {
        1
    } else if tag == PARAMtype {
        2
    } else {
        0
    }
}

/// Whether `tag` is a binder type, whose payload pairs parameter types
/// with parameter names after the result type.
pub open spec fn is_binder_tag(tag: u8) -> bool {
    tag == POLYtype || tag == TYPELAMBDAtype || tag == METHODtype
}

/// Node `n` at index `i` has the shape that its tag's category gives, and
/// its children come before it.
pub open spec fn node_ok(n: TreeNode, i: int) -> bool {
    let cat = category_of(n.tag);
    &&& 1 <= cat <= 5
    &&& !is_shared_tag(n.tag)
    &&& forall|j: int| 0 <= j < n.children@.len() ==> (#[trigger] n.children@[j]).0 < i
    &&& cat == 1 ==> n.nat is None && n.children@.len() == 0
    &&& cat == 2 ==> n.nat is Some && n.children@.len() == 0
    &&& cat == 3 ==> n.nat is None && n.children@.len() == 1
    &&& cat == 4 ==> n.nat is Some && n.children@.len() == 1
    &&& cat < 5 ==> n.nat2 is None && n.binder_param_names@.len() == 0
    &&& cat == 5 ==> (n.nat is Some <==> leading_nats(n.tag) >= 1) && (n.nat2 is Some <==> leading_nats(
        n.tag,
    ) >= 2)
    &&& cat == 5 && !is_binder_tag(n.tag) ==> n.binder_param_names@.len() == 0
    &&& n.binder_param_names@.len() <= n.children@.len()
}

/// Every node of `nodes` is well shaped at its index.
pub open spec fn nodes_ok(nodes: Seq<TreeNode>) -> bool {
    forall|i: int| 0 <= i < nodes.len() ==> node_ok(#[trigger] nodes[i], i)
}

/// The shared-reference map of a decoding that has reached offset `at` of
/// buffer `s`, whose section starts at `base`: each recorded offset lies
/// before `at` and names an existing node, which is the node decoded from
/// the record at that offset (a shared reference there maps to the node it
/// resolved to).
pub open spec fn shared_ok(m: Map<u32, NodeId>, nodes: Seq<TreeNode>, s: Seq<u8>, base: int, at: int) -> bool {
    forall|k: u32|
        #[trigger] m.contains_key(k) ==> {
            &&& base + k < at
            &&& (m[k].0 as int) < nodes.len()
            &&& !is_shared_tag(s[base + k]) ==> nodes[m[k].0 as int].tag == s[base + k]
        }
}

impl TreeArena {
    /// All nodes are well shaped (see `node_ok`).
    pub open spec fn wf(&self) -> bool {
        nodes_ok(self.nodes@)
    }

    fn add_node(&mut self, node: TreeNode) -> (r: NodeId)
        requires
            old(self).nodes@.len() < 0x1_0000_0000,
        ensures
            r.0 == old(self).nodes@.len(),
            final(self).nodes@ == old(self).nodes@.push(node),
    {
        let id = NodeId(self.nodes.len() as u32);
        self.nodes.push(node);
        id
    }

    /// The node with index `id`.
    pub fn get(&self, id: NodeId) -> (r: &TreeNode)
        requires
            id.0 < self.nodes@.len(),
        ensures
            *r == self.nodes@[id.0 as int],
    {
        &self.nodes[id.0 as usize]
    }
}

/// How many natural numbers lead a category 5 payload (see `leading_nats`).
fn num_refs(tag: u8) -> (r: u8)
    ensures
        r == leading_nats(tag),
{
    if tag == VALDEF || tag == DEFDEF || tag == TYPEDEF || tag == TYPEPARAM || tag == PARAM
        || tag == NAMEDARG || tag == RETURN || tag == BIND || tag == SELFDEF || tag == REFINEDtype
        || tag == TERMREFin || tag == TYPEREFin || tag == SELECTin || tag == HOLE {
        1
    } else if tag == PARAMtype {
        2
    } else {
        0
    }
}

/// Whether `tag` is a binder type (see `is_binder_tag`).
fn is_binder(tag: u8) -> (r: bool)
    ensures
        r == is_binder_tag(tag),
{
    tag == POLYtype || tag == TYPELAMBDAtype || tag == METHODtype
}

/// A tree node as mathematical values.
pub struct NodeModel {
    pub tag: u8,
    pub nat: Option<u64>,
    pub nat2: Option<u64>,
    pub children: Seq<NodeId>,
    pub names: Seq<u64>,
}

impl TreeNode {
    pub open spec fn model(&self) -> NodeModel {
        NodeModel {
            tag: self.tag,
            nat: self.nat,
            nat2: self.nat2,
            children: self.children@,
            names: self.binder_param_names@,
        }
    }
}

/// The nodes of an arena as mathematical values.
pub open spec fn node_models(nodes: Seq<TreeNode>) -> Seq<NodeModel> {
    nodes.map_values(|n: TreeNode| n.model())
}

/// The state of a decoding: the nodes so far and the shared-reference map.
pub struct Decoding {
    pub nodes: Seq<NodeModel>,
    pub shared: Map<u32, NodeId>,
}

/// Adds `node`, decoded from the record at section offset `rel`, and gives
/// its index and the offset `q` after the record.
pub open spec fn finish(d: Decoding, rel: u32, node: NodeModel, q: int) -> Option<(Decoding, NodeId, int)> {
    let id = NodeId(d.nodes.len() as u32);
    Some((Decoding { nodes: d.nodes.push(node), shared: d.shared.insert(rel, id) }, id, q))
}

/// The record at offset `p` of `s` (its section starting at `base`, reads
/// stopping at `limit`), decoded in state `d`: the new state, the node the
/// record stands for and the offset after it; `None` on a short read, an
/// unknown tag or a shared reference to an offset with no record.
pub open spec fn tree_at(s: Seq<u8>, base: int, p: int, limit: int, d: Decoding) -> Option<(Decoding, NodeId, int)>
    decreases limit - p, 0int,
{
    if p < base || p >= limit {
        None
    } else {
        let tag = s[p];
        let rel = (p - base) as u32;
        let cat = category_of(tag);
        if is_shared_tag(tag) {
            match spec_nat(s, p + 1, limit) {
                None => None,
                Some((t, q)) => if d.shared.contains_key(t as u32) {
                    let id = d.shared[t as u32];
                    Some((Decoding { nodes: d.nodes, shared: d.shared.insert(rel, id) }, id, q))
                } else {
                    None
                },
            }
        } else if cat == 1 {
            finish(d, rel, NodeModel { tag, nat: None, nat2: None, children: Seq::empty(), names: Seq::empty() }, p + 1)
        } else if cat == 2 {
            match spec_nat(s, p + 1, limit) {
                None => None,
                Some((n, q)) => finish(d, rel, NodeModel { tag, nat: Some(n), nat2: None, children: Seq::empty(), names: Seq::empty() }, q),
            }
        } else if cat == 3 {
            match tree_at(s, base, p + 1, limit, d) {
                None => None,
                Some((d1, c, q)) => finish(d1, rel, NodeModel { tag, nat: None, nat2: None, children: seq![c], names: Seq::empty() }, q),
            }
        } else if cat == 4 {
            match spec_nat(s, p + 1, limit) {
                None => None,
                Some((n, q)) => if p < q <= limit {
                    match tree_at(s, base, q, limit, d) {
                        None => None,
                        Some((d1, c, q1)) => finish(d1, rel, NodeModel { tag, nat: Some(n), nat2: None, children: seq![c], names: Seq::empty() }, q1),
                    }
                } else {
                    None
                },
            }
        } else if cat == 5 {
            match spec_nat(s, p + 1, limit) {
                None => None,
                Some((len, q)) => if q + len > limit || !(p < q <= limit) {
                    None
                } else {
                    match leading_at(s, q, limit, leading_nats(tag)) {
                        None => None,
                        Some((n1, n2, q2)) => if p < q2 <= limit {
                            match payload_at(s, base, q2, q + len, limit, d, is_binder_tag(tag), Seq::empty(), Seq::empty()) {
                                None => None,
                                Some((d1, cs, ns, q3)) => finish(d1, rel, NodeModel { tag, nat: n1, nat2: n2, children: cs, names: ns }, q3),
                            }
                        } else {
                            None
                        },
                    }
                },
            }
        } else {
            None
        }
    }
}

/// The leading numbers of a category 5 payload: the first when `k >= 1`,
/// the second when `k >= 2`, and the offset after them.
pub open spec fn leading_at(s: Seq<u8>, q: int, limit: int, k: int) -> Option<(Option<u64>, Option<u64>, int)> {
    if k >= 1 {
        match spec_nat(s, q, limit) {
            None => None,
            Some((a, q1)) => if k >= 2 {
                match spec_nat(s, q1, limit) {
                    None => None,
                    Some((b, q2)) => Some((Some(a), Some(b), q2)),
                }
            } else {
                Some((Some(a), None, q1))
            },
        }
    } else {
        Some((None, None, q))
    }
}

/// The child trees of a category 5 payload from offset `q` to `end`,
/// after the children `cs` and parameter names `ns` read so far; in a
/// binder type each tree after the first is followed by a parameter name
/// when the payload goes on.
pub open spec fn payload_at(
    s: Seq<u8>,
    base: int,
    q: int,
    end: int,
    limit: int,
    d: Decoding,
    binder: bool,
    cs: Seq<NodeId>,
    ns: Seq<u64>,
) -> Option<(Decoding, Seq<NodeId>, Seq<u64>, int)>
    decreases limit - q, 1int,
{
    if q >= end {
        Some((d, cs, ns, q))
    } else if q < base || q > limit {
        None
    } else {
        match tree_at(s, base, q, limit, d) {
            None => None,
            Some((d1, c, q1)) => {
                let cs1 = cs.push(c);
                if !(q < q1 <= limit) {
                    None
                } else if binder && cs1.len() >= 2 && q1 < end {
                    match spec_nat(s, q1, limit) {
                        None => None,
                        Some((nm, q2)) => if q1 < q2 <= limit {
                            payload_at(s, base, q2, end, limit, d1, binder, cs1, ns.push(nm))
                        } else {
                            None
                        },
                    }
                } else {
                    payload_at(s, base, q1, end, limit, d1, binder, cs1, ns)
                }
            },
        }
    }
}

/// The facts that hold of a decoding in progress at offset `at`.
pub open spec fn decoding_ok(
    nodes: Seq<TreeNode>,
    m: Map<u32, NodeId>,
    s: Seq<u8>,
    base: int,
    at: int,
) -> bool {
    &&& nodes_ok(nodes)
    &&& shared_ok(m, nodes, s, base, at)
    &&& nodes.len() <= at - base
}

proof fn lemma_shared_ok_grow(
    m: Map<u32, NodeId>,
    nodes: Seq<TreeNode>,
    more: Seq<TreeNode>,
    s: Seq<u8>,
    base: int,
    at: int,
    at2: int,
)
    requires
        shared_ok(m, nodes, s, base, at),
        at <= at2,
        more.len() >= nodes.len(),
        more.subrange(0, nodes.len() as int) == nodes,
    ensures
        shared_ok(m, more, s, base, at2),
{
    assert forall|k: u32| #[trigger] m.contains_key(k) implies {
        &&& base + k < at2
        &&& (m[k].0 as int) < more.len()
        &&& !is_shared_tag(s[base + k]) ==> more[m[k].0 as int].tag == s[base + k]
    } by {
        assert(more[m[k].0 as int] == more.subrange(0, nodes.len() as int)[m[k].0 as int]);
    }
}

/// The decoding state that an arena and a shared-reference map hold.
pub open spec fn state_of(nodes: Seq<TreeNode>, m: Map<u32, NodeId>) -> Decoding {
    Decoding { nodes: node_models(nodes), shared: m }
}

proof fn lemma_models_push(nodes: Seq<TreeNode>, n: TreeNode)
    ensures
        node_models(nodes.push(n)) == node_models(nodes).push(n.model()),
{
    assert(node_models(nodes.push(n)) =~= node_models(nodes).push(n.model()));
}

/// Decodes the record at the cursor, adding its nodes to `arena` and its
/// offset to `shared`; returns the node the record stands for (see
/// `tree_at`).
#[verifier::rlimit(80)]
#[verifier::spinoff_prover]
fn parse_tree(
    reader: &mut TastyReader<'_>,
    base: usize,
    arena: &mut TreeArena,
    shared: &mut HashMap<u32, NodeId>,
) -> (r: Result<NodeId, TastyError>)
    requires
        old(reader).wf(),
        base <= old(reader).at(),
        old(reader).limit() - base <= 0xffff_ffff,
        decoding_ok(old(arena).nodes@, old(shared)@, old(reader).buf(), base as int, old(reader).at()),
    ensures
        final(reader).wf(),
        final(reader).buf() == old(reader).buf(),
        final(reader).limit() == old(reader).limit(),
        match tree_at(
            old(reader).buf(),
            base as int,
            old(reader).at(),
            old(reader).limit(),
            state_of(old(arena).nodes@, old(shared)@),
        ) {
            Some((d, id, q)) => r == Ok::<NodeId, TastyError>(id) && state_of(final(arena).nodes@, final(shared)@) == d
                && final(reader).at() == q,
            None => r is Err,
        },
        r is Ok ==> {
            let s = old(reader).buf();
            let start = old(reader).at();
            let nodes = final(arena).nodes@;
            &&& start < final(reader).at() <= old(reader).limit()
            &&& decoding_ok(nodes, final(shared)@, s, base as int, final(reader).at())
            &&& nodes.len() >= old(arena).nodes@.len()
            &&& nodes.subrange(0, old(arena).nodes@.len() as int) == old(arena).nodes@
            &&& nodes.len() - old(arena).nodes@.len() <= final(reader).at() - start
            &&& (r->Ok_0.0 as int) < nodes.len()
            &&& final(shared)@.contains_key((start - base) as u32)
            &&& final(shared)@[(start - base) as u32] == r->Ok_0
            &&& !is_shared_tag(s[start]) ==> r->Ok_0.0 == nodes.len() - 1 && nodes[r->Ok_0.0 as int].tag
                == s[start]
            &&& is_shared_tag(s[start]) ==> match spec_nat(s, start + 1, old(reader).limit()) {
                Some((t, _)) => {
                    &&& old(shared)@.contains_key(t as u32)
                    &&& r->Ok_0 == old(shared)@[t as u32]
                    &&& base + (t as u32) < start
                },
                None => false,
            }
        },
    decreases old(reader).limit() - old(reader).at(), 0int,
{
    let ghost s = reader.buf();
    let ghost lim = reader.limit();
    let ghost n0 = arena.nodes@.len();
    let ghost d0 = state_of(arena.nodes@, shared@);
    let start = reader.pos();
    let rel_pos = (start - base) as u32;
    proof {
        lemma_terminal_from_range(s, start + 1, lim);
    }
    let tag = reader.read_byte()?;
    let cat = ast_category(tag);
    if tag == SHAREDterm || tag == SHAREDtype {
        let target = reader.read_nat()?;
        let offset = target as u32;
        match shared.get(&offset) {
            Some(id) => {
                let id = *id;
                shared.insert(rel_pos, id);
                proof {
                    assert(arena.nodes@.subrange(0, n0 as int) =~= arena.nodes@);
                }
                return Ok(id);
            },
            None => {
                return Err(TastyError::DanglingShared { target, offset: start });
            },
        }
    }
    let node = if cat == 1 {
        TreeNode { tag, nat: None, nat2: None, children: Vec::new(), binder_param_names: Vec::new() }
    } else if cat == 2 {
        let n = reader.read_nat()?;
        TreeNode { tag, nat: Some(n), nat2: None, children: Vec::new(), binder_param_names: Vec::new() }
    } else if cat == 3 {
        let child = parse_tree(reader, base, arena, shared)?;
        let mut children = Vec::new();
        children.push(child);
        proof {
            assert(children@ =~= seq![child]);
        }
        TreeNode { tag, nat: None, nat2: None, children, binder_param_names: Vec::new() }
    } else if cat == 4 {
        let n = reader.read_nat()?;
        let child = parse_tree(reader, base, arena, shared)?;
        let mut children = Vec::new();
        children.push(child);
        proof {
            assert(children@ =~= seq![child]);
        }
        TreeNode { tag, nat: Some(n), nat2: None, children, binder_param_names: Vec::new() }
    } else if cat == 5 {
        let len = reader.read_nat()?;
        let here = reader.pos();
        if len > (reader.end() - here) as u64 {
            return Err(TastyError::UnexpectedEnd { offset: reader.end() });
        }
        let end = here + len as usize;
        let refs = num_refs(tag);
        let mut nat1 = None;
        let mut nat2 = None;
        proof {
            lemma_terminal_from_range(s, here as int, lim);
        }
        if refs >= 1 {
            nat1 = Some(reader.read_nat()?);
            proof {
                lemma_terminal_from_range(s, reader.at(), lim);
            }
        }
        if refs >= 2 {
            nat2 = Some(reader.read_nat()?);
        }
        let binder = is_binder(tag);
        let ghost q2 = reader.at();
        proof {
            assert(leading_at(s, here as int, lim, leading_nats(tag)) == Some((nat1, nat2, q2)));
        }
        let (children, binder_param_names) = parse_payload(reader, base, arena, shared, end, binder)?;
        proof {
            assert(arena.nodes@.subrange(0, n0 as int) =~= old(arena).nodes@);
        }
        TreeNode { tag, nat: nat1, nat2, children, binder_param_names }
    } else {
        return Err(TastyError::UnknownTreeTag { tag, offset: start });
    };
    let ghost before = arena.nodes@;
    let ghost before_shared = shared@;
    let id = arena.add_node(node);
    shared.insert(rel_pos, id);
    proof {
        let nodes = arena.nodes@;
        lemma_models_push(before, node);
        assert(nodes.subrange(0, before.len() as int) =~= before);
        lemma_shared_ok_grow(old(shared)@, before, nodes, s, base as int, start as int, reader.at());
        assert(nodes_ok(nodes)) by {
            assert forall|i: int| 0 <= i < nodes.len() implies node_ok(#[trigger] nodes[i], i) by {
                if i < before.len() {
                    assert(nodes[i] == before[i]);
                }
            }
        }
        assert(arena.nodes@.subrange(0, n0 as int) =~= old(arena).nodes@);
    }
    Ok(id)
}

/// Decodes the child trees of a category 5 payload from the cursor to
/// `end`, with the parameter names of a binder type (see `payload_at`).
fn parse_payload(
    reader: &mut TastyReader<'_>,
    base: usize,
    arena: &mut TreeArena,
    shared: &mut HashMap<u32, NodeId>,
    end: usize,
    binder: bool,
) -> (r: Result<(Vec<NodeId>, Vec<u64>), TastyError>)
    requires
        old(reader).wf(),
        base <= old(reader).at() <= old(reader).limit(),
        end <= old(reader).limit(),
        old(reader).limit() - base <= 0xffff_ffff,
        decoding_ok(old(arena).nodes@, old(shared)@, old(reader).buf(), base as int, old(reader).at()),
    ensures
        final(reader).wf(),
        final(reader).buf() == old(reader).buf(),
        final(reader).limit() == old(reader).limit(),
        match payload_at(
            old(reader).buf(),
            base as int,
            old(reader).at(),
            end as int,
            old(reader).limit(),
            state_of(old(arena).nodes@, old(shared)@),
            binder,
            Seq::empty(),
            Seq::empty(),
        ) {
            Some((d, cs, ns, q)) => r matches Ok((c, n)) && c@ == cs && n@ == ns && state_of(final(arena).nodes@, final(shared)@)
                == d && final(reader).at() == q,
            None => r is Err,
        },
        r matches Ok((c, n)) ==> {
            let nodes = final(arena).nodes@;
            &&& old(reader).at() <= final(reader).at() <= old(reader).limit()
            &&& decoding_ok(nodes, final(shared)@, old(reader).buf(), base as int, final(reader).at())
            &&& nodes.len() >= old(arena).nodes@.len()
            &&& nodes.subrange(0, old(arena).nodes@.len() as int) == old(arena).nodes@
            &&& nodes.len() - old(arena).nodes@.len() <= final(reader).at() - old(reader).at()
            &&& forall|j: int| 0 <= j < c@.len() ==> (#[trigger] c@[j]).0 < nodes.len()
            &&& !binder ==> n@.len() == 0
            &&& n@.len() <= c@.len()
        },
    decreases old(reader).limit() - old(reader).at(), 1int,
{
    let ghost s = reader.buf();
    let ghost lim = reader.limit();
    let ghost n0 = arena.nodes@.len();
    let ghost p0 = reader.at();
    let ghost d0 = state_of(arena.nodes@, shared@);
    let mut children: Vec<NodeId> = Vec::new();
    let mut binder_param_names: Vec<u64> = Vec::new();
    proof {
        assert(children@ =~= Seq::<NodeId>::empty());
        assert(binder_param_names@ =~= Seq::<u64>::empty());
        assert(arena.nodes@.subrange(0, n0 as int) =~= arena.nodes@);
    }
    while reader.pos() < end
        invariant
            reader.wf(),
            reader.buf() == s,
            reader.limit() == lim,
            s == old(reader).buf(),
            lim == old(reader).limit(),
            p0 == old(reader).at(),
            n0 == old(arena).nodes@.len(),
            d0 == state_of(old(arena).nodes@, old(shared)@),
            p0 <= reader.at() <= lim,
            end <= lim,
            base <= p0,
            lim - base <= 0xffff_ffff,
            decoding_ok(arena.nodes@, shared@, s, base as int, reader.at()),
            arena.nodes@.len() >= n0,
            arena.nodes@.subrange(0, n0 as int) == old(arena).nodes@,
            arena.nodes@.len() - n0 <= reader.at() - p0,
            forall|j: int| 0 <= j < children@.len() ==> (#[trigger] children@[j]).0 < arena.nodes@.len(),
            !binder ==> binder_param_names@.len() == 0,
            binder_param_names@.len() <= children@.len(),
            payload_at(s, base as int, p0, end as int, lim, d0, binder, Seq::empty(), Seq::empty()) == payload_at(
                s,
                base as int,
                reader.at(),
                end as int,
                lim,
                state_of(arena.nodes@, shared@),
                binder,
                children@,
                binder_param_names@,
            ),
        decreases lim - reader.at(),
    {
        let ghost nb = arena.nodes@;
        let ghost q = reader.at();
        let ghost dq = state_of(arena.nodes@, shared@);
        let ghost cs = children@;
        let ghost ns = binder_param_names@;
        let child = match parse_tree(reader, base, arena, shared) {
            Ok(c) => c,
            Err(e) => {
                proof {
                    assert(payload_at(s, base as int, q, end as int, lim, dq, binder, cs, ns) is None);
                }
                return Err(e);
            },
        };
        proof {
            assert(arena.nodes@.subrange(0, n0 as int) =~= nb.subrange(0, nb.len() as int).subrange(0, n0 as int));
            assert(nb.subrange(0, nb.len() as int) =~= nb);
            assert forall|j: int| 0 <= j < children@.len() implies (#[trigger] children@[j]).0 < arena.nodes@.len() by {}
            lemma_terminal_from_range(s, reader.at(), lim);
        }
        children.push(child);
        if binder && children.len() >= 2 && reader.pos() < end {
            let name_ref = match reader.read_nat() {
                Ok(v) => v,
                Err(e) => {
                    proof {
                        assert(payload_at(s, base as int, q, end as int, lim, dq, binder, cs, ns) is None);
                    }
                    return Err(e);
                },
            };
            binder_param_names.push(name_ref);
            proof {
                assert(arena.nodes@.subrange(0, arena.nodes@.len() as int) =~= arena.nodes@);
                lemma_shared_ok_grow(shared@, arena.nodes@, arena.nodes@, s, base as int, reader.at(), reader.at());
            }
        }
    }
    Ok((children, binder_param_names))
}

/// The records read one after another from `p` to `limit`, starting in
/// state `d`: the final state, or `None` when a record cannot be decoded.
pub open spec fn trees_from(s: Seq<u8>, base: int, p: int, limit: int, d: Decoding) -> Option<Decoding>
    decreases limit - p,
{
    if p >= limit {
        Some(d)
    } else {
        match tree_at(s, base, p, limit, d) {
            None => None,
            Some((d1, _, q)) => if p < q <= limit {
                trees_from(s, base, q, limit, d1)
            } else {
                None
            },
        }
    }
}

/// The state before any record: no node, no shared offset.
pub open spec fn empty_decoding() -> Decoding {
    Decoding { nodes: Seq::empty(), shared: Map::empty() }
}

/// Whether a section is too long for 32-bit offsets.
pub open spec fn too_large(at: int, limit: int) -> bool {
    at < limit && limit - at > 0xffff_ffff
}

/// Decodes tree records from the cursor to the reader's limit. Returns the
/// arena and the shared-reference map, which sends the offset of each record
/// (relative to the section start) to the node decoded from it; a shared
/// reference's own offset goes to the node it resolved to.
pub fn decode_trees(reader: &mut TastyReader<'_>) -> (r: Result<(TreeArena, HashMap<u32, NodeId>), TastyError>)
    requires
        old(reader).wf(),
    ensures
        final(reader).wf(),
        too_large(old(reader).at(), old(reader).limit()) ==> r is Err,
        !too_large(old(reader).at(), old(reader).limit()) ==> match trees_from(
            old(reader).buf(),
            old(reader).at(),
            old(reader).at(),
            old(reader).limit(),
            empty_decoding(),
        ) {
            Some(d) => r matches Ok((a, m)) && state_of(a.nodes@, m@) == d,
            None => r is Err,
        },
        r is Ok ==> {
            let (arena, m) = r->Ok_0;
            &&& arena.wf()
            &&& shared_ok(m@, arena.nodes@, old(reader).buf(), old(reader).at(), old(reader).limit())
            &&& old(reader).at() <= old(reader).limit() ==> arena.nodes@.len() <= old(reader).limit() - old(
                reader,
            ).at()
        },
{
    let base = reader.pos();
    let mut arena = TreeArena { nodes: Vec::new() };
    let mut shared: HashMap<u32, NodeId> = HashMap::new();
    proof {
        assert(node_models(arena.nodes@) =~= Seq::<NodeModel>::empty());
        assert(shared@ =~= Map::<u32, NodeId>::empty());
    }
    if reader.at_end() {
        return Ok((arena, shared));
    }
    if reader.end() - base > 0xffff_ffff {
        return Err(TastyError::SectionTooLarge { offset: base });
    }
    let ghost s = reader.buf();
    let ghost lim = reader.limit();
    while !reader.at_end()
        invariant
            reader.wf(),
            reader.buf() == s,
            reader.limit() == lim,
            s == old(reader).buf(),
            lim == old(reader).limit(),
            base == old(reader).at(),
            base <= reader.at() <= lim,
            lim - base <= 0xffff_ffff,
            decoding_ok(arena.nodes@, shared@, s, base as int, reader.at()),
            !too_large(base as int, lim),
            trees_from(s, base as int, base as int, lim, empty_decoding()) == trees_from(
                s,
                base as int,
                reader.at(),
                lim,
                state_of(arena.nodes@, shared@),
            ),
        decreases lim - reader.at(),
    {
        parse_tree(reader, base, &mut arena, &mut shared)?;
    }
    proof {
        assert(arena.nodes@.subrange(0, arena.nodes@.len() as int) =~= arena.nodes@);
        lemma_shared_ok_grow(shared@, arena.nodes@, arena.nodes@, s, base as int, reader.at(), lim);
    }
    Ok((arena, shared))
}

/// Decodes tree records from the cursor to the reader's limit into an
/// arena (see `decode_trees`).
pub fn parse_trees(reader: &mut TastyReader<'_>) -> (r: Result<TreeArena, TastyError>)
    requires
        old(reader).wf(),
    ensures
        final(reader).wf(),
        too_large(old(reader).at(), old(reader).limit()) ==> r is Err,
        !too_large(old(reader).at(), old(reader).limit()) ==> match trees_from(
            old(reader).buf(),
            old(reader).at(),
            old(reader).at(),
            old(reader).limit(),
            empty_decoding(),
        ) {
            Some(d) => r matches Ok(a) && node_models(a.nodes@) == d.nodes,
            None => r is Err,
        },
        r is Ok ==> r->Ok_0.wf(),
        r is Ok && old(reader).at() <= old(reader).limit() ==> r->Ok_0.nodes@.len() <= old(reader).limit()
            - old(reader).at(),
{
    let (arena, _) = decode_trees(reader)?;
    Ok(arena)
}

} // verus!
