//! The textual dump of a decoded TASTy file.
use vstd::prelude::*;

use crate::attributes::{attr_label, Attributes};
use crate::decimal::{decimal, push_decimal};
use crate::format::{tag_label, tag_name};
use crate::names::{name_text, NameModel, NameTable};
use crate::positions::Positions;
use crate::trees::{node_ok, NodeId, TreeArena, TreeNode};

verus! {

/// What a dump shows of a decoded file.
pub struct TastyPrinter<'a> {
    pub major: u64,
    pub minor: u64,
    pub experimental: u64,
    pub tooling: &'a str,
    pub uuid: &'a [u8],
    pub names: &'a NameTable,
    pub trees: Option<&'a TreeArena>,
    pub positions: Option<&'a Positions>,
    pub attributes: Option<&'a Attributes>,
}

/// `n` levels of two-space indentation.
pub open spec fn indent_text(n: nat) -> Seq<char>
    decreases n,
{
    if n == 0 {
        Seq::empty()
    } else {
        indent_text((n - 1) as nat) + "  "@
    }
}

/// The line of one node: its tag name and, when it carries a number, the
/// number and the name it references.
pub open spec fn node_line(n: TreeNode, ms: Seq<NameModel>, indent: nat) -> Seq<char> {
    indent_text(indent) + tag_label(n.tag)@ + match n.nat {
        Some(v) => " "@ + decimal(v as nat) + "[="@ + name_text(ms, (v as usize) as int) + "]"@,
        None => Seq::empty(),
    } + "\n"@
}

/// The dump of the subtree at `id`, one tag per line, children indented one
/// level deeper; a binder type shows its result, then each parameter's name
/// line followed by its type two levels deeper.
pub open spec fn tree_text(nodes: Seq<TreeNode>, ms: Seq<NameModel>, id: int, indent: nat) -> Seq<char>
    decreases id, 2int, 0int,
{
    if id < 0 || id >= nodes.len() {
        Seq::empty()
    } else {
        let n = nodes[id];
        node_line(n, ms, indent) + if n.binder_param_names@.len() == 0 {
            children_text(nodes, ms, id, n.children@, indent + 1)
        } else {
            let first = if n.children@.len() > 0 {
                sub_text(nodes, ms, id, n.children@[0], indent + 1)
            } else {
                Seq::empty()
            };
            first + binder_text(nodes, ms, id, n.binder_param_names@, n.children@, indent)
        }
    }
}

/// The subtree of child `c` of node `id`.
pub open spec fn sub_text(nodes: Seq<TreeNode>, ms: Seq<NameModel>, id: int, c: NodeId, indent: nat) -> Seq<char>
    decreases id, 1int, 0int,
{
    if (c.0 as int) < id {
        tree_text(nodes, ms, c.0 as int, indent)
    } else {
        Seq::empty()
    }
}

/// The subtrees of the children `cs` of node `id`, in order.
pub open spec fn children_text(
    nodes: Seq<TreeNode>,
    ms: Seq<NameModel>,
    id: int,
    cs: Seq<NodeId>,
    indent: nat,
) -> Seq<char>
    decreases id, 1int, cs.len(),
{
    if cs.len() == 0 {
        Seq::empty()
    } else {
        children_text(nodes, ms, id, cs.drop_last(), indent) + sub_text(nodes, ms, id, cs.last(), indent)
    }
}

/// The parameters of binder node `id`: for each name `pn[i]` whose type
/// `cs[i + 1]` exists, a `param` line and the type's subtree.
pub open spec fn binder_text(
    nodes: Seq<TreeNode>,
    ms: Seq<NameModel>,
    id: int,
    pn: Seq<u64>,
    cs: Seq<NodeId>,
    indent: nat,
) -> Seq<char>
    decreases id, 1int, pn.len(),
{
    if pn.len() == 0 {
        Seq::empty()
    } else {
        let i = pn.len() - 1;
        binder_text(nodes, ms, id, pn.drop_last(), cs, indent) + if i + 1 < cs.len() {
            indent_text(indent) + "  param "@ + name_text(ms, (pn[i] as usize) as int) + ":\n"@ + sub_text(
                nodes,
                ms,
                id,
                cs[i + 1],
                indent + 2,
            )
        } else {
            Seq::empty()
        }
    }
}

/// Whether node `i` is a child of some node.
pub open spec fn is_child(nodes: Seq<TreeNode>, i: int) -> bool {
    exists|n: int, j: int|
        0 <= n < nodes.len() && 0 <= j < nodes[n].children@.len() && #[trigger] nodes[n].children@[j].0 == i
}

/// The subtrees of the nodes among the first `k` that are no node's child.
pub open spec fn roots_text(nodes: Seq<TreeNode>, ms: Seq<NameModel>, k: int) -> Seq<char>
    decreases k,
{
    if k <= 0 {
        Seq::empty()
    } else {
        roots_text(nodes, ms, k - 1) + if !is_child(nodes, k - 1) {
            tree_text(nodes, ms, k - 1, 1)
        } else {
            Seq::empty()
        }
    }
}

/// A hexadecimal digit, lower case.
pub open spec fn hex_char(d: nat) -> char {
    if d < 10 {
        digit_of(d)
    } else if d == 10 {
        'a'
    } else if d == 11 {
        'b'
    } else if d == 12 {
        'c'
    } else if d == 13 {
        'd'
    } else if d == 14 {
        'e'
    } else {
        'f'
    }
}

/// A decimal digit.
pub open spec fn digit_of(d: nat) -> char {
    crate::decimal::digit_char(d)
}

/// Two lower-case hexadecimal digits per byte.
pub open spec fn hex_text(b: Seq<u8>) -> Seq<char>
    decreases b.len(),
{
    if b.len() == 0 {
        Seq::empty()
    } else {
        hex_text(b.drop_last()) + seq![hex_char((b.last() / 16) as nat), hex_char((b.last() % 16) as nat)]
    }
}

/// The header lines of a dump.
pub open spec fn header_text(major: u64, minor: u64, exp: u64, tooling: Seq<char>, uuid: Seq<u8>) -> Seq<char> {
    "TASTy file\n  version: "@ + decimal(major as nat) + "."@ + decimal(minor as nat) + "."@ + decimal(exp as nat)
        + "\n  tooling: "@ + tooling + "\n  uuid: "@ + hex_text(uuid) + "\n\n"@
}

/// The lines of the first `k` names.
pub open spec fn name_lines(ms: Seq<NameModel>, k: int) -> Seq<char>
    decreases k,
{
    if k <= 0 {
        Seq::empty()
    } else {
        name_lines(ms, k - 1) + "  ["@ + decimal((k - 1) as nat) + "]: "@ + name_text(ms, k - 1) + "\n"@
    }
}

/// The boolean attribute lines.
pub open spec fn flag_lines(tags: Seq<u8>) -> Seq<char>
    decreases tags.len(),
{
    if tags.len() == 0 {
        Seq::empty()
    } else {
        flag_lines(tags.drop_last()) + "  "@ + attr_label(tags.last())@ + "\n"@
    }
}

/// The name-valued attribute lines.
pub open spec fn named_attr_lines(ms: Seq<NameModel>, attrs: Seq<(u8, u32)>) -> Seq<char>
    decreases attrs.len(),
{
    if attrs.len() == 0 {
        Seq::empty()
    } else {
        named_attr_lines(ms, attrs.drop_last()) + "  "@ + attr_label(attrs.last().0)@ + " = \""@ + name_text(
            ms,
            attrs.last().1 as int,
        ) + "\"\n"@
    }
}

/// The tree section of a dump: the node count, then the subtree of each
/// node that is no node's child.
pub open spec fn trees_text(nodes: Seq<TreeNode>, ms: Seq<NameModel>) -> Seq<char> {
    "Trees ("@ + decimal(nodes.len()) + " nodes):\n"@ + roots_text(nodes, ms, nodes.len() as int) + "\n"@
}

/// The whole dump: the header, every name with its text, then the trees,
/// the attributes and the number of positions, for the sections present.
pub open spec fn dump_text(p: TastyPrinter) -> Seq<char> {
    let ms = p.names.models();
    header_text(p.major, p.minor, p.experimental, p.tooling@, p.uuid@) + "Names ("@ + decimal(
        p.names.entries@.len(),
    ) + " entries):\n"@ + name_lines(ms, p.names.entries@.len() as int) + "\n"@ + match p.trees {
        Some(t) => trees_text(t.nodes@, ms),
        None => Seq::empty(),
    } + match p.attributes {
        Some(a) => "Attributes:\n"@ + flag_lines(a.boolean_attrs@) + named_attr_lines(ms, a.utf8ref_attrs@) + "\n"@,
        None => Seq::empty(),
    } + match p.positions {
        Some(q) => "Positions ("@ + decimal(q.entries@.len()) + " entries)\n"@,
        None => Seq::empty(),
    }
}

fn hex_str(d: u8) -> (r: &'static str)
    requires
        d < 16,
    ensures
        r@ == seq![hex_char(d as nat)],
{
    proof {
        reveal_strlit("0");
        reveal_strlit("1");
        reveal_strlit("2");
        reveal_strlit("3");
        reveal_strlit("4");
        reveal_strlit("5");
        reveal_strlit("6");
        reveal_strlit("7");
        reveal_strlit("8");
        reveal_strlit("9");
        reveal_strlit("a");
        reveal_strlit("b");
        reveal_strlit("c");
        reveal_strlit("d");
        reveal_strlit("e");
        reveal_strlit("f");
    }
    match d {
        0 => "0",
        1 => "1",
        2 => "2",
        3 => "3",
        4 => "4",
        5 => "5",
        6 => "6",
        7 => "7",
        8 => "8",
        9 => "9",
        10 => "a",
        11 => "b",
        12 => "c",
        13 => "d",
        14 => "e",
        _ => "f",
    }
}

fn push_hex(out: &mut String, b: &[u8])
    ensures
        final(out)@ == old(out)@ + hex_text(b@),
{
    let ghost start = out@;
    let mut i: usize = 0;
    while i < b.len()
        invariant
            i <= b@.len(),
            out@ == start + hex_text(b@.subrange(0, i as int)),
        decreases b@.len() - i,
    {
        out.append(hex_str(b[i] / 16));
        out.append(hex_str(b[i] % 16));
        proof {
            let sub = b@.subrange(0, i + 1);
            assert(sub.drop_last() =~= b@.subrange(0, i as int));
            assert(out@ =~= start + hex_text(sub));
        }
        i = i + 1;
    }
    assert(b@.subrange(0, b@.len() as int) =~= b@);
}

/// For each node, whether it is some node's child.
fn child_marks(t: &TreeArena) -> (r: Vec<bool>)
    requires
        t.wf(),
    ensures
        r@.len() == t.nodes@.len(),
        forall|k: int| 0 <= k < t.nodes@.len() ==> r@[k] == is_child(t.nodes@, k),
{
    let n = t.nodes.len();
    let ghost nodes = t.nodes@;
    let mut marks: Vec<bool> = Vec::new();
    let mut i: usize = 0;
    while i < n
        invariant
            i <= n,
            n == nodes.len(),
            marks@.len() == i,
            forall|k: int| 0 <= k < i ==> !marks@[k],
        decreases n - i,
    {
        marks.push(false);
        i = i + 1;
    }
    let mut a: usize = 0;
    while a < n
        invariant
            t.wf(),
            nodes == t.nodes@,
            n == nodes.len(),
            a <= n,
            marks@.len() == n,
            forall|k: int|
                0 <= k < n ==> marks@[k] == exists|m: int, j: int|
                    0 <= m < a && 0 <= j < nodes[m].children@.len() && #[trigger] nodes[m].children@[j].0 == k,
        decreases n - a,
    {
        let cs = &t.nodes[a].children;
        let mut j: usize = 0;
        assert(node_ok(nodes[a as int], a as int));
        while j < cs.len()
            invariant
                t.wf(),
                nodes == t.nodes@,
                n == nodes.len(),
                a < n,
                cs == &nodes[a as int].children,
                node_ok(nodes[a as int], a as int),
                j <= cs@.len(),
                marks@.len() == n,
                forall|k: int|
                    0 <= k < n ==> marks@[k] == ((exists|m: int, x: int|
                        0 <= m < a && 0 <= x < nodes[m].children@.len() && #[trigger] nodes[m].children@[x].0 == k) || exists|x: int|
                        0 <= x < j && #[trigger] cs@[x].0 == k),
            decreases cs@.len() - j,
        {
            let c = cs[j].0 as usize;
            marks.set(c, true);
            j = j + 1;
        }
        proof {
            assert forall|k: int| 0 <= k < n implies marks@[k] == exists|m: int, x: int|
                0 <= m < a + 1 && 0 <= x < nodes[m].children@.len() && #[trigger] nodes[m].children@[x].0 == k by {
                if exists|x: int| 0 <= x < cs@.len() && #[trigger] cs@[x].0 == k {
                    let x = choose|x: int| 0 <= x < cs@.len() && #[trigger] cs@[x].0 == k;
                    assert(nodes[a as int].children@[x].0 == k);
                }
                if exists|m: int, x: int|
                    0 <= m < a + 1 && 0 <= x < nodes[m].children@.len() && #[trigger] nodes[m].children@[x].0 == k {
                    let (m, x) = choose|m: int, x: int|
                        0 <= m < a + 1 && 0 <= x < nodes[m].children@.len() && #[trigger] nodes[m].children@[x].0 == k;
                    if m == a {
                        assert(cs@[x].0 == k);
                    }
                }
            }
        }
        a = a + 1;
    }
    marks
}

fn push_indent(out: &mut String, n: u64)
    ensures
        final(out)@ == old(out)@ + indent_text(n as nat),
{
    let mut i: u64 = 0;
    let ghost start = out@;
    while i < n
        invariant
            i <= n,
            out@ == start + indent_text(i as nat),
        decreases n - i,
    {
        out.append("  ");
        proof {
            assert(out@ =~= start + indent_text((i + 1) as nat));
        }
        i = i + 1;
    }
}

impl<'a> TastyPrinter<'a> {
    /// The name texts of the table.
    pub open spec fn ms(&self) -> Seq<NameModel> {
        self.names.models()
    }

    fn push_tree(&self, out: &mut String, arena: &TreeArena, id: usize, indent: u64)
        requires
            arena.wf(),
            id < arena.nodes@.len(),
            indent + 2 * id + 2 < 0xffff_ffff_ffff_ffff,
        ensures
            final(out)@ == old(out)@ + tree_text(arena.nodes@, self.ms(), id as int, indent as nat),
        decreases id, 2int, 0int,
    {
        let ghost nodes = arena.nodes@;
        let node = &arena.nodes[id];
        assert(node_ok(nodes[id as int], id as int));
        push_indent(out, indent);
        out.append(tag_name(node.tag));
        match node.nat {
            Some(v) => {
                out.append(" ");
                push_decimal(out, v);
                out.append("[=");
                let t = self.names.display(v as usize);
                out.append(t.as_str());
                out.append("]");
            },
            None => {},
        }
        out.append("\n");
        let ghost after_line = out@;
        proof {
            assert(after_line =~= old(out)@ + node_line(nodes[id as int], self.ms(), indent as nat));
        }
        if node.binder_param_names.len() == 0 {
            self.push_children(out, arena, id, indent + 1);
        } else {
            if node.children.len() > 0 {
                self.push_sub(out, arena, id, node.children[0], indent + 1);
            }
            let ghost mid = out@;
            self.push_binder(out, arena, id, indent);
            proof {
                let n = nodes[id as int];
                let first = if n.children@.len() > 0 {
                    sub_text(nodes, self.ms(), id as int, n.children@[0], (indent + 1) as nat)
                } else {
                    Seq::empty()
                };
                assert(mid == after_line + first);
            }
        }
        proof {
            assert(out@ =~= old(out)@ + tree_text(nodes, self.ms(), id as int, indent as nat));
        }
    }

    fn push_sub(&self, out: &mut String, arena: &TreeArena, id: usize, c: NodeId, indent: u64)
        requires
            arena.wf(),
            id < arena.nodes@.len(),
            indent + 2 * id < 0xffff_ffff_ffff_ffff,
        ensures
            final(out)@ == old(out)@ + sub_text(arena.nodes@, self.ms(), id as int, c, indent as nat),
        decreases id, 1int, 0int,
    {
        if (c.0 as usize) < id {
            self.push_tree(out, arena, c.0 as usize, indent);
        } else {
            assert(out@ =~= old(out)@ + sub_text(arena.nodes@, self.ms(), id as int, c, indent as nat));
        }
    }

    fn push_children(&self, out: &mut String, arena: &TreeArena, id: usize, indent: u64)
        requires
            arena.wf(),
            id < arena.nodes@.len(),
            indent + 2 * id < 0xffff_ffff_ffff_ffff,
        ensures
            final(out)@ == old(out)@ + children_text(
                arena.nodes@,
                self.ms(),
                id as int,
                arena.nodes@[id as int].children@,
                indent as nat,
            ),
        decreases id, 1int, arena.nodes@[id as int].children@.len() + 1,
    {
        let cs = &arena.nodes[id].children;
        let ghost start = out@;
        let mut i: usize = 0;
        assert(cs@.subrange(0, 0) =~= Seq::<NodeId>::empty());
        while i < cs.len()
            invariant
                arena.wf(),
                id < arena.nodes@.len(),
                indent + 2 * id < 0xffff_ffff_ffff_ffff,
                cs == &arena.nodes@[id as int].children,
                i <= cs@.len(),
                out@ == start + children_text(arena.nodes@, self.ms(), id as int, cs@.subrange(0, i as int), indent as nat),
            decreases cs@.len() - i,
        {
            self.push_sub(out, arena, id, cs[i], indent);
            proof {
                assert(cs@.subrange(0, i + 1).drop_last() =~= cs@.subrange(0, i as int));
                assert(out@ =~= start + children_text(arena.nodes@, self.ms(), id as int, cs@.subrange(0, i + 1), indent as nat));
            }
            i = i + 1;
        }
        assert(cs@.subrange(0, cs@.len() as int) =~= cs@);
    }

    fn push_binder(&self, out: &mut String, arena: &TreeArena, id: usize, indent: u64)
        requires
            arena.wf(),
            id < arena.nodes@.len(),
            indent + 2 * id + 2 < 0xffff_ffff_ffff_ffff,
        ensures
            final(out)@ == old(out)@ + binder_text(
                arena.nodes@,
                self.ms(),
                id as int,
                arena.nodes@[id as int].binder_param_names@,
                arena.nodes@[id as int].children@,
                indent as nat,
            ),
        decreases id, 1int, arena.nodes@[id as int].binder_param_names@.len() + 1,
    {
        let node = &arena.nodes[id];
        let pn = &node.binder_param_names;
        let cs = &node.children;
        let ghost start = out@;
        let mut i: usize = 0;
        assert(pn@.subrange(0, 0) =~= Seq::<u64>::empty());
        while i < pn.len()
            invariant
                arena.wf(),
                id < arena.nodes@.len(),
                indent + 2 * id + 2 < 0xffff_ffff_ffff_ffff,
                pn == &arena.nodes@[id as int].binder_param_names,
                cs == &arena.nodes@[id as int].children,
                i <= pn@.len(),
                out@ == start + binder_text(arena.nodes@, self.ms(), id as int, pn@.subrange(0, i as int), cs@, indent as nat),
            decreases pn@.len() - i,
        {
            let ghost before = out@;
            if i + 1 < cs.len() {
                push_indent(out, indent);
                out.append("  param ");
                let t = self.names.display(pn[i] as usize);
                out.append(t.as_str());
                out.append(":\n");
                self.push_sub(out, arena, id, cs[i + 1], indent + 2);
            }
            proof {
                let sub = pn@.subrange(0, i + 1);
                assert(sub.drop_last() =~= pn@.subrange(0, i as int));
                assert(sub[i as int] == pn@[i as int]);
                assert(out@ =~= start + binder_text(arena.nodes@, self.ms(), id as int, sub, cs@, indent as nat));
            }
            i = i + 1;
        }
        assert(pn@.subrange(0, pn@.len() as int) =~= pn@);
    }

    fn push_header(&self, out: &mut String)
        ensures
            final(out)@ == old(out)@ + header_text(self.major, self.minor, self.experimental, self.tooling@, self.uuid@),
    {
        out.append("TASTy file\n  version: ");
        push_decimal(out, self.major);
        out.append(".");
        push_decimal(out, self.minor);
        out.append(".");
        push_decimal(out, self.experimental);
        out.append("\n  tooling: ");
        out.append(self.tooling);
        out.append("\n  uuid: ");
        push_hex(out, self.uuid);
        out.append("\n\n");
        assert(final(out)@ =~= old(out)@ + header_text(self.major, self.minor, self.experimental, self.tooling@, self.uuid@));
    }

    fn push_names(&self, out: &mut String)
        ensures
            final(out)@ == old(out)@ + "Names ("@ + decimal(self.names.entries@.len()) + " entries):\n"@ + name_lines(
                self.ms(),
                self.names.entries@.len() as int,
            ) + "\n"@,
    {
        let n = self.names.entries.len();
        out.append("Names (");
        push_decimal(out, n as u64);
        out.append(" entries):\n");
        let ghost names_start = out@;
        let mut i: usize = 0;
        while i < n
            invariant
                n == self.names.entries@.len(),
                i <= n,
                out@ == names_start + name_lines(self.ms(), i as int),
            decreases n - i,
        {
            out.append("  [");
            push_decimal(out, i as u64);
            out.append("]: ");
            let t = self.names.display(i);
            out.append(t.as_str());
            out.append("\n");
            proof {
                assert(out@ =~= names_start + name_lines(self.ms(), i + 1));
            }
            i = i + 1;
        }
        out.append("\n");
        assert(final(out)@ =~= old(out)@ + "Names ("@ + decimal(self.names.entries@.len()) + " entries):\n"@ + name_lines(
            self.ms(),
            self.names.entries@.len() as int,
        ) + "\n"@);
    }

    fn push_positions(&self, out: &mut String)
        ensures
            final(out)@ == old(out)@ + match self.positions {
                Some(q) => "Positions ("@ + decimal(q.entries@.len()) + " entries)\n"@,
                None => Seq::empty(),
            },
    {
        match self.positions {
            Some(p) => {
                out.append("Positions (");
                push_decimal(out, p.entries.len() as u64);
                out.append(" entries)\n");
                assert(final(out)@ =~= old(out)@ + "Positions ("@ + decimal(p.entries@.len()) + " entries)\n"@);
            },
            None => {
                assert(final(out)@ =~= old(out)@ + Seq::<char>::empty());
            },
        }
    }

    /// The full dump (see `dump_text`).
    pub fn render(&self) -> (r: String)
        requires
            self.trees matches Some(t) ==> t.wf() && t.nodes@.len() <= 0xffff_ffff,
        ensures
            r@ == dump_text(*self),
    {
        let mut out = String::new();
        self.push_header(&mut out);
        self.push_names(&mut out);
        let ghost a = out@;
        match self.trees {
            Some(t) => self.push_trees(&mut out, t),
            None => {},
        }
        let ghost b = out@;
        assert(b =~= a + match self.trees {
            Some(t) => trees_text(t.nodes@, self.ms()),
            None => Seq::empty(),
        });
        match self.attributes {
            Some(at) => self.push_attributes(&mut out, at),
            None => {},
        }
        let ghost c = out@;
        assert(c =~= b + match self.attributes {
            Some(at) => "Attributes:\n"@ + flag_lines(at.boolean_attrs@) + named_attr_lines(self.ms(), at.utf8ref_attrs@) + "\n"@,
            None => Seq::empty(),
        });
        self.push_positions(&mut out);
        assert(out@ =~= dump_text(*self));
        out
    }

    fn push_trees(&self, out: &mut String, t: &TreeArena)
        requires
            t.wf(),
            t.nodes@.len() <= 0xffff_ffff,
        ensures
            final(out)@ == old(out)@ + trees_text(t.nodes@, self.ms()),
    {
        let n = t.nodes.len();
        out.append("Trees (");
        push_decimal(out, n as u64);
        out.append(" nodes):\n");
        let ghost start = out@;
        let marks = child_marks(t);
        let mut i: usize = 0;
        while i < n
            invariant
                t.wf(),
                n == t.nodes@.len(),
                n <= 0xffff_ffff,
                marks@.len() == n,
                forall|k: int| 0 <= k < n ==> marks@[k] == is_child(t.nodes@, k),
                i <= n,
                out@ == start + roots_text(t.nodes@, self.ms(), i as int),
            decreases n - i,
        {
            if !marks[i] {
                self.push_tree(out, t, i, 1);
            }
            proof {
                assert(out@ =~= start + roots_text(t.nodes@, self.ms(), i + 1));
            }
            i = i + 1;
        }
        out.append("\n");
        proof {
            assert(final(out)@ =~= old(out)@ + trees_text(t.nodes@, self.ms()));
        }
    }

    fn push_attributes(&self, out: &mut String, a: &Attributes)
        ensures
            final(out)@ == old(out)@ + "Attributes:\n"@ + flag_lines(a.boolean_attrs@) + named_attr_lines(
                self.ms(),
                a.utf8ref_attrs@,
            ) + "\n"@,
    {
        out.append("Attributes:\n");
        let ghost start = out@;
        let mut i: usize = 0;
        while i < a.boolean_attrs.len()
            invariant
                i <= a.boolean_attrs@.len(),
                out@ == start + flag_lines(a.boolean_attrs@.subrange(0, i as int)),
            decreases a.boolean_attrs@.len() - i,
        {
            out.append("  ");
            out.append(Attributes::attr_name(a.boolean_attrs[i]));
            out.append("\n");
            proof {
                let sub = a.boolean_attrs@.subrange(0, i + 1);
                assert(sub.drop_last() =~= a.boolean_attrs@.subrange(0, i as int));
                assert(out@ =~= start + flag_lines(sub));
            }
            i = i + 1;
        }
        assert(a.boolean_attrs@.subrange(0, a.boolean_attrs@.len() as int) =~= a.boolean_attrs@);
        let ghost mid = out@;
        let mut j: usize = 0;
        while j < a.utf8ref_attrs.len()
            invariant
                j <= a.utf8ref_attrs@.len(),
                out@ == mid + named_attr_lines(self.ms(), a.utf8ref_attrs@.subrange(0, j as int)),
            decreases a.utf8ref_attrs@.len() - j,
        {
            let (tag, name_ref) = a.utf8ref_attrs[j];
            out.append("  ");
            out.append(Attributes::attr_name(tag));
            out.append(" = \"");
            let v = self.names.display(name_ref as usize);
            out.append(v.as_str());
            out.append("\"\n");
            proof {
                let sub = a.utf8ref_attrs@.subrange(0, j + 1);
                assert(sub.drop_last() =~= a.utf8ref_attrs@.subrange(0, j as int));
                assert(out@ =~= mid + named_attr_lines(self.ms(), sub));
            }
            j = j + 1;
        }
        assert(a.utf8ref_attrs@.subrange(0, a.utf8ref_attrs@.len() as int) =~= a.utf8ref_attrs@);
        out.append("\n");
        assert(final(out)@ =~= old(out)@ + "Attributes:\n"@ + flag_lines(a.boolean_attrs@) + named_attr_lines(
            self.ms(),
            a.utf8ref_attrs@,
        ) + "\n"@);
    }
}

} // verus!
