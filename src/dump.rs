//! A whole TASTy file: its header, name table and known sections, and the
//! textual dump of them.
use vstd::prelude::*;
use vstd::utf8::{decode_utf8, valid_utf8};

use crate::attributes::{attrs_from, Attributes};
use crate::error::TastyError;
use crate::format::MAGIC;
use crate::names::{name_text, names_from, NameModel, NameTable};
use crate::positions::{positions_from, Position, Positions};
use crate::reader::{lemma_terminal_from_range, spec_nat, TastyReader};
use crate::text::text_eq;
use crate::trees::{empty_decoding, node_models, parse_trees, too_large, trees_from, NodeModel, TreeArena};

verus! {

/// Whether `s` starts with the four TASTy magic bytes.
pub open spec fn has_magic(s: Seq<u8>) -> bool {
    s.len() >= 4 && s[0] == 0x5Cu8 && s[1] == 0xA1u8 && s[2] == 0xABu8 && s[3] == 0x1Fu8
}

/// The header after the magic: the major, minor and experimental version
/// numbers, the tooling string, the 16-byte UUID, and the offset of the
/// name table; `None` when it cannot be read.
pub open spec fn header_of(s: Seq<u8>) -> Option<(u64, u64, u64, Seq<char>, Seq<u8>, int)> {
    let lim = s.len() as int;
    match spec_nat(s, 4, lim) {
        None => None,
        Some((major, q1)) => match spec_nat(s, q1, lim) {
            None => None,
            Some((minor, q2)) => match spec_nat(s, q2, lim) {
                None => None,
                Some((exp, q3)) => match spec_nat(s, q3, lim) {
                    None => None,
                    Some((n, q4)) => if q4 + n > lim || !valid_utf8(s.subrange(q4, q4 + n)) {
                        None
                    } else if q4 + n + 16 > lim {
                        None
                    } else {
                        Some((major, minor, exp, decode_utf8(s.subrange(q4, q4 + n)), s.subrange(q4 + n, q4 + n + 16), q4 + n + 16))
                    },
                },
            },
        },
    }
}

/// The name table that starts at offset `p`.
pub open spec fn table_at(s: Seq<u8>, p: int) -> Option<Seq<NameModel>> {
    match spec_nat(s, p, s.len() as int) {
        None => None,
        Some((len, q)) => if q + len > s.len() {
            None
        } else {
            names_from(s, q, q + len, s.len() as int)
        },
    }
}

/// The known sections decoded so far: the tree nodes, the positions, and
/// the boolean and name-valued attributes; a later section of a kind
/// replaces an earlier one.
pub struct Sections {
    pub trees: Option<Seq<NodeModel>>,
    pub positions: Option<Seq<Position>>,
    pub attributes: Option<(Seq<u8>, Seq<(u8, u32)>)>,
}

/// The sections from offset `p` to the end of `s`, each a name reference,
/// a length and a payload, named through the table `ms`, decoded into
/// `acc`; `None` when one cannot be read or decoded.
pub open spec fn sections_from(s: Seq<u8>, p: int, ms: Seq<NameModel>, acc: Sections) -> Option<Sections>
    decreases s.len() - p,
{
    let lim = s.len() as int;
    if p >= lim {
        Some(acc)
    } else {
        match spec_nat(s, p, lim) {
            None => None,
            Some((r, q1)) => match spec_nat(s, q1, lim) {
                None => None,
                Some((len, q2)) => if q2 + len > lim || !(p < q2 <= lim) {
                    None
                } else {
                    let end = q2 + len;
                    let name = name_text(ms, (r as usize) as int);
                    let next = if name == "ASTs"@ {
                        if too_large(q2, end) {
                            None
                        } else {
                            match trees_from(s, q2, q2, end, empty_decoding()) {
                                Some(d) => Some(Sections { trees: Some(d.nodes), ..acc }),
                                None => None,
                            }
                        }
                    } else if name == "Positions"@ {
                        match positions_from(s, q2, end, 0) {
                            Some(ps) => Some(Sections { positions: Some(ps), ..acc }),
                            None => None,
                        }
                    } else if name == "Attributes"@ {
                        match attrs_from(s, q2, end) {
                            Some(a) => Some(Sections { attributes: Some(a), ..acc }),
                            None => None,
                        }
                    } else {
                        Some(acc)
                    };
                    match next {
                        Some(a) => sections_from(s, end, ms, a),
                        None => None,
                    }
                },
            },
        }
    }
}

/// No section decoded yet.
pub open spec fn no_sections() -> Sections {
    Sections { trees: None, positions: None, attributes: None }
}

/// The sections that a decoded file holds.
pub open spec fn sections_of(
    trees: Option<TreeArena>,
    positions: Option<Positions>,
    attributes: Option<Attributes>,
) -> Sections {
    Sections {
        trees: match trees {
            Some(t) => Some(node_models(t.nodes@)),
            None => None,
        },
        positions: match positions {
            Some(p) => Some(p.entries@),
            None => None,
        },
        attributes: match attributes {
            Some(a) => Some((a.boolean_attrs@, a.utf8ref_attrs@)),
            None => None,
        },
    }
}

/// The offset just after the name table that starts at `p`.
pub open spec fn table_end(s: Seq<u8>, p: int) -> int {
    match spec_nat(s, p, s.len() as int) {
        Some((len, q)) => q + len,
        None => p,
    }
}

/// A decoded TASTy file.
pub struct TastyFile {
    pub major: u64,
    pub minor: u64,
    pub experimental: u64,
    pub tooling: String,
    pub uuid: Vec<u8>,
    pub names: NameTable,
    pub trees: Option<TreeArena>,
    pub positions: Option<Positions>,
    pub attributes: Option<Attributes>,
}

/// Which known section a section name selects.
enum SectionKind {
    Trees,
    Positions,
    Attributes,
    Other,
}

fn section_kind(name: &str) -> (k: SectionKind)
    ensures
        k is Trees <==> name@ == "ASTs"@,
        k is Positions <==> name@ == "Positions"@ && name@ != "ASTs"@,
        k is Attributes <==> name@ == "Attributes"@ && name@ != "ASTs"@ && name@ != "Positions"@,
{
    if text_eq(name, "ASTs") {
        SectionKind::Trees
    } else if text_eq(name, "Positions") {
        SectionKind::Positions
    } else if text_eq(name, "Attributes") {
        SectionKind::Attributes
    } else {
        SectionKind::Other
    }
}

/// Decodes the sections from the cursor to the end (see `sections_from`).
fn read_sections(r: &mut TastyReader<'_>, names: &NameTable) -> (res: Result<
    (Option<TreeArena>, Option<Positions>, Option<Attributes>),
    TastyError,
>)
    requires
        old(r).wf(),
        old(r).limit() == old(r).buf().len(),
    ensures
        match sections_from(old(r).buf(), old(r).at(), names.models(), no_sections()) {
            Some(secs) => res matches Ok((t, p, a)) && sections_of(t, p, a) == secs,
            None => res is Err,
        },
        res matches Ok((t, p, a)) ==> {
            &&& t matches Some(tt) ==> tt.wf()
            &&& p matches Some(pp) ==> forall|i: int|
                0 <= i < pp.entries@.len() ==> {
                    let e = #[trigger] pp.entries@[i];
                    0 <= e.start <= e.end && e.start <= e.point
                }
        },
{
    let ghost s = r.buf();
    let ghost p0 = r.at();
    let mut trees: Option<TreeArena> = None;
    let mut positions: Option<Positions> = None;
    let mut attributes: Option<Attributes> = None;
    proof {
        assert(sections_of(trees, positions, attributes) == no_sections());
    }
    while !r.at_end()
        invariant
            r.wf(),
            r.buf() == s,
            r.limit() == s.len(),
            s == old(r).buf(),
            p0 == old(r).at(),
            sections_from(s, p0, names.models(), no_sections()) == sections_from(
                s,
                r.at(),
                names.models(),
                sections_of(trees, positions, attributes),
            ),
            trees matches Some(t) ==> t.wf(),
            positions matches Some(p) ==> forall|i: int|
                0 <= i < p.entries@.len() ==> {
                    let e = #[trigger] p.entries@[i];
                    0 <= e.start <= e.end && e.start <= e.point
                },
        decreases s.len() - r.at(),
    {
        let ghost p = r.at();
        let ghost acc = sections_of(trees, positions, attributes);
        proof {
            lemma_terminal_from_range(s, r.at(), s.len() as int);
        }
        let name_ref = r.read_nat()?;
        proof {
            lemma_terminal_from_range(s, r.at(), s.len() as int);
        }
        let len = r.read_nat()?;
        let here = r.pos();
        if len > (r.end() - here) as u64 {
            return Err(TastyError::UnexpectedEnd { offset: r.end() });
        }
        let section_end = here + len as usize;
        let name = names.display(name_ref as usize);
        match section_kind(name.as_str()) {
            SectionKind::Trees => {
                let mut sub = r.sub_reader(here, section_end);
                let t = match parse_trees(&mut sub) {
                    Ok(t) => t,
                    Err(e) => {
                        proof {
                            assert(sections_from(s, p, names.models(), acc) is None);
                        }
                        return Err(e);
                    },
                };
                trees = Some(t);
            },
            SectionKind::Positions => {
                let mut sub = r.sub_reader(here, section_end);
                let ps = match Positions::parse(&mut sub) {
                    Ok(ps) => ps,
                    Err(e) => {
                        proof {
                            assert(sections_from(s, p, names.models(), acc) is None);
                        }
                        return Err(e);
                    },
                };
                positions = Some(ps);
            },
            SectionKind::Attributes => {
                let mut sub = r.sub_reader(here, section_end);
                let a = match Attributes::parse(&mut sub) {
                    Ok(a) => a,
                    Err(e) => {
                        proof {
                            assert(sections_from(s, p, names.models(), acc) is None);
                        }
                        return Err(e);
                    },
                };
                attributes = Some(a);
            },
            SectionKind::Other => {},
        }
        r.set_pos(section_end);
        proof {
            assert(sections_from(s, p, names.models(), acc) == sections_from(
                s,
                r.at(),
                names.models(),
                sections_of(trees, positions, attributes),
            ));
        }
    }
    Ok((trees, positions, attributes))
}

/// Decodes a TASTy file: the magic bytes, the header, the name table, then
/// sections of a name reference, a length and a payload up to the end. The
/// sections named "ASTs", "Positions" and "Attributes" are decoded; others
/// are skipped.
pub fn read_tasty(data: &[u8]) -> (r: Result<TastyFile, TastyError>)
    ensures
        data@.len() < 4 ==> r == Err::<TastyFile, TastyError>(TastyError::TooSmall { offset: 0 }),
        data@.len() >= 4 && !has_magic(data@) ==> r == Err::<TastyFile, TastyError>(
            TastyError::BadMagic { offset: 0 },
        ),
        has_magic(data@) && header_of(data@) is None ==> r is Err,
        has_magic(data@) && header_of(data@) is Some && table_at(data@, header_of(data@)->Some_0.5) is None ==> r is Err,
        has_magic(data@) && header_of(data@) is Some && table_at(data@, header_of(data@)->Some_0.5) is Some ==> match sections_from(
            data@,
            table_end(data@, header_of(data@)->Some_0.5),
            table_at(data@, header_of(data@)->Some_0.5)->Some_0,
            no_sections(),
        ) {
            Some(secs) => r matches Ok(f) && sections_of(f.trees, f.positions, f.attributes) == secs,
            None => r is Err,
        },
        r is Ok ==> {
            let f = r->Ok_0;
            &&& has_magic(data@)
            &&& header_of(data@) == Some((f.major, f.minor, f.experimental, f.tooling@, f.uuid@, header_of(data@)->Some_0.5))
            &&& table_at(data@, header_of(data@)->Some_0.5) == Some(f.names.models())
            &&& f.trees matches Some(t) ==> t.wf()
            &&& f.positions matches Some(p) ==> forall|i: int|
                0 <= i < p.entries@.len() ==> {
                    let e = #[trigger] p.entries@[i];
                    0 <= e.start <= e.end && e.start <= e.point
                }
        },
{
    if data.len() < 4 {
        return Err(TastyError::TooSmall { offset: 0 });
    }
    if data[0] != MAGIC[0] || data[1] != MAGIC[1] || data[2] != MAGIC[2] || data[3] != MAGIC[3] {
        return Err(TastyError::BadMagic { offset: 0 });
    }
    let mut r = TastyReader::new(data);
    r.set_pos(4);
    let ghost s = data@;
    proof {
        lemma_terminal_from_range(s, 4, s.len() as int);
    }
    let major = r.read_nat()?;
    proof {
        lemma_terminal_from_range(s, r.at(), s.len() as int);
    }
    let minor = r.read_nat()?;
    proof {
        lemma_terminal_from_range(s, r.at(), s.len() as int);
    }
    let experimental = r.read_nat()?;
    proof {
        lemma_terminal_from_range(s, r.at(), s.len() as int);
    }
    let tooling_len = r.read_nat()?;
    if tooling_len > (r.end() - r.pos()) as u64 {
        return Err(TastyError::UnexpectedEnd { offset: r.end() });
    }
    let tooling = r.read_utf8(tooling_len as usize)?;
    let uuid = r.read_bytes(16)?;
    let ghost q = r.at();
    let names = NameTable::parse(&mut r)?;
    let (trees, positions, attributes) = read_sections(&mut r, &names)?;
    Ok(TastyFile {
        major,
        minor,
        experimental,
        tooling: String::from_str(tooling),
        uuid: vstd::slice::slice_to_vec(uuid),
        names,
        trees,
        positions,
        attributes,
    })
}

} // verus!
