//! The name table of a TASTy file: its entries, and the text each one stands for.
use vstd::prelude::*;
use vstd::utf8::{decode_utf8, valid_utf8};

use crate::decimal::{decimal, push_decimal};
use crate::error::TastyError;
use crate::reader::{lemma_terminal_from_range, spec_int, spec_nat, TastyReader};

verus! {

pub const UTF8: u8 = 1;
pub const QUALIFIED: u8 = 2;
pub const EXPANDED: u8 = 3;
pub const EXPANDPREFIX: u8 = 4;
pub const UNIQUE: u8 = 10;
pub const DEFAULTGETTER: u8 = 11;
pub const SUPERACCESSOR: u8 = 20;
pub const INLINEACCESSOR: u8 = 21;
pub const BODYRETAINER: u8 = 22;
pub const OBJECTCLASS: u8 = 23;
pub const SIGNED: u8 = 63;
pub const TARGETSIGNED: u8 = 62;

/// A reference to an entry of the name table, by index.
pub type NameRef = u32;

/// One entry of the name table.
#[derive(Debug)]
pub enum NameEntry {
    Utf8(String),
    Qualified(NameRef, NameRef),
    Expanded(NameRef, NameRef),
    ExpandPrefix(NameRef, NameRef),
    /// Separator, number, and the underlying name if there is one.
    Unique(NameRef, u32, Option<NameRef>),
    DefaultGetter(NameRef, u32),
    SuperAccessor(NameRef),
    InlineAccessor(NameRef),
    BodyRetainer(NameRef),
    ObjectClass(NameRef),
    /// Original name, result type name, and the parameter signature: a
    /// negative number is a type-parameter section of that length, negated;
    /// another is a reference to a parameter type's name.
    Signed(NameRef, NameRef, Vec<i64>),
    /// As `Signed`, with a target name before the result.
    TargetSigned(NameRef, NameRef, NameRef, Vec<i64>),
}

/// A name entry as mathematical values.
pub enum NameModel {
    Utf8(Seq<char>),
    Qualified(NameRef, NameRef),
    Expanded(NameRef, NameRef),
    ExpandPrefix(NameRef, NameRef),
    Unique(NameRef, u32, Option<NameRef>),
    DefaultGetter(NameRef, u32),
    SuperAccessor(NameRef),
    InlineAccessor(NameRef),
    BodyRetainer(NameRef),
    ObjectClass(NameRef),
    Signed(NameRef, NameRef, Seq<i64>),
    TargetSigned(NameRef, NameRef, NameRef, Seq<i64>),
}

impl NameEntry {
    pub open spec fn model(&self) -> NameModel {
        match self {
            NameEntry::Utf8(s) => NameModel::Utf8(s@),
            NameEntry::Qualified(a, b) => NameModel::Qualified(*a, *b),
            NameEntry::Expanded(a, b) => NameModel::Expanded(*a, *b),
            NameEntry::ExpandPrefix(a, b) => NameModel::ExpandPrefix(*a, *b),
            NameEntry::Unique(a, n, u) => NameModel::Unique(*a, *n, *u),
            NameEntry::DefaultGetter(a, n) => NameModel::DefaultGetter(*a, *n),
            NameEntry::SuperAccessor(a) => NameModel::SuperAccessor(*a),
            NameEntry::InlineAccessor(a) => NameModel::InlineAccessor(*a),
            NameEntry::BodyRetainer(a) => NameModel::BodyRetainer(*a),
            NameEntry::ObjectClass(a) => NameModel::ObjectClass(*a),
            NameEntry::Signed(a, b, p) => NameModel::Signed(*a, *b, p@),
            NameEntry::TargetSigned(a, t, b, p) => NameModel::TargetSigned(*a, *t, *b, p@),
        }
    }
}

/// `Some(a + b)` when `o` is `Some(b)`.
pub open spec fn prepend<T>(a: Seq<T>, o: Option<Seq<T>>) -> Option<Seq<T>> {
    match o {
        Some(b) => Some(a + b),
        None => None,
    }
}

/// The signed numbers read one after another from `p` while the offset is
/// below `end`; `None` when one of them cannot be read.
pub open spec fn ints_until(s: Seq<u8>, p: int, end: int, limit: int) -> Option<Seq<i64>>
    decreases end - p,
{
    if p >= end {
        Some(Seq::empty())
    } else {
        match spec_int(s, p, limit) {
            Some((v, q)) => if q >= end {
                Some(seq![v])
            } else if q > p {
                prepend(seq![v], ints_until(s, q, end, limit))
            } else {
                // not reached: a number takes at least one byte
                None
            },
            None => None,
        }
    }
}

/// The fields of a length-prefixed entry with tag `tag`, read from `q`;
/// the payload ends at `end`. `None` for an unknown tag or a short read.
pub open spec fn fields_at(tag: u8, s: Seq<u8>, q: int, end: int, limit: int) -> Option<NameModel> {
    match spec_nat(s, q, limit) {
        None => None,
        Some((a, q1)) => if tag == SUPERACCESSOR {
            Some(NameModel::SuperAccessor(a as u32))
        } else if tag == INLINEACCESSOR {
            Some(NameModel::InlineAccessor(a as u32))
        } else if tag == BODYRETAINER {
            Some(NameModel::BodyRetainer(a as u32))
        } else if tag == OBJECTCLASS {
            Some(NameModel::ObjectClass(a as u32))
        } else {
            match spec_nat(s, q1, limit) {
                None => None,
                Some((b, q2)) => if tag == QUALIFIED {
                    Some(NameModel::Qualified(a as u32, b as u32))
                } else if tag == EXPANDED {
                    Some(NameModel::Expanded(a as u32, b as u32))
                } else if tag == EXPANDPREFIX {
                    Some(NameModel::ExpandPrefix(a as u32, b as u32))
                } else if tag == DEFAULTGETTER {
                    Some(NameModel::DefaultGetter(a as u32, b as u32))
                } else if tag == UNIQUE {
                    if q2 < end {
                        match spec_nat(s, q2, limit) {
                            None => None,
                            Some((u, _)) => Some(NameModel::Unique(a as u32, b as u32, Some(u as u32))),
                        }
                    } else {
                        Some(NameModel::Unique(a as u32, b as u32, None))
                    }
                } else if tag == SIGNED {
                    match ints_until(s, q2, end, limit) {
                        None => None,
                        Some(ps) => Some(NameModel::Signed(a as u32, b as u32, ps)),
                    }
                } else if tag == TARGETSIGNED {
                    match spec_nat(s, q2, limit) {
                        None => None,
                        Some((c, q3)) => match ints_until(s, q3, end, limit) {
                            None => None,
                            Some(ps) => Some(NameModel::TargetSigned(a as u32, b as u32, c as u32, ps)),
                        },
                    }
                } else {
                    None
                },
            }
        },
    }
}

/// The entry whose tag byte is at `p`, and the offset of the next entry.
/// Every entry is a tag, a length and that many payload bytes; the next
/// entry starts after the payload, whatever the fields used of it.
pub open spec fn entry_at(s: Seq<u8>, p: int, limit: int) -> Option<(NameModel, int)> {
    if p >= limit {
        None
    } else {
        let tag = s[p];
        match spec_nat(s, p + 1, limit) {
            None => None,
            Some((len, q)) => if q + len > limit {
                None
            } else if tag == UTF8 {
                if valid_utf8(s.subrange(q, q + len)) {
                    Some((NameModel::Utf8(decode_utf8(s.subrange(q, q + len))), q + len))
                } else {
                    None
                }
            } else {
                match fields_at(tag, s, q, q + len, limit) {
                    Some(m) => Some((m, q + len)),
                    None => None,
                }
            },
        }
    }
}

/// The entries read one after another from `p` while the offset is below
/// `end`; `None` when one of them cannot be read.
pub open spec fn names_from(s: Seq<u8>, p: int, end: int, limit: int) -> Option<Seq<NameModel>>
    decreases end - p,
{
    if p >= end {
        Some(Seq::empty())
    } else {
        match entry_at(s, p, limit) {
            Some((m, q)) => if q >= end {
                Some(seq![m])
            } else if q > p {
                prepend(seq![m], names_from(s, q, end, limit))
            } else {
                // not reached: an entry takes at least two bytes
                None
            },
            None => None,
        }
    }
}

/// How a reference that names no earlier entry is shown.
pub open spec fn invalid_ref(r: int) -> Seq<char> {
    "<invalid name ref "@ + decimal(r as nat) + ">"@
}

/// The text of entry `idx`, built from the texts of the earlier entries it
/// references.
pub open spec fn name_text(ms: Seq<NameModel>, idx: int) -> Seq<char>
    decreases idx, 2int, 0int,
{
    if idx < 0 || idx >= ms.len() {
        invalid_ref(idx)
    } else {
        match ms[idx] {
            NameModel::Utf8(t) => t,
            NameModel::Qualified(a, b) => ref_text(ms, a as int, idx) + "."@ + ref_text(ms, b as int, idx),
            NameModel::Expanded(a, b) => ref_text(ms, a as int, idx) + "$$$"@ + ref_text(ms, b as int, idx),
            NameModel::ExpandPrefix(a, b) => ref_text(ms, a as int, idx) + "$$"@ + ref_text(ms, b as int, idx),
            NameModel::Unique(sep, num, u) => {
                let base = match u {
                    Some(u) => ref_text(ms, u as int, idx),
                    None => Seq::empty(),
                };
                base + ref_text(ms, sep as int, idx) + decimal(num as nat)
            },
            NameModel::DefaultGetter(n, i) => ref_text(ms, n as int, idx) + "$default$"@ + decimal(i as nat),
            NameModel::SuperAccessor(n) => "super$"@ + ref_text(ms, n as int, idx),
            NameModel::InlineAccessor(n) => "inline$"@ + ref_text(ms, n as int, idx),
            NameModel::BodyRetainer(n) => "bodyretainer$"@ + ref_text(ms, n as int, idx),
            NameModel::ObjectClass(n) => ref_text(ms, n as int, idx) + "$"@,
            NameModel::Signed(o, r, ps) => ref_text(ms, o as int, idx) + "("@ + params_text(ms, idx, ps)
                + "): "@ + ref_text(ms, r as int, idx),
            NameModel::TargetSigned(o, _, r, ps) => "@target "@ + ref_text(ms, o as int, idx) + "("@
                + params_text(ms, idx, ps) + "): "@ + ref_text(ms, r as int, idx),
        }
    }
}

/// The text of reference `r` made by entry `idx`: the referenced entry's
/// text when it comes earlier in the table.
pub open spec fn ref_text(ms: Seq<NameModel>, r: int, idx: int) -> Seq<char>
    decreases idx, 1int, 0int,
{
    if 0 <= r < idx {
        name_text(ms, r)
    } else {
        invalid_ref(r)
    }
}

/// The parameter signature of entry `idx`, separated by ", ": a negative
/// number `-n` shows as `[n]`, another as the name it references.
pub open spec fn params_text(ms: Seq<NameModel>, idx: int, ps: Seq<i64>) -> Seq<char>
    decreases idx, 1int, ps.len(),
{
    if ps.len() == 0 {
        Seq::empty()
    } else {
        let last = ps.last();
        let shown = if last < 0 {
            "["@ + decimal((-last) as nat) + "]"@
        } else {
            ref_text(ms, last as int, idx)
        };
        if ps.len() == 1 {
            shown
        } else {
            params_text(ms, idx, ps.drop_last()) + ", "@ + shown
        }
    }
}

/// The decoded name table.
pub struct NameTable {
    pub entries: Vec<NameEntry>,
}

proof fn lemma_prepend_assoc<T>(a: Seq<T>, v: T, o: Option<Seq<T>>)
    ensures
        prepend(a.push(v), o) == prepend(a, prepend(seq![v], o)),
{
    if let Some(b) = o {
        assert(a.push(v) + b =~= a + (seq![v] + b));
    }
}

/// Reads signed numbers while the offset is below `end`.
fn read_ints(reader: &mut TastyReader<'_>, end: usize) -> (r: Result<Vec<i64>, TastyError>)
    requires
        old(reader).wf(),
    ensures
        final(reader).wf(),
        final(reader).buf() == old(reader).buf(),
        final(reader).limit() == old(reader).limit(),
        match ints_until(old(reader).buf(), old(reader).at(), end as int, old(reader).limit()) {
            Some(v) => r is Ok && r->Ok_0@ == v,
            None => r is Err,
        },
{
    let ghost s = reader.buf();
    let ghost lim = reader.limit();
    let ghost p0 = reader.at();
    let mut params: Vec<i64> = Vec::new();
    assert(params@ + Seq::<i64>::empty() =~= params@);
    while reader.pos() < end
        invariant
            reader.wf(),
            reader.buf() == s,
            reader.limit() == lim,
            s == old(reader).buf(),
            lim == old(reader).limit(),
            p0 == old(reader).at(),
            ints_until(s, p0, end as int, lim) == prepend(params@, ints_until(s, reader.at(), end as int, lim)),
        decreases lim - reader.at(),
    {
        let ghost p = reader.at();
        proof {
            lemma_terminal_from_range(s, p, lim);
        }
        let v = reader.read_int()?;
        proof {
            let q = reader.at();
            lemma_prepend_assoc(params@, v, ints_until(s, q, end as int, lim));
            if q >= end {
                assert(seq![v] + Seq::<i64>::empty() =~= seq![v]);
            }
        }
        params.push(v);
    }
    proof {
        assert(params@ + Seq::<i64>::empty() =~= params@);
    }
    Ok(params)
}

/// Reads a natural number as a name reference (its low 32 bits).
fn read_ref(reader: &mut TastyReader<'_>) -> (r: Result<NameRef, TastyError>)
    requires
        old(reader).wf(),
    ensures
        final(reader).wf(),
        final(reader).buf() == old(reader).buf(),
        final(reader).limit() == old(reader).limit(),
        match spec_nat(old(reader).buf(), old(reader).at(), old(reader).limit()) {
            Some((v, q)) => r == Ok::<NameRef, TastyError>(v as u32) && final(reader).at() == q
                && old(reader).at() < q <= old(reader).limit(),
            None => r is Err,
        },
{
    let v = reader.read_nat()?;
    Ok(v as u32)
}

/// Reads the entry whose tag byte is at the cursor, and moves the cursor to
/// the next entry.
fn read_entry(reader: &mut TastyReader<'_>) -> (r: Result<NameEntry, TastyError>)
    requires
        old(reader).wf(),
    ensures
        final(reader).wf(),
        final(reader).buf() == old(reader).buf(),
        final(reader).limit() == old(reader).limit(),
        match entry_at(old(reader).buf(), old(reader).at(), old(reader).limit()) {
            Some((m, q)) => r is Ok && r->Ok_0.model() == m && final(reader).at() == q,
            None => r is Err,
        },
{
    let tag = reader.read_byte()?;
    let len = reader.read_nat()?;
    let q = reader.pos();
    if len > (reader.end() - q) as u64 {
        return Err(TastyError::UnexpectedEnd { offset: reader.end() });
    }
    let end = q + len as usize;
    let entry = if tag == UTF8 {
        let text = reader.read_utf8(len as usize)?;
        NameEntry::Utf8(text.to_string())
    } else if tag == SUPERACCESSOR {
        NameEntry::SuperAccessor(read_ref(reader)?)
    } else if tag == INLINEACCESSOR {
        NameEntry::InlineAccessor(read_ref(reader)?)
    } else if tag == BODYRETAINER {
        NameEntry::BodyRetainer(read_ref(reader)?)
    } else if tag == OBJECTCLASS {
        NameEntry::ObjectClass(read_ref(reader)?)
    } else if tag == QUALIFIED || tag == EXPANDED || tag == EXPANDPREFIX || tag == DEFAULTGETTER
        || tag == UNIQUE || tag == SIGNED || tag == TARGETSIGNED {
        let a = read_ref(reader)?;
        let b = read_ref(reader)?;
        if tag == QUALIFIED {
            NameEntry::Qualified(a, b)
        } else if tag == EXPANDED {
            NameEntry::Expanded(a, b)
        } else if tag == EXPANDPREFIX {
            NameEntry::ExpandPrefix(a, b)
        } else if tag == DEFAULTGETTER {
            NameEntry::DefaultGetter(a, b)
        } else if tag == UNIQUE {
            let underlying = if reader.pos() < end {
                Some(read_ref(reader)?)
            } else {
                None
            };
            NameEntry::Unique(a, b, underlying)
        } else if tag == SIGNED {
            let params = read_ints(reader, end)?;
            NameEntry::Signed(a, b, params)
        } else {
            let c = read_ref(reader)?;
            let params = read_ints(reader, end)?;
            NameEntry::TargetSigned(a, b, c, params)
        }
    } else {
        return Err(TastyError::UnknownNameTag { tag, offset: q });
    };
    reader.set_pos(end);
    Ok(entry)
}

/// Appends how reference `r` shows when it names no earlier entry.
fn push_invalid(out: &mut String, r: u64)
    ensures
        final(out)@ == old(out)@ + invalid_ref(r as int),
{
    out.append("<invalid name ref ");
    push_decimal(out, r);
    out.append(">");
    assert(final(out)@ =~= old(out)@ + invalid_ref(r as int));
}

impl NameTable {
    /// The entries as mathematical values.
    pub open spec fn models(&self) -> Seq<NameModel> {
        self.entries@.map_values(|e: NameEntry| e.model())
    }

    /// Decodes a name table: a natural-number byte length, then entries
    /// until that many bytes are used. On success the cursor stands at the
    /// end that the length gives.
    pub fn parse(reader: &mut TastyReader<'_>) -> (r: Result<NameTable, TastyError>)
        requires
            old(reader).wf(),
        ensures
            final(reader).wf(),
            final(reader).buf() == old(reader).buf(),
            final(reader).limit() == old(reader).limit(),
            match spec_nat(old(reader).buf(), old(reader).at(), old(reader).limit()) {
                Some((len, q)) => if q + len > old(reader).limit() {
                    r is Err
                } else {
                    match names_from(old(reader).buf(), q, q + len, old(reader).limit()) {
                        Some(ms) => r is Ok && r->Ok_0.models() == ms && final(reader).at() == q + len,
                        None => r is Err,
                    }
                },
                None => r is Err,
            },
    {
        let len = reader.read_nat()?;
        let q = reader.pos();
        if len > (reader.end() - q) as u64 {
            return Err(TastyError::UnexpectedEnd { offset: reader.end() });
        }
        let table_end = q + len as usize;
        let ghost s = reader.buf();
        let ghost lim = reader.limit();
        let mut entries: Vec<NameEntry> = Vec::new();
        proof {
            assert(entries@.map_values(|e: NameEntry| e.model()) + Seq::<NameModel>::empty()
                =~= entries@.map_values(|e: NameEntry| e.model()));
        }
        while reader.pos() < table_end
            invariant
                reader.wf(),
                reader.buf() == s,
                reader.limit() == lim,
                s == old(reader).buf(),
                lim == old(reader).limit(),
                table_end == q + len,
                table_end <= lim,
                spec_nat(s, old(reader).at(), lim) == Some((len, q as int)),
                names_from(s, q as int, table_end as int, lim) == prepend(
                    entries@.map_values(|e: NameEntry| e.model()),
                    names_from(s, reader.at(), table_end as int, lim),
                ),
            decreases lim - reader.at(),
        {
            let ghost p = reader.at();
            proof {
                lemma_terminal_from_range(s, p + 1, lim);
                assert(entry_at(s, p, lim) is None ==> names_from(s, p, table_end as int, lim) is None);
                assert(entry_at(s, p, lim) is None ==> names_from(s, q as int, table_end as int, lim) is None);
            }
            let e = read_entry(reader)?;
            proof {
                let nq = reader.at();
                let old_ms = entries@.map_values(|e: NameEntry| e.model());
                lemma_prepend_assoc(old_ms, e.model(), names_from(s, nq, table_end as int, lim));
                if nq >= table_end {
                    assert(seq![e.model()] + Seq::<NameModel>::empty() =~= seq![e.model()]);
                }
            }
            entries.push(e);
            proof {
                assert(entries@.map_values(|e: NameEntry| e.model()) =~= {
                    let old_ms = entries@.drop_last().map_values(|e: NameEntry| e.model());
                    old_ms.push(entries@.last().model())
                });
            }
        }
        proof {
            assert(entries@.map_values(|e: NameEntry| e.model()) + Seq::<NameModel>::empty()
                =~= entries@.map_values(|e: NameEntry| e.model()));
        }
        reader.set_pos(table_end);
        Ok(NameTable { entries })
    }

    /// The text of entry `idx` (see `name_text`).
    pub fn display(&self, idx: usize) -> (r: String)
        ensures
            r@ == name_text(self.models(), idx as int),
        decreases idx, 2int, 0int,
    {
        let ghost ms = self.models();
        if idx >= self.entries.len() {
            let mut out = String::new();
            push_invalid(&mut out, idx as u64);
            return out;
        }
        let mut out = String::new();
        match &self.entries[idx] {
            NameEntry::Utf8(t) => {
                out.append(t.as_str());
            },
            NameEntry::Qualified(a, b) => {
                self.push_ref(&mut out, *a as u64, idx);
                out.append(".");
                self.push_ref(&mut out, *b as u64, idx);
            },
            NameEntry::Expanded(a, b) => {
                self.push_ref(&mut out, *a as u64, idx);
                out.append("$$$");
                self.push_ref(&mut out, *b as u64, idx);
            },
            NameEntry::ExpandPrefix(a, b) => {
                self.push_ref(&mut out, *a as u64, idx);
                out.append("$$");
                self.push_ref(&mut out, *b as u64, idx);
            },
            NameEntry::Unique(sep, num, u) => {
                if let Some(u) = u {
                    self.push_ref(&mut out, *u as u64, idx);
                }
                self.push_ref(&mut out, *sep as u64, idx);
                push_decimal(&mut out, *num as u64);
            },
            NameEntry::DefaultGetter(n, i) => {
                self.push_ref(&mut out, *n as u64, idx);
                out.append("$default$");
                push_decimal(&mut out, *i as u64);
            },
            NameEntry::SuperAccessor(n) => {
                out.append("super$");
                self.push_ref(&mut out, *n as u64, idx);
            },
            NameEntry::InlineAccessor(n) => {
                out.append("inline$");
                self.push_ref(&mut out, *n as u64, idx);
            },
            NameEntry::BodyRetainer(n) => {
                out.append("bodyretainer$");
                self.push_ref(&mut out, *n as u64, idx);
            },
            NameEntry::ObjectClass(n) => {
                self.push_ref(&mut out, *n as u64, idx);
                out.append("$");
            },
            NameEntry::Signed(o, r, ps) => {
                self.push_ref(&mut out, *o as u64, idx);
                out.append("(");
                self.push_params(&mut out, idx, ps);
                out.append("): ");
                self.push_ref(&mut out, *r as u64, idx);
            },
            NameEntry::TargetSigned(o, _, r, ps) => {
                out.append("@target ");
                self.push_ref(&mut out, *o as u64, idx);
                out.append("(");
                self.push_params(&mut out, idx, ps);
                out.append("): ");
                self.push_ref(&mut out, *r as u64, idx);
            },
        }
        proof {
            assert(self.entries@[idx as int].model() == ms[idx as int]);
            assert(out@ =~= name_text(ms, idx as int));
        }
        out
    }

    /// Appends the text of reference `r` made by entry `idx`.
    fn push_ref(&self, out: &mut String, r: u64, idx: usize)
        ensures
            final(out)@ == old(out)@ + ref_text(self.models(), r as int, idx as int),
        decreases idx, 1int, 0int,
    {
        if r < idx as u64 {
            let t = self.display(r as usize);
            out.append(t.as_str());
        } else {
            push_invalid(out, r);
        }
    }

    /// Appends the parameter signature of entry `idx`.
    fn push_params(&self, out: &mut String, idx: usize, ps: &Vec<i64>)
        ensures
            final(out)@ == old(out)@ + params_text(self.models(), idx as int, ps@),
        decreases idx, 1int, ps@.len(),
    {
        let ghost ms = self.models();
        let ghost start = out@;
        let mut i: usize = 0;
        while i < ps.len()
            invariant
                i <= ps@.len(),
                ms == self.models(),
                out@ == start + params_text(ms, idx as int, ps@.subrange(0, i as int)),
            decreases ps@.len() - i,
        {
            let ghost before = out@;
            let p = ps[i];
            if i > 0 {
                out.append(", ");
            }
            if p < 0 {
                out.append("[");
                let n: u64 = if p == i64::MIN {
                    0x8000_0000_0000_0000
                } else {
                    (-p) as u64
                };
                push_decimal(out, n);
                out.append("]");
            } else {
                self.push_ref(out, p as u64, idx);
            }
            proof {
                let sub = ps@.subrange(0, i + 1);
                assert(sub.drop_last() =~= ps@.subrange(0, i as int));
                assert(sub.last() == p);
                assert(out@ =~= start + params_text(ms, idx as int, sub));
            }
            i = i + 1;
        }
        assert(ps@.subrange(0, ps@.len() as int) =~= ps@);
    }
}

} // verus!
