//! The Positions section: delta-encoded source spans of tree nodes.
use vstd::prelude::*;

use crate::error::TastyError;
use crate::names::prepend;
use crate::reader::{spec_nat, TastyReader};

verus! {

/// A source span: its start, end and point offsets.
#[derive(Debug, Clone, Copy, PartialEq, Eq)]
pub struct Position {
    pub start: i32,
    pub end: i32,
    pub point: i32,
}

/// The largest offset a position holds.
pub open spec fn max_offset() -> int {
    0x7fff_ffff
}

/// The record whose header is at `p`, given the running start `cur`: the
/// header's low bit says that an end offset follows, the next bit that a
/// point offset follows, and the rest is added to the running start. An
/// absent end or point equals the start. Returns the position and the
/// offset after the record; `None` on a short read or an offset out of range.
pub open spec fn record_at(s: Seq<u8>, p: int, limit: int, cur: int) -> Option<(Position, int)> {
    match spec_nat(s, p, limit) {
        None => None,
        Some((h, q)) => {
            let start = cur + h / 4;
            let e = if h % 2 == 1 { spec_nat(s, q, limit) } else { Some((0u64, q)) };
            match e {
                None => None,
                Some((de, q1)) => {
                    let pt = if (h / 2) % 2 == 1 { spec_nat(s, q1, limit) } else { Some((0u64, q1)) };
                    match pt {
                        None => None,
                        Some((dp, q2)) => if start + de > max_offset() || start + dp > max_offset() {
                            None
                        } else {
                            Some((Position { start: start as i32, end: (start + de) as i32, point: (start + dp) as i32 }, q2))
                        },
                    }
                },
            }
        },
    }
}

/// The positions read from `p` until the limit or a zero header.
pub open spec fn positions_from(s: Seq<u8>, p: int, limit: int, cur: int) -> Option<Seq<Position>>
    decreases limit - p,
{
    if p >= limit {
        Some(Seq::empty())
    } else {
        match spec_nat(s, p, limit) {
            None => None,
            Some((h, _)) => if h == 0 {
                Some(Seq::empty())
            } else {
                match record_at(s, p, limit, cur) {
                    None => None,
                    Some((pos, q)) => if p < q <= limit {
                        prepend(seq![pos], positions_from(s, q, limit, pos.start as int))
                    } else {
                        // not reached: a record takes at least one byte
                        None
                    },
                }
            },
        }
    }
}

/// The decoded Positions section.
#[derive(Debug)]
pub struct Positions {
    pub entries: Vec<Position>,
}

/// Reads a natural number as an offset no larger than `max_offset`.
fn read_offset(reader: &mut TastyReader<'_>) -> (r: Result<u64, TastyError>)
    requires
        old(reader).wf(),
    ensures
        final(reader).wf(),
        final(reader).buf() == old(reader).buf(),
        final(reader).limit() == old(reader).limit(),
        match spec_nat(old(reader).buf(), old(reader).at(), old(reader).limit()) {
            Some((v, q)) => r == Ok::<u64, TastyError>(v) && final(reader).at() == q
                && old(reader).at() < q <= old(reader).limit(),
            None => r is Err,
        },
{
    reader.read_nat()
}

/// Reads one record; `None` for the zero header that ends the section.
fn read_record(reader: &mut TastyReader<'_>, cur: i32) -> (r: Result<Option<Position>, TastyError>)
    requires
        old(reader).wf(),
        cur >= 0,
    ensures
        final(reader).wf(),
        final(reader).buf() == old(reader).buf(),
        final(reader).limit() == old(reader).limit(),
        match spec_nat(old(reader).buf(), old(reader).at(), old(reader).limit()) {
            None => r is Err,
            Some((h, _)) => if h == 0 {
                r == Ok::<Option<Position>, TastyError>(None)
            } else {
                match record_at(old(reader).buf(), old(reader).at(), old(reader).limit(), cur as int) {
                    Some((pos, q)) => r == Ok::<Option<Position>, TastyError>(Some(pos)) && final(reader).at() == q
                        && old(reader).at() < q <= old(reader).limit(),
                    None => r is Err,
                }
            },
        },
{
    let header = read_offset(reader)?;
    if header == 0 {
        return Ok(None);
    }
    let start: u64 = cur as u64 + header / 4;
    let de: u64 = if header % 2 == 1 {
        read_offset(reader)?
    } else {
        0
    };
    let dp: u64 = if (header / 2) % 2 == 1 {
        read_offset(reader)?
    } else {
        0
    };
    if start > 0x7fff_ffff || de > 0x7fff_ffff - start || dp > 0x7fff_ffff - start {
        return Err(TastyError::PositionOverflow { offset: reader.pos() });
    }
    Ok(Some(Position { start: start as i32, end: (start + de) as i32, point: (start + dp) as i32 }))
}

impl Positions {
    /// Decodes position records until the reader's limit or a zero header.
    /// Every decoded entry has its end and its point at or after its start.
    pub fn parse(reader: &mut TastyReader<'_>) -> (r: Result<Positions, TastyError>)
        requires
            old(reader).wf(),
        ensures
            final(reader).wf(),
            match positions_from(old(reader).buf(), old(reader).at(), old(reader).limit(), 0) {
                Some(ps) => r is Ok && r->Ok_0.entries@ == ps,
                None => r is Err,
            },
            r is Ok ==> forall|i: int|
                0 <= i < r->Ok_0.entries@.len() ==> {
                    let e = #[trigger] r->Ok_0.entries@[i];
                    0 <= e.start <= e.end && e.start <= e.point
                },
    {
        let ghost s = reader.buf();
        let ghost lim = reader.limit();
        let ghost p0 = reader.at();
        let mut entries: Vec<Position> = Vec::new();
        let mut cur: i32 = 0;
        assert(entries@ + Seq::<Position>::empty() =~= entries@);
        loop
            invariant_except_break
                positions_from(s, p0, lim, 0) == prepend(entries@, positions_from(s, reader.at(), lim, cur as int)),
            invariant
                reader.wf(),
                reader.buf() == s,
                reader.limit() == lim,
                s == old(reader).buf(),
                lim == old(reader).limit(),
                p0 == old(reader).at(),
                cur >= 0,
                forall|i: int|
                    0 <= i < entries@.len() ==> {
                        let e = #[trigger] entries@[i];
                        0 <= e.start <= e.end && e.start <= e.point
                    },
            ensures
                positions_from(s, p0, lim, 0) == Some(entries@),
            decreases lim - reader.at(),
        {
            let ghost p = reader.at();
            if reader.at_end() {
                assert(entries@ + Seq::<Position>::empty() =~= entries@);
                break;
            }
            let rec = read_record(reader, cur)?;
            match rec {
                None => {
                    assert(entries@ + Seq::<Position>::empty() =~= entries@);
                    break;
                },
                Some(pos) => {
                    proof {
                        let q = reader.at();
                        let rest = positions_from(s, q, lim, pos.start as int);
                        if let Some(b) = rest {
                            assert(entries@.push(pos) + b =~= entries@ + (seq![pos] + b));
                        }
                    }
                    entries.push(pos);
                    cur = pos.start;
                },
            }
        }
        Ok(Positions { entries })
    }
}

} // verus!
