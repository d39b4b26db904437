//! The Attributes section: flags and name-valued attributes of a TASTy file.
use vstd::prelude::*;

use crate::error::TastyError;
use crate::reader::{lemma_terminal_from_range, spec_nat, TastyReader};

verus! {

/// The decoded Attributes section.
#[derive(Debug)]
pub struct Attributes {
    /// Tags of the boolean attributes, in order.
    pub boolean_attrs: Vec<u8>,
    /// Tags of the name-valued attributes with their name references, in order.
    pub utf8ref_attrs: Vec<(u8, u32)>,
}

/// Whether `tag` is a boolean attribute (tag alone).
pub open spec fn is_boolean_attr(tag: u8) -> bool {
    1 <= tag <= 32
}

/// Whether `tag` is a name-valued attribute (tag and name reference).
pub open spec fn is_name_attr(tag: u8) -> bool {
    129 <= tag <= 160
}

/// The attributes read from `p` to the limit: the boolean tags and the
/// name-valued pairs. Other tags stand alone and are skipped.
pub open spec fn attrs_from(s: Seq<u8>, p: int, limit: int) -> Option<(Seq<u8>, Seq<(u8, u32)>)>
    decreases limit - p,
{
    if p >= limit {
        Some((Seq::empty(), Seq::empty()))
    } else {
        let tag = s[p];
        if is_name_attr(tag) {
            match spec_nat(s, p + 1, limit) {
                None => None,
                Some((v, q)) => if p < q <= limit {
                    match attrs_from(s, q, limit) {
                        Some((b, n)) => Some((b, seq![(tag, v as u32)] + n)),
                        None => None,
                    }
                } else {
                    // not reached: a number takes at least one byte
                    None
                },
            }
        } else {
            match attrs_from(s, p + 1, limit) {
                Some((b, n)) => if is_boolean_attr(tag) {
                    Some((seq![tag] + b, n))
                } else {
                    Some((b, n))
                },
                None => None,
            }
        }
    }
}

/// The display name of an attribute tag; "UNKNOWN" for one without a name.
pub open spec fn attr_label(tag: u8) -> &'static str {
    match tag {
        1 => "SCALA2STANDARDLIBRARYattr",
        2 => "EXPLICITNULLSattr",
        3 => "CAPTURECHECKEDattr",
        4 => "WITHPUREFUNSattr",
        5 => "JAVAattr",
        6 => "OUTLINEattr",
        129 => "SOURCEFILEattr",
        _ => "UNKNOWN",
    }
}

impl Attributes {
    /// Decodes attribute records up to the reader's limit.
    pub fn parse(reader: &mut TastyReader<'_>) -> (r: Result<Attributes, TastyError>)
        requires
            old(reader).wf(),
        ensures
            final(reader).wf(),
            match attrs_from(old(reader).buf(), old(reader).at(), old(reader).limit()) {
                Some((b, n)) => r is Ok && r->Ok_0.boolean_attrs@ == b && r->Ok_0.utf8ref_attrs@ == n,
                None => r is Err,
            },
    {
        let ghost s = reader.buf();
        let ghost lim = reader.limit();
        let ghost p0 = reader.at();
        let mut boolean_attrs: Vec<u8> = Vec::new();
        let mut utf8ref_attrs: Vec<(u8, u32)> = Vec::new();
        while !reader.at_end()
            invariant
                reader.wf(),
                reader.buf() == s,
                reader.limit() == lim,
                s == old(reader).buf(),
                lim == old(reader).limit(),
                p0 == old(reader).at(),
                attrs_from(s, p0, lim) == match attrs_from(s, reader.at(), lim) {
                    Some((b, n)) => Some((boolean_attrs@ + b, utf8ref_attrs@ + n)),
                    None => None,
                },
            decreases lim - reader.at(),
        {
            let ghost p = reader.at();
            proof {
                lemma_terminal_from_range(s, p + 1, lim);
            }
            let tag = reader.read_byte()?;
            if 129 <= tag && tag <= 160 {
                let v = reader.read_nat()?;
                proof {
                    if let Some((b, n)) = attrs_from(s, reader.at(), lim) {
                        assert(utf8ref_attrs@.push((tag, v as u32)) + n =~= utf8ref_attrs@ + (seq![(tag, v as u32)] + n));
                    }
                }
                utf8ref_attrs.push((tag, v as u32));
            } else if 1 <= tag && tag <= 32 {
                proof {
                    if let Some((b, n)) = attrs_from(s, reader.at(), lim) {
                        assert(boolean_attrs@.push(tag) + b =~= boolean_attrs@ + (seq![tag] + b));
                    }
                }
                boolean_attrs.push(tag);
            }
        }
        proof {
            assert(boolean_attrs@ + Seq::<u8>::empty() =~= boolean_attrs@);
            assert(utf8ref_attrs@ + Seq::<(u8, u32)>::empty() =~= utf8ref_attrs@);
        }
        Ok(Attributes { boolean_attrs, utf8ref_attrs })
    }

    /// The display name of an attribute tag (see `attr_label`).
    pub fn attr_name(tag: u8) -> (r: &'static str)
        ensures
            r@ == attr_label(tag)@,
    {
        match tag {
            1 => "SCALA2STANDARDLIBRARYattr",
            2 => "EXPLICITNULLSattr",
            3 => "CAPTURECHECKEDattr",
            4 => "WITHPUREFUNSattr",
            5 => "JAVAattr",
            6 => "OUTLINEattr",
            129 => "SOURCEFILEattr",
            _ => "UNKNOWN",
        }
    }
}

} // verus!
