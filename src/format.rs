//! Tag numbers of the TASTy tree section, their categories and names.
#![allow(non_upper_case_globals)]
use vstd::prelude::*;

verus! {

/// The four bytes that open every TASTy file.
pub const MAGIC: [u8; 4] = [0x5C, 0xA1, 0xAB, 0x1F];

pub const UNITconst: u8 = 2;
pub const FALSEconst: u8 = 3;
pub const TRUEconst: u8 = 4;
pub const NULLconst: u8 = 5;
pub const PRIVATE: u8 = 6;
pub const PROTECTED: u8 = 8;
pub const ABSTRACT: u8 = 9;
pub const FINAL: u8 = 10;
pub const SEALED: u8 = 11;
pub const CASE: u8 = 12;
pub const IMPLICIT: u8 = 13;
pub const LAZY: u8 = 14;
pub const OVERRIDE: u8 = 15;
pub const INLINEPROXY: u8 = 16;
pub const INLINE: u8 = 17;
pub const STATIC: u8 = 18;
pub const OBJECT: u8 = 19;
pub const TRAIT: u8 = 20;
pub const ENUM: u8 = 21;
pub const LOCAL: u8 = 22;
pub const SYNTHETIC: u8 = 23;
pub const ARTIFACT: u8 = 24;
pub const MUTABLE: u8 = 25;
pub const FIELDaccessor: u8 = 26;
pub const CASEaccessor: u8 = 27;
pub const COVARIANT: u8 = 28;
pub const CONTRAVARIANT: u8 = 29;
pub const HASDEFAULT: u8 = 31;
pub const STABLE: u8 = 32;
pub const MACRO: u8 = 33;
pub const ERASED: u8 = 34;
pub const OPAQUE: u8 = 35;
pub const EXTENSION: u8 = 36;
pub const GIVEN: u8 = 37;
pub const PARAMsetter: u8 = 38;
pub const EXPORTED: u8 = 39;
pub const OPEN: u8 = 40;
pub const PARAMalias: u8 = 41;
pub const TRANSPARENT: u8 = 42;
pub const INFIX: u8 = 43;
pub const INVISIBLE: u8 = 44;
pub const EMPTYCLAUSE: u8 = 45;
pub const SPLITCLAUSE: u8 = 46;
pub const TRACKED: u8 = 47;
pub const SUBMATCH: u8 = 48;
pub const INTO: u8 = 49;
pub const SHAREDterm: u8 = 60;
pub const SHAREDtype: u8 = 61;
pub const TERMREFdirect: u8 = 62;
pub const TYPEREFdirect: u8 = 63;
pub const TERMREFpkg: u8 = 64;
pub const TYPEREFpkg: u8 = 65;
pub const RECthis: u8 = 66;
pub const BYTEconst: u8 = 67;
pub const SHORTconst: u8 = 68;
pub const CHARconst: u8 = 69;
pub const INTconst: u8 = 70;
pub const LONGconst: u8 = 71;
pub const FLOATconst: u8 = 72;
pub const DOUBLEconst: u8 = 73;
pub const STRINGconst: u8 = 74;
pub const IMPORTED: u8 = 75;
pub const RENAMED: u8 = 76;
pub const THIS: u8 = 90;
pub const QUALTHIS: u8 = 91;
pub const CLASSconst: u8 = 92;
pub const BYNAMEtype: u8 = 93;
pub const BYNAMEtpt: u8 = 94;
pub const NEW: u8 = 95;
pub const THROW: u8 = 96;
pub const IMPLICITarg: u8 = 97;
pub const PRIVATEqualified: u8 = 98;
pub const PROTECTEDqualified: u8 = 99;
pub const RECtype: u8 = 100;
pub const SINGLETONtpt: u8 = 101;
pub const BOUNDED: u8 = 102;
pub const EXPLICITtpt: u8 = 103;
pub const ELIDED: u8 = 104;
pub const IDENT: u8 = 110;
pub const IDENTtpt: u8 = 111;
pub const SELECT: u8 = 112;
pub const SELECTtpt: u8 = 113;
pub const TERMREFsymbol: u8 = 114;
pub const TERMREF: u8 = 115;
pub const TYPEREFsymbol: u8 = 116;
pub const TYPEREF: u8 = 117;
pub const SELFDEF: u8 = 118;
pub const NAMEDARG: u8 = 119;
pub const PACKAGE: u8 = 128;
pub const VALDEF: u8 = 129;
pub const DEFDEF: u8 = 130;
pub const TYPEDEF: u8 = 131;
pub const IMPORT: u8 = 132;
pub const TYPEPARAM: u8 = 133;
pub const PARAM: u8 = 134;
pub const APPLY: u8 = 136;
pub const TYPEAPPLY: u8 = 137;
pub const TYPED: u8 = 138;
pub const ASSIGN: u8 = 139;
pub const BLOCK: u8 = 140;
pub const IF: u8 = 141;
pub const LAMBDA: u8 = 142;
pub const MATCH: u8 = 143;
pub const RETURN: u8 = 144;
pub const WHILE: u8 = 145;
pub const TRY: u8 = 146;
pub const INLINED: u8 = 147;
pub const SELECTouter: u8 = 148;
pub const REPEATED: u8 = 149;
pub const BIND: u8 = 150;
pub const ALTERNATIVE: u8 = 151;
pub const UNAPPLY: u8 = 152;
pub const ANNOTATEDtype: u8 = 153;
pub const ANNOTATEDtpt: u8 = 154;
pub const CASEDEF: u8 = 155;
pub const TEMPLATE: u8 = 156;
pub const SUPER: u8 = 157;
pub const SUPERtype: u8 = 158;
pub const REFINEDtype: u8 = 159;
pub const REFINEDtpt: u8 = 160;
pub const APPLIEDtype: u8 = 161;
pub const APPLIEDtpt: u8 = 162;
pub const TYPEBOUNDS: u8 = 163;
pub const TYPEBOUNDStpt: u8 = 164;
pub const ANDtype: u8 = 165;
pub const ORtype: u8 = 167;
pub const POLYtype: u8 = 169;
pub const TYPELAMBDAtype: u8 = 170;
pub const LAMBDAtpt: u8 = 171;
pub const PARAMtype: u8 = 172;
pub const ANNOTATION: u8 = 173;
pub const TERMREFin: u8 = 174;
pub const TYPEREFin: u8 = 175;
pub const SELECTin: u8 = 176;
pub const EXPORT: u8 = 177;
pub const QUOTE: u8 = 178;
pub const SPLICE: u8 = 179;
pub const METHODtype: u8 = 180;
pub const APPLYsigpoly: u8 = 181;
pub const QUOTEPATTERN: u8 = 182;
pub const SPLICEPATTERN: u8 = 183;
pub const MATCHtype: u8 = 190;
pub const MATCHtpt: u8 = 191;
pub const MATCHCASEtype: u8 = 192;
pub const FLEXIBLEtype: u8 = 193;
pub const HOLE: u8 = 255;
pub const FIRST_CAT1_TAG: u8 = 2;
pub const LAST_CAT1_TAG: u8 = 59;
pub const FIRST_CAT2_TAG: u8 = 60;
pub const LAST_CAT2_TAG: u8 = 89;
pub const FIRST_CAT3_TAG: u8 = 90;
pub const LAST_CAT3_TAG: u8 = 109;
pub const FIRST_CAT4_TAG: u8 = 110;
pub const LAST_CAT4_TAG: u8 = 127;
pub const FIRST_CAT5_TAG: u8 = 128;

/// The category of a tree tag, which decides how its record is laid out:
/// 1 tag alone, 2 tag and a natural number, 3 tag and one tree, 4 tag, a
/// natural number and one tree, 5 tag and a length-prefixed payload;
/// 0 for a tag outside every category.
pub open spec fn category_of(tag: u8) -> u8 {
    if 2 <= tag <= 59 {
        1
    } else if 60 <= tag <= 89 {
        2
    } else if 90 <= tag <= 109 {
        3
    } else if 110 <= tag <= 127 {
        4
    } else if 128 <= tag {
        5
    } else {
        0
    }
}

/// The category of a tree tag (see `category_of`).
pub fn ast_category(tag: u8) -> (r: u8)
    ensures
        r == category_of(tag),
{
    if FIRST_CAT1_TAG <= tag && tag <= LAST_CAT1_TAG {
        1
    } else if FIRST_CAT2_TAG <= tag && tag <= LAST_CAT2_TAG {
        2
    } else if FIRST_CAT3_TAG <= tag && tag <= LAST_CAT3_TAG {
        3
    } else if FIRST_CAT4_TAG <= tag && tag <= LAST_CAT4_TAG {
        4
    } else if FIRST_CAT5_TAG <= tag {
        5
    } else {
        0
    }
}

/// The display name of a tree tag; "UNKNOWN" for a number that names no tag.
pub open spec fn tag_label(tag: u8) -> &'static str {
    match tag {
        2 => "UNITconst",
        3 => "FALSEconst",
        4 => "TRUEconst",
        5 => "NULLconst",
        6 => "PRIVATE",
        8 => "PROTECTED",
        9 => "ABSTRACT",
        10 => "FINAL",
        11 => "SEALED",
        12 => "CASE",
        13 => "IMPLICIT",
        14 => "LAZY",
        15 => "OVERRIDE",
        16 => "INLINEPROXY",
        17 => "INLINE",
        18 => "STATIC",
        19 => "OBJECT",
        20 => "TRAIT",
        21 => "ENUM",
        22 => "LOCAL",
        23 => "SYNTHETIC",
        24 => "ARTIFACT",
        25 => "MUTABLE",
        26 => "FIELDaccessor",
        27 => "CASEaccessor",
        28 => "COVARIANT",
        29 => "CONTRAVARIANT",
        31 => "HASDEFAULT",
        32 => "STABLE",
        33 => "MACRO",
        34 => "ERASED",
        35 => "OPAQUE",
        36 => "EXTENSION",
        37 => "GIVEN",
        38 => "PARAMsetter",
        39 => "EXPORTED",
        40 => "OPEN",
        41 => "PARAMalias",
        42 => "TRANSPARENT",
        43 => "INFIX",
        44 => "INVISIBLE",
        45 => "EMPTYCLAUSE",
        46 => "SPLITCLAUSE",
        47 => "TRACKED",
        48 => "SUBMATCH",
        49 => "INTO",
        60 => "SHAREDterm",
        61 => "SHAREDtype",
        62 => "TERMREFdirect",
        63 => "TYPEREFdirect",
        64 => "TERMREFpkg",
        65 => "TYPEREFpkg",
        66 => "RECthis",
        67 => "BYTEconst",
        68 => "SHORTconst",
        69 => "CHARconst",
        70 => "INTconst",
        71 => "LONGconst",
        72 => "FLOATconst",
        73 => "DOUBLEconst",
        74 => "STRINGconst",
        75 => "IMPORTED",
        76 => "RENAMED",
        90 => "THIS",
        91 => "QUALTHIS",
        92 => "CLASSconst",
        93 => "BYNAMEtype",
        94 => "BYNAMEtpt",
        95 => "NEW",
        96 => "THROW",
        97 => "IMPLICITarg",
        98 => "PRIVATEqualified",
        99 => "PROTECTEDqualified",
        100 => "RECtype",
        101 => "SINGLETONtpt",
        102 => "BOUNDED",
        103 => "EXPLICITtpt",
        104 => "ELIDED",
        110 => "IDENT",
        111 => "IDENTtpt",
        112 => "SELECT",
        113 => "SELECTtpt",
        114 => "TERMREFsymbol",
        115 => "TERMREF",
        116 => "TYPEREFsymbol",
        117 => "TYPEREF",
        118 => "SELFDEF",
        119 => "NAMEDARG",
        128 => "PACKAGE",
        129 => "VALDEF",
        130 => "DEFDEF",
        131 => "TYPEDEF",
        132 => "IMPORT",
        133 => "TYPEPARAM",
        134 => "PARAM",
        136 => "APPLY",
        137 => "TYPEAPPLY",
        138 => "TYPED",
        139 => "ASSIGN",
        140 => "BLOCK",
        141 => "IF",
        142 => "LAMBDA",
        143 => "MATCH",
        144 => "RETURN",
        145 => "WHILE",
        146 => "TRY",
        147 => "INLINED",
        148 => "SELECTouter",
        149 => "REPEATED",
        150 => "BIND",
        151 => "ALTERNATIVE",
        152 => "UNAPPLY",
        153 => "ANNOTATEDtype",
        154 => "ANNOTATEDtpt",
        155 => "CASEDEF",
        156 => "TEMPLATE",
        157 => "SUPER",
        158 => "SUPERtype",
        159 => "REFINEDtype",
        160 => "REFINEDtpt",
        161 => "APPLIEDtype",
        162 => "APPLIEDtpt",
        163 => "TYPEBOUNDS",
        164 => "TYPEBOUNDStpt",
        165 => "ANDtype",
        167 => "ORtype",
        169 => "POLYtype",
        170 => "TYPELAMBDAtype",
        171 => "LAMBDAtpt",
        172 => "PARAMtype",
        173 => "ANNOTATION",
        174 => "TERMREFin",
        175 => "TYPEREFin",
        176 => "SELECTin",
        177 => "EXPORT",
        178 => "QUOTE",
        179 => "SPLICE",
        180 => "METHODtype",
        181 => "APPLYsigpoly",
        182 => "QUOTEPATTERN",
        183 => "SPLICEPATTERN",
        190 => "MATCHtype",
        191 => "MATCHtpt",
        192 => "MATCHCASEtype",
        193 => "FLEXIBLEtype",
        255 => "HOLE",
        _ => "UNKNOWN",
    }
}

/// The display name of a tree tag (see `tag_label`).
pub fn tag_name(tag: u8) -> (r: &'static str)
    ensures
        r@ == tag_label(tag)@,
{
    match tag {
        UNITconst => "UNITconst",
        FALSEconst => "FALSEconst",
        TRUEconst => "TRUEconst",
        NULLconst => "NULLconst",
        PRIVATE => "PRIVATE",
        PROTECTED => "PROTECTED",
        ABSTRACT => "ABSTRACT",
        FINAL => "FINAL",
        SEALED => "SEALED",
        CASE => "CASE",
        IMPLICIT => "IMPLICIT",
        LAZY => "LAZY",
        OVERRIDE => "OVERRIDE",
        INLINEPROXY => "INLINEPROXY",
        INLINE => "INLINE",
        STATIC => "STATIC",
        OBJECT => "OBJECT",
        TRAIT => "TRAIT",
        ENUM => "ENUM",
        LOCAL => "LOCAL",
        SYNTHETIC => "SYNTHETIC",
        ARTIFACT => "ARTIFACT",
        MUTABLE => "MUTABLE",
        FIELDaccessor => "FIELDaccessor",
        CASEaccessor => "CASEaccessor",
        COVARIANT => "COVARIANT",
        CONTRAVARIANT => "CONTRAVARIANT",
        HASDEFAULT => "HASDEFAULT",
        STABLE => "STABLE",
        MACRO => "MACRO",
        ERASED => "ERASED",
        OPAQUE => "OPAQUE",
        EXTENSION => "EXTENSION",
        GIVEN => "GIVEN",
        PARAMsetter => "PARAMsetter",
        EXPORTED => "EXPORTED",
        OPEN => "OPEN",
        PARAMalias => "PARAMalias",
        TRANSPARENT => "TRANSPARENT",
        INFIX => "INFIX",
        INVISIBLE => "INVISIBLE",
        EMPTYCLAUSE => "EMPTYCLAUSE",
        SPLITCLAUSE => "SPLITCLAUSE",
        TRACKED => "TRACKED",
        SUBMATCH => "SUBMATCH",
        INTO => "INTO",
        SHAREDterm => "SHAREDterm",
        SHAREDtype => "SHAREDtype",
        TERMREFdirect => "TERMREFdirect",
        TYPEREFdirect => "TYPEREFdirect",
        TERMREFpkg => "TERMREFpkg",
        TYPEREFpkg => "TYPEREFpkg",
        RECthis => "RECthis",
        BYTEconst => "BYTEconst",
        SHORTconst => "SHORTconst",
        CHARconst => "CHARconst",
        INTconst => "INTconst",
        LONGconst => "LONGconst",
        FLOATconst => "FLOATconst",
        DOUBLEconst => "DOUBLEconst",
        STRINGconst => "STRINGconst",
        IMPORTED => "IMPORTED",
        RENAMED => "RENAMED",
        THIS => "THIS",
        QUALTHIS => "QUALTHIS",
        CLASSconst => "CLASSconst",
        BYNAMEtype => "BYNAMEtype",
        BYNAMEtpt => "BYNAMEtpt",
        NEW => "NEW",
        THROW => "THROW",
        IMPLICITarg => "IMPLICITarg",
        PRIVATEqualified => "PRIVATEqualified",
        PROTECTEDqualified => "PROTECTEDqualified",
        RECtype => "RECtype",
        SINGLETONtpt => "SINGLETONtpt",
        BOUNDED => "BOUNDED",
        EXPLICITtpt => "EXPLICITtpt",
        ELIDED => "ELIDED",
        IDENT => "IDENT",
        IDENTtpt => "IDENTtpt",
        SELECT => "SELECT",
        SELECTtpt => "SELECTtpt",
        TERMREFsymbol => "TERMREFsymbol",
        TERMREF => "TERMREF",
        TYPEREFsymbol => "TYPEREFsymbol",
        TYPEREF => "TYPEREF",
        SELFDEF => "SELFDEF",
        NAMEDARG => "NAMEDARG",
        PACKAGE => "PACKAGE",
        VALDEF => "VALDEF",
        DEFDEF => "DEFDEF",
        TYPEDEF => "TYPEDEF",
        IMPORT => "IMPORT",
        TYPEPARAM => "TYPEPARAM",
        PARAM => "PARAM",
        APPLY => "APPLY",
        TYPEAPPLY => "TYPEAPPLY",
        TYPED => "TYPED",
        ASSIGN => "ASSIGN",
        BLOCK => "BLOCK",
        IF => "IF",
        LAMBDA => "LAMBDA",
        MATCH => "MATCH",
        RETURN => "RETURN",
        WHILE => "WHILE",
        TRY => "TRY",
        INLINED => "INLINED",
        SELECTouter => "SELECTouter",
        REPEATED => "REPEATED",
        BIND => "BIND",
        ALTERNATIVE => "ALTERNATIVE",
        UNAPPLY => "UNAPPLY",
        ANNOTATEDtype => "ANNOTATEDtype",
        ANNOTATEDtpt => "ANNOTATEDtpt",
        CASEDEF => "CASEDEF",
        TEMPLATE => "TEMPLATE",
        SUPER => "SUPER",
        SUPERtype => "SUPERtype",
        REFINEDtype => "REFINEDtype",
        REFINEDtpt => "REFINEDtpt",
        APPLIEDtype => "APPLIEDtype",
        APPLIEDtpt => "APPLIEDtpt",
        TYPEBOUNDS => "TYPEBOUNDS",
        TYPEBOUNDStpt => "TYPEBOUNDStpt",
        ANDtype => "ANDtype",
        ORtype => "ORtype",
        POLYtype => "POLYtype",
        TYPELAMBDAtype => "TYPELAMBDAtype",
        LAMBDAtpt => "LAMBDAtpt",
        PARAMtype => "PARAMtype",
        ANNOTATION => "ANNOTATION",
        TERMREFin => "TERMREFin",
        TYPEREFin => "TYPEREFin",
        SELECTin => "SELECTin",
        EXPORT => "EXPORT",
        QUOTE => "QUOTE",
        SPLICE => "SPLICE",
        METHODtype => "METHODtype",
        APPLYsigpoly => "APPLYsigpoly",
        QUOTEPATTERN => "QUOTEPATTERN",
        SPLICEPATTERN => "SPLICEPATTERN",
        MATCHtype => "MATCHtype",
        MATCHtpt => "MATCHtpt",
        MATCHCASEtype => "MATCHCASEtype",
        FLEXIBLEtype => "FLEXIBLEtype",
        HOLE => "HOLE",
        _ => "UNKNOWN",
    }
}

} // verus!
