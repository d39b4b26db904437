use sb::attributes::Attributes;
use sb::dump::read_tasty;
use sb::error::TastyError;
use sb::format::{ast_category, tag_name};
use sb::names::{NameEntry, NameTable};
use sb::positions::{Position, Positions};
use sb::printer::TastyPrinter;
use sb::reader::TastyReader;
use sb::trees::{decode_trees, parse_trees, NodeId};

fn utf8_entry(s: &str) -> Vec<u8> {
    let mut v = vec![1u8, 0x80 | s.len() as u8];
    v.extend_from_slice(s.as_bytes());
    v
}

fn table(entries: &[Vec<u8>]) -> Vec<u8> {
    let body: Vec<u8> = entries.concat();
    let mut v = vec![0x80 | body.len() as u8];
    v.extend(body);
    v
}

#[test]
fn nat_single_terminal_byte() {
    let data = [0x85u8];
    let mut r = TastyReader::new(&data);
    assert_eq!(r.read_nat(), Ok(5));
    assert!(r.at_end());
}

#[test]
fn nat_two_bytes_big_endian() {
    let data = [0x01u8, 0x80, 0x03, 0xff];
    let mut r = TastyReader::new(&data);
    assert_eq!(r.read_nat(), Ok(128));
    assert_eq!(r.read_nat(), Ok(3 * 128 + 127));
    assert_eq!(r.pos(), 4);
}

#[test]
fn nat_truncated_reports_offset() {
    let data = [0x01u8, 0x02];
    let mut r = TastyReader::new(&data);
    assert_eq!(r.read_nat(), Err(TastyError::UnexpectedEnd { offset: 2 }));
}

#[test]
fn int_sign_extends() {
    let data = [0xffu8, 0xc0, 0x81, 0x7f, 0x80];
    let mut r = TastyReader::new(&data);
    assert_eq!(r.read_int(), Ok(-1));
    assert_eq!(r.read_int(), Ok(-64));
    assert_eq!(r.read_int(), Ok(1));
    assert_eq!(r.read_int(), Ok(-128));
}

#[test]
fn uncompressed_long_is_big_endian() {
    let data = [0u8, 0, 0, 0, 0, 0, 1, 2, 0xff, 0xff, 0xff, 0xff, 0xff, 0xff, 0xff, 0xfe];
    let mut r = TastyReader::new(&data);
    assert_eq!(r.read_uncompressed_long(), Ok(258));
    assert_eq!(r.read_uncompressed_long(), Ok(-2));
}

#[test]
fn utf8_valid_and_invalid() {
    let data = [b'h', b'i', 0xff, 0xfe];
    let mut r = TastyReader::new(&data);
    assert_eq!(r.read_utf8(2), Ok("hi"));
    assert_eq!(r.read_utf8(2), Err(TastyError::InvalidUtf8 { offset: 4 }));
}

#[test]
fn read_bytes_short() {
    let data = [1u8, 2, 3];
    let mut r = TastyReader::new(&data);
    assert_eq!(r.read_bytes(2), Ok(&data[0..2]));
    assert_eq!(r.read_bytes(2), Err(TastyError::UnexpectedEnd { offset: 2 }));
    let sub = r.sub_reader(1, 2);
    assert_eq!(sub.remaining(), 1);
}

#[test]
fn categories_of_tags() {
    assert_eq!(ast_category(1), 0);
    assert_eq!(ast_category(2), 1);
    assert_eq!(ast_category(60), 2);
    assert_eq!(ast_category(90), 3);
    assert_eq!(ast_category(127), 4);
    assert_eq!(ast_category(128), 5);
    assert_eq!(ast_category(255), 5);
    assert_eq!(tag_name(131), "TYPEDEF");
    assert_eq!(tag_name(12), "CASE");
    assert_eq!(tag_name(1), "UNKNOWN");
}

#[test]
fn names_reconstruct_qualified_and_object() {
    let data = table(&[
        utf8_entry("java"),
        utf8_entry("lang"),
        vec![2, 0x82, 0x80, 0x81],
        vec![23, 0x81, 0x80],
        utf8_entry("Object"),
        vec![2, 0x82, 0x82, 0x84],
    ]);
    let mut r = TastyReader::new(&data);
    let t = NameTable::parse(&mut r).unwrap();
    assert_eq!(t.entries.len(), 6);
    assert!(r.at_end());
    assert_eq!(t.display(2), "java.lang");
    assert_eq!(t.display(3), "java$");
    assert_eq!(t.display(5), "java.lang.Object");
    assert_eq!(t.display(9), "<invalid name ref 9>");
}

#[test]
fn names_signed_and_default_getter() {
    let data = table(&[
        utf8_entry("f"),
        utf8_entry("Int"),
        vec![63, 0x84, 0x80, 0x81, 0xfe, 0x81],
        vec![11, 0x82, 0x80, 0x83],
        vec![10, 0x83, 0x81, 0x87, 0x80],
    ]);
    let mut r = TastyReader::new(&data);
    let t = NameTable::parse(&mut r).unwrap();
    assert_eq!(t.display(2), "f([2], Int): Int");
    assert_eq!(t.display(3), "f$default$3");
    assert_eq!(t.display(4), "fInt7");
    match &t.entries[2] {
        NameEntry::Signed(o, res, ps) => {
            assert_eq!((*o, *res), (0, 1));
            assert_eq!(ps, &vec![-2, 1]);
        }
        _ => panic!("expected a signed name"),
    }
}

#[test]
fn names_unknown_tag_fails() {
    let data = table(&[vec![99, 0x80]]);
    let mut r = TastyReader::new(&data);
    assert!(matches!(NameTable::parse(&mut r), Err(TastyError::UnknownNameTag { tag: 99, .. })));
}

#[test]
fn names_length_locates_next_entry() {
    // a qualified entry with a trailing field this reader does not know
    let data = table(&[utf8_entry("a"), utf8_entry("b"), vec![2, 0x83, 0x80, 0x81, 0x85], utf8_entry("c")]);
    let mut r = TastyReader::new(&data);
    let t = NameTable::parse(&mut r).unwrap();
    assert_eq!(t.entries.len(), 4);
    assert_eq!(t.display(2), "a.b");
    assert_eq!(t.display(3), "c");
}

#[test]
fn trees_typedef_with_modifiers() {
    let data = [131u8, 0x83, 0x81, 12, 10, 19];
    let mut r = TastyReader::new(&data);
    let arena = parse_trees(&mut r).unwrap();
    assert_eq!(arena.nodes.len(), 4);
    let td = arena.get(NodeId(2));
    assert_eq!(td.tag, 131);
    assert_eq!(td.nat, Some(1));
    assert_eq!(td.children, vec![NodeId(0), NodeId(1)]);
    assert_eq!(arena.get(NodeId(3)).tag, 19);
}

#[test]
fn trees_shared_reference_resolves() {
    let data = [2u8, 60, 0x80, 61, 0x81];
    let mut r = TastyReader::new(&data);
    let (arena, shared) = decode_trees(&mut r).unwrap();
    assert_eq!(arena.nodes.len(), 1);
    assert_eq!(shared.get(&0), Some(&NodeId(0)));
    assert_eq!(shared.get(&1), Some(&NodeId(0)));
    assert_eq!(shared.get(&3), Some(&NodeId(0)));
}

#[test]
fn trees_shared_reference_past_position_fails() {
    let data = [2u8, 60, 0x85, 4];
    let mut r = TastyReader::new(&data);
    assert_eq!(parse_trees(&mut r).err(), Some(TastyError::DanglingShared { target: 5, offset: 1 }));
}

#[test]
fn trees_truncated_record_reports_offset() {
    let data = [112u8, 0x81];
    let mut r = TastyReader::new(&data);
    assert_eq!(parse_trees(&mut r).err(), Some(TastyError::UnexpectedEnd { offset: 2 }));
}

#[test]
fn trees_unknown_tag_fails() {
    let data = [1u8];
    let mut r = TastyReader::new(&data);
    assert_eq!(parse_trees(&mut r).err(), Some(TastyError::UnknownTreeTag { tag: 1, offset: 0 }));
}

#[test]
fn trees_binder_pairs_names() {
    // METHODtype: result, then a parameter type and its name
    let data = [180u8, 0x83, 2, 3, 0x85];
    let mut r = TastyReader::new(&data);
    let arena = parse_trees(&mut r).unwrap();
    let m = arena.get(NodeId(2));
    assert_eq!(m.children, vec![NodeId(0), NodeId(1)]);
    assert_eq!(m.binder_param_names, vec![5]);
}

#[test]
fn positions_delta_records() {
    let data = [0x87u8, 0x82, 0x81, 0x88, 0x80, 0x85];
    let mut r = TastyReader::new(&data);
    let p = Positions::parse(&mut r).unwrap();
    assert_eq!(p.entries, vec![
        Position { start: 1, end: 3, point: 2 },
        Position { start: 3, end: 3, point: 3 },
    ]);
    for e in &p.entries {
        assert!(e.start <= e.end && e.start <= e.point);
    }
}

#[test]
fn positions_truncated_fails() {
    let data = [0x87u8, 0x82];
    let mut r = TastyReader::new(&data);
    assert!(Positions::parse(&mut r).is_err());
}

#[test]
fn attributes_flags_and_names() {
    let data = [1u8, 5, 40, 129, 0x84, 200];
    let mut r = TastyReader::new(&data);
    let a = Attributes::parse(&mut r).unwrap();
    assert_eq!(a.boolean_attrs, vec![1, 5]);
    assert_eq!(a.utf8ref_attrs, vec![(129, 4)]);
    assert_eq!(Attributes::attr_name(129), "SOURCEFILEattr");
    assert_eq!(Attributes::attr_name(7), "UNKNOWN");
}

fn point_file() -> Vec<u8> {
    let mut v = vec![0x5C, 0xA1, 0xAB, 0x1F, 0x9C, 0x86, 0x80, 0x8B];
    v.extend_from_slice(b"Scala 3.6.4");
    v.extend((0u8..16).collect::<Vec<u8>>());
    v.extend(table(&[
        utf8_entry("ASTs"),
        utf8_entry("Point"),
        utf8_entry("Positions"),
        utf8_entry("Attributes"),
        utf8_entry("Point.scala"),
        vec![23, 0x81, 0x81],
    ]));
    v.extend([0x80, 0x85, 131, 0x83, 0x81, 12, 10]);
    v.extend([0x82, 0x84, 0x87, 0x82, 0x81, 0x80]);
    v.extend([0x83, 0x82, 129, 0x84]);
    v.extend([0x81, 0x81, 0xff]);
    v
}

#[test]
fn tasty_file_decodes_sections() {
    let data = point_file();
    let f = read_tasty(&data).unwrap();
    assert_eq!((f.major, f.minor, f.experimental), (28, 6, 0));
    assert_eq!(f.tooling, "Scala 3.6.4");
    assert_eq!(f.uuid, (0u8..16).collect::<Vec<u8>>());
    assert_eq!(f.names.display(1), "Point");
    assert_eq!(f.names.display(5), "Point$");
    let trees = f.trees.as_ref().unwrap();
    assert_eq!(trees.nodes.len(), 3);
    assert_eq!(f.positions.as_ref().unwrap().entries.len(), 1);
    let attrs = f.attributes.as_ref().unwrap();
    assert_eq!(f.names.display(attrs.utf8ref_attrs[0].1 as usize), "Point.scala");
}

#[test]
fn tasty_render_shows_everything() {
    let data = point_file();
    let f = read_tasty(&data).unwrap();
    let p = TastyPrinter {
        major: f.major,
        minor: f.minor,
        experimental: f.experimental,
        tooling: &f.tooling,
        uuid: &f.uuid,
        names: &f.names,
        trees: f.trees.as_ref(),
        positions: f.positions.as_ref(),
        attributes: f.attributes.as_ref(),
    };
    let text = p.render();
    assert!(text.starts_with("TASTy file\n  version: 28.6.0\n  tooling: Scala 3.6.4\n"));
    assert!(text.contains("  uuid: 000102030405060708090a0b0c0d0e0f\n"));
    assert!(text.contains("Names (6 entries):\n  [0]: ASTs\n  [1]: Point\n"));
    assert!(text.contains("  [5]: Point$\n"));
    assert!(text.contains("Trees (3 nodes):\n  TYPEDEF 1[=Point]\n    CASE\n    FINAL\n"));
    assert!(text.contains("Attributes:\n  SOURCEFILEattr = \"Point.scala\"\n"));
    assert!(text.ends_with("Positions (1 entries)\n"));
}

#[test]
fn tasty_too_small_and_bad_magic() {
    assert_eq!(read_tasty(&[0x5C, 0xA1]).err(), Some(TastyError::TooSmall { offset: 0 }));
    assert_eq!(read_tasty(&[1, 2, 3, 4, 5]).err(), Some(TastyError::BadMagic { offset: 0 }));
}

#[test]
fn tasty_truncated_header_fails() {
    let data = point_file();
    let cut = &data[..20];
    assert!(read_tasty(cut).is_err());
}

#[test]
fn error_messages_name_offsets() {
    let e = TastyError::UnexpectedEnd { offset: 17 };
    assert_eq!(e.offset(), 17);
    assert_eq!(e.message(), "unexpected end of data at offset 17");
    let d = TastyError::DanglingShared { target: 5, offset: 1 };
    assert_eq!(d.message(), "shared reference to unknown offset 5 at offset 1");
}

#[test]
fn positions_out_of_range_fails() {
    // a header whose delta alone passes the 32-bit range
    let data = [0x20u8, 0x00, 0x00, 0x00, 0x80];
    let mut r = TastyReader::new(&data);
    assert_eq!(Positions::parse(&mut r).err().map(|e| e.offset() > 0), Some(true));
    let mut r2 = TastyReader::new(&data);
    assert!(matches!(Positions::parse(&mut r2), Err(TastyError::PositionOverflow { .. })));
}
