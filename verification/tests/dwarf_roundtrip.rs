use gimli::write::{
    Address, AttributeValue, DwarfUnit, EndianVec, LineProgram, LineString, Sections,
};
use gimli::{Encoding, Format, LineEncoding, LittleEndian};

use dwarf_index::extract::extract_source_info;

fn leb(mut value: u64, out: &mut Vec<u8>) {
    loop {
        let mut byte = (value & 0x7f) as u8;
        value >>= 7;
        if value != 0 {
            byte |= 0x80;
        }
        out.push(byte);
        if value == 0 {
            break;
        }
    }
}

fn wasm_with_debug(dwarf: &mut DwarfUnit) -> Vec<u8> {
    let mut sections = Sections::new(EndianVec::new(LittleEndian));
    dwarf.write(&mut sections).expect("writing DWARF should succeed");
    let mut bytes = vec![0x00, 0x61, 0x73, 0x6d, 0x01, 0x00, 0x00, 0x00];
    sections
        .for_each(|id, data| {
            let payload = data.slice();
            if !payload.is_empty() {
                let name = id.name().as_bytes();
                let mut body = Vec::new();
                leb(name.len() as u64, &mut body);
                body.extend_from_slice(name);
                body.extend_from_slice(payload);
                bytes.push(0x00);
                leb(body.len() as u64, &mut bytes);
                bytes.extend_from_slice(&body);
            }
            Ok::<(), ()>(())
        })
        .unwrap();
    bytes
}

fn encoding() -> Encoding {
    Encoding { format: Format::Dwarf32, version: 4, address_size: 4 }
}

#[test]
fn synthetic_rust_unit_round_trips() {
    let mut dwarf = DwarfUnit::new(encoding());
    let comp_dir = LineString::String(b"/src".to_vec());
    let comp_name = LineString::String(b"main.rs".to_vec());
    let mut program = LineProgram::new(
        encoding(),
        LineEncoding::default(),
        comp_dir,
        None,
        comp_name,
        None,
    );
    let dir_id = program.default_directory();
    let file_id = program.add_file(LineString::String(b"main.rs".to_vec()), dir_id, None);
    program.begin_sequence(Some(Address::Constant(0x10)));
    program.row().file = file_id;
    program.row().line = 42;
    program.row().address_offset = 0;
    program.generate_row();
    program.end_sequence(0);
    dwarf.unit.line_program = program;

    let root = dwarf.unit.root();
    let entry = dwarf.unit.get_mut(root);
    entry.set(gimli::DW_AT_language, AttributeValue::Language(gimli::DW_LANG_Rust));
    entry.set(gimli::DW_AT_name, AttributeValue::String(b"main.rs".to_vec()));
    entry.set(gimli::DW_AT_comp_dir, AttributeValue::String(b"/src".to_vec()));

    let sub = dwarf.unit.add(root, gimli::DW_TAG_subprogram);
    let sub_entry = dwarf.unit.get_mut(sub);
    sub_entry.set(gimli::DW_AT_name, AttributeValue::String(b"count".to_vec()));
    sub_entry.set(gimli::DW_AT_low_pc, AttributeValue::Address(Address::Constant(0x10)));
    sub_entry.set(gimli::DW_AT_high_pc, AttributeValue::Udata(0x10));

    let bytes = wasm_with_debug(&mut dwarf);
    let res = extract_source_info(&bytes).expect("extraction should succeed");
    let again = extract_source_info(&bytes).expect("second extraction should succeed");
    assert_eq!(res, again);

    // the Rust fixup cancels the one-based adjustment: line 42 stays 42
    assert_eq!(res.lines, Some(vec![vec![0x10, 0, 42]]));

    let units = res.units.expect("units are present");
    assert_eq!(units.len(), 1);
    assert_eq!(units[0].name, "main.rs");
    assert_eq!(units[0].directory, "/src");
    assert_eq!(units[0].files.len(), 1);
    assert_eq!(units[0].files[0].id, 0);
    assert_eq!(units[0].files[0].file, "main.rs");
    assert_eq!(units[0].files[0].language, 28);

    let functions = res.functions.expect("the subprogram is recorded");
    assert_eq!(functions, vec![("count".to_string(), 0x10, 0x20)]);
}

#[test]
fn equal_scores_keep_the_first_row_and_prune_the_loser() {
    let mut dwarf = DwarfUnit::new(encoding());
    let comp_dir = LineString::String(b"/src".to_vec());
    let comp_name = LineString::String(b"a.rs".to_vec());
    let mut program = LineProgram::new(
        encoding(),
        LineEncoding::default(),
        comp_dir,
        None,
        comp_name,
        None,
    );
    let dir_id = program.default_directory();
    let file_a = program.add_file(LineString::String(b"a.rs".to_vec()), dir_id, None);
    let file_b = program.add_file(LineString::String(b"b.rs".to_vec()), dir_id, None);
    program.begin_sequence(Some(Address::Constant(0x20)));
    program.row().file = file_a;
    program.row().line = 11;
    program.row().address_offset = 0;
    program.generate_row();
    program.row().file = file_b;
    program.row().line = 12;
    program.row().address_offset = 0;
    program.generate_row();
    program.end_sequence(0);
    dwarf.unit.line_program = program;

    let root = dwarf.unit.root();
    let entry = dwarf.unit.get_mut(root);
    entry.set(gimli::DW_AT_language, AttributeValue::Language(gimli::DW_LANG_Rust));
    entry.set(gimli::DW_AT_name, AttributeValue::String(b"a.rs".to_vec()));
    entry.set(gimli::DW_AT_comp_dir, AttributeValue::String(b"/src".to_vec()));

    let bytes = wasm_with_debug(&mut dwarf);
    let res = extract_source_info(&bytes).expect("extraction should succeed");

    // both rows score alike, so the first emission wins its address and
    // the second row's file has nothing left and is pruned
    assert_eq!(res.lines, Some(vec![vec![0x20, 0, 11]]));
    let units = res.units.expect("units are present");
    assert_eq!(units.len(), 1);
    assert_eq!(units[0].files.len(), 1);
    assert_eq!(units[0].files[0].file, "a.rs");
    assert_eq!(units[0].files[0].id, 0);
}
