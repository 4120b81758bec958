use dwarf_index::error::ExtractError;
use dwarf_index::extract::extract_source_info;
use dwarf_index::wasm::{parse_sections, Section, SectionKind};

fn wasm_preamble() -> Vec<u8> {
    vec![0x00, 0x61, 0x73, 0x6d, 0x01, 0x00, 0x00, 0x00]
}

#[test]
fn magic_mismatch_reports_error() {
    let res = extract_source_info(&[0x00, 0x00, 0x00, 0x00, 0x01, 0x00, 0x00, 0x00]);
    match res {
        Err(e) => {
            assert!(matches!(e, ExtractError::InvalidMagic));
            assert_eq!(e.message(), "WebAssembly magic mismatch.");
        }
        Ok(_) => panic!("expected a magic failure"),
    }
}

#[test]
fn short_input_is_magic_mismatch() {
    let res = extract_source_info(&[0x00, 0x61]);
    assert!(matches!(res, Err(ExtractError::InvalidMagic)));
}

#[test]
fn unsupported_version_names_the_version() {
    let mut bytes = vec![0x00, 0x61, 0x73, 0x6d];
    bytes.extend_from_slice(&[0x99, 0x00, 0x00, 0x00]);
    let res = extract_source_info(&bytes);
    match res {
        Err(e) => {
            assert!(matches!(e, ExtractError::UnsupportedVersion(153)));
            assert_eq!(e.message(), "Unsupported WebAssembly version 153.");
        }
        Ok(_) => panic!("expected a version failure"),
    }
}

#[test]
fn no_debug_sections_yields_empty_result() {
    // a type section (id 1) with an empty payload
    let mut bytes = wasm_preamble();
    bytes.extend_from_slice(&[0x01, 0x00]);
    let res = extract_source_info(&bytes).expect("extraction should succeed");
    assert_eq!(res.units, Some(vec![]));
    assert_eq!(res.lines, Some(vec![]));
    assert!(res.functions.is_none());
    assert!(res.error.is_none());
}

#[test]
fn empty_module_yields_empty_result() {
    let bytes = wasm_preamble();
    let res = extract_source_info(&bytes).expect("extraction should succeed");
    assert_eq!(res.units, Some(vec![]));
    assert_eq!(res.lines, Some(vec![]));
    assert!(res.functions.is_none());
}

#[test]
fn extraction_is_deterministic() {
    let mut bytes = wasm_preamble();
    bytes.extend_from_slice(&[0x01, 0x00, 0x02, 0x01, 0x00]);
    let first = extract_source_info(&bytes).expect("first run");
    let second = extract_source_info(&bytes).expect("second run");
    assert_eq!(first, second);
}

#[test]
fn sections_split_by_kind() {
    let mut bytes = wasm_preamble();
    // custom section: name "note", payload [1, 2, 3]
    bytes.extend_from_slice(&[0x00, 0x08, 0x04, b'n', b'o', b't', b'e', 0x01, 0x02, 0x03]);
    // standard section id 3, payload [9]
    bytes.extend_from_slice(&[0x03, 0x01, 0x09]);
    let sections = parse_sections(&bytes).expect("parse should succeed");
    assert_eq!(sections.len(), 2);
    match &sections[0] {
        Section { kind: SectionKind::Custom { name }, payload } => {
            assert_eq!(name.as_slice(), b"note");
            assert_eq!(payload.as_slice(), &[1, 2, 3]);
        }
        _ => panic!("expected a custom section"),
    }
    match &sections[1] {
        Section { kind: SectionKind::Standard { id }, payload } => {
            assert_eq!(*id, 3);
            assert_eq!(payload.as_slice(), &[9]);
        }
        _ => panic!("expected a standard section"),
    }
}

#[test]
fn section_length_reads_multibyte_leb() {
    let mut bytes = wasm_preamble();
    // id 5, length 3 encoded in two LEB bytes (0x83 0x00)
    bytes.extend_from_slice(&[0x05, 0x83, 0x00, 0x0a, 0x0b, 0x0c]);
    let sections = parse_sections(&bytes).expect("parse should succeed");
    assert_eq!(sections.len(), 1);
    assert_eq!(sections[0].payload.as_slice(), &[0x0a, 0x0b, 0x0c]);
}

#[test]
fn truncated_section_is_fatal() {
    let mut bytes = wasm_preamble();
    bytes.extend_from_slice(&[0x01, 0x05, 0x00]);
    let res = parse_sections(&bytes);
    match res {
        Err(ExtractError::Internal(_)) => {}
        _ => panic!("expected a fatal parse error"),
    }
}

#[test]
fn truncated_leb_is_fatal() {
    let mut bytes = wasm_preamble();
    bytes.extend_from_slice(&[0x01, 0x85]);
    assert!(matches!(parse_sections(&bytes), Err(ExtractError::Internal(_))));
}

#[test]
fn debug_named_custom_section_reaches_the_reader() {
    // a malformed .debug_info payload must abort extraction with a reader
    // error rather than being ignored
    let mut bytes = wasm_preamble();
    let name = b".debug_info";
    let payload: &[u8] = &[0xff, 0xff, 0xff, 0xff, 0xff];
    let mut body = vec![name.len() as u8];
    body.extend_from_slice(name);
    body.extend_from_slice(payload);
    bytes.push(0x00);
    bytes.push(body.len() as u8);
    bytes.extend_from_slice(&body);
    let res = extract_source_info(&bytes);
    assert!(matches!(res, Err(ExtractError::Reader(_))));
}
