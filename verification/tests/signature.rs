//! Tests for the custom-section signature codec.

use externref::processor::Processor;
use externref::signature::{BitSlice, Function, FunctionKind};

fn import_function() -> Function {
    Function {
        kind: FunctionKind::Import("module".to_owned()),
        name: "test".to_owned(),
        externrefs: BitSlice::builder(3).with_set_bit(1).build(),
    }
}

fn export_function() -> Function {
    Function {
        kind: FunctionKind::Export,
        name: "test".to_owned(),
        externrefs: BitSlice::builder(3).with_set_bit(1).build(),
    }
}

#[test]
fn function_serialization() {
    let function = import_function();
    let section = function.custom_section();

    assert_eq!(section[..4], [6, 0, 0, 0]); // little-endian module name length
    assert_eq!(section[4..10], *b"module");
    assert_eq!(section[10..14], [4, 0, 0, 0]); // little-endian fn name length
    assert_eq!(section[14..18], *b"test");
    assert_eq!(section[18..22], [3, 0, 0, 0]); // little-endian bit slice length
    assert_eq!(section[22], 2); // bit slice

    let (restored_function, read) = Function::read_from_section(&section, 0).unwrap();
    assert_eq!(read, section.len());
    assert_eq!(restored_function, import_function());
}

#[test]
fn export_fn_serialization() {
    let function = export_function();
    let section = function.custom_section();

    assert_eq!(section[..4], [0xff, 0xff, 0xff, 0xff]);
    assert_eq!(section[4..8], [4, 0, 0, 0]); // little-endian fn name length
    assert_eq!(section[8..12], *b"test");

    let (restored_function, read) = Function::read_from_section(&section, 0).unwrap();
    assert_eq!(read, section.len());
    assert_eq!(restored_function, export_function());
}

#[test]
fn catalog_concatenation_round_trip() {
    let mut section = import_function().custom_section();
    section.extend_from_slice(&export_function().custom_section());

    let functions = Processor::parse_section(&section).unwrap();
    assert_eq!(functions.len(), 2);
    assert_eq!(functions[0], import_function());
    assert_eq!(functions[1], export_function());
}

#[test]
fn truncated_section_is_rejected() {
    let section = import_function().custom_section();
    let err = Function::read_from_section(&section[..section.len() - 1], 0).unwrap_err();
    assert!(matches!(err.kind, externref::error::ReadErrorKind::UnexpectedEof));
}

#[test]
fn invalid_utf8_name_is_rejected() {
    // An import whose module name length is 1 and whose byte is not UTF-8.
    let section: Vec<u8> = vec![1, 0, 0, 0, 0xff];
    let err = Function::read_from_section(&section, 0).unwrap_err();
    assert!(matches!(err.kind, externref::error::ReadErrorKind::Utf8));
}

#[test]
fn bit_slice_reports_set_indices() {
    let bits = BitSlice::builder(10).with_set_bit(0).with_set_bit(9).build();
    assert_eq!(bits.bit_len(), 10);
    assert!(bits.is_set(0));
    assert!(!bits.is_set(5));
    assert!(bits.is_set(9));
    assert!(!bits.is_set(10));
    assert_eq!(bits.set_indices(), vec![0, 9]);
}
