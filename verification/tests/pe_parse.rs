use windiff_core::error::WinDiffError;
use windiff_core::pe::{parse_pe, rva_to_offset};

fn push_u16(out: &mut Vec<u8>, v: u16) {
    out.extend_from_slice(&v.to_le_bytes());
}

fn push_u32(out: &mut Vec<u8>, v: u32) {
    out.extend_from_slice(&v.to_le_bytes());
}

fn push_u64(out: &mut Vec<u8>, v: u64) {
    out.extend_from_slice(&v.to_le_bytes());
}

/// A minimal but well-formed 64-bit PE image: DOS header, COFF header,
/// PE32+ optional header with sixteen empty data directories, and one
/// `.text` section.
fn minimal_pe64() -> Vec<u8> {
    let mut image = Vec::new();
    // DOS header: the magic and, at offset 0x3C, the PE header offset.
    image.extend_from_slice(b"MZ");
    image.resize(0x3c, 0);
    push_u32(&mut image, 0x80);
    image.resize(0x80, 0);
    // PE signature and COFF header.
    image.extend_from_slice(b"PE\0\0");
    push_u16(&mut image, 0x8664); // machine
    push_u16(&mut image, 1); // number of sections
    push_u32(&mut image, 0); // timestamp
    push_u32(&mut image, 0); // symbol table
    push_u32(&mut image, 0); // number of symbols
    push_u16(&mut image, 0xf0); // size of optional header
    push_u16(&mut image, 0x0022); // characteristics
    // Optional header, PE32+.
    push_u16(&mut image, 0x20b); // magic
    image.push(14); // linker major
    image.push(0); // linker minor
    push_u32(&mut image, 0x200); // size of code
    push_u32(&mut image, 0); // size of initialized data
    push_u32(&mut image, 0); // size of uninitialized data
    push_u32(&mut image, 0x1000); // entry point
    push_u32(&mut image, 0x1000); // base of code
    push_u64(&mut image, 0x140000000); // image base
    push_u32(&mut image, 0x1000); // section alignment
    push_u32(&mut image, 0x200); // file alignment
    push_u16(&mut image, 6); // os major
    push_u16(&mut image, 0); // os minor
    push_u16(&mut image, 0); // image major
    push_u16(&mut image, 0); // image minor
    push_u16(&mut image, 6); // subsystem major
    push_u16(&mut image, 0); // subsystem minor
    push_u32(&mut image, 0); // win32 version
    push_u32(&mut image, 0x2000); // size of image
    push_u32(&mut image, 0x200); // size of headers
    push_u32(&mut image, 0); // checksum
    push_u16(&mut image, 3); // subsystem: console
    push_u16(&mut image, 0); // dll characteristics
    push_u64(&mut image, 0x100000); // stack reserve
    push_u64(&mut image, 0x1000); // stack commit
    push_u64(&mut image, 0x100000); // heap reserve
    push_u64(&mut image, 0x1000); // heap commit
    push_u32(&mut image, 0); // loader flags
    push_u32(&mut image, 16); // number of data directories
    for _ in 0..16 {
        push_u64(&mut image, 0); // empty data directory
    }
    // Section table: one .text section.
    image.extend_from_slice(b".text\0\0\0");
    push_u32(&mut image, 0x200); // virtual size
    push_u32(&mut image, 0x1000); // virtual address
    push_u32(&mut image, 0x200); // size of raw data
    push_u32(&mut image, 0x200); // pointer to raw data
    push_u32(&mut image, 0); // relocations
    push_u32(&mut image, 0); // line numbers
    push_u16(&mut image, 0); // number of relocations
    push_u16(&mut image, 0); // number of line numbers
    push_u32(&mut image, 0x60000020); // characteristics
    // Pad to the headers' size and append the section's raw bytes.
    image.resize(0x200, 0);
    image.resize(0x400, 0xcc);
    image
}

#[test]
fn minimal_image_parses_into_plain_fields() {
    let image = minimal_pe64();
    let pe = parse_pe(&image).expect("a well-formed image must parse");
    assert_eq!(pe.machine, 0x8664);
    assert_eq!(pe.image_base, 0x140000000);
    assert_eq!(pe.file_alignment, Some(0x200));
    assert!(!pe.has_export_data);
    assert!(pe.export_name.is_none());
    assert!(pe.debug.is_none());
    assert!(pe.exports.is_empty());
    assert_eq!(pe.sections.len(), 1);
    let section = &pe.sections[0];
    assert_eq!(section.virtual_address, 0x1000);
    assert_eq!(section.virtual_size, 0x200);
    assert_eq!(section.pointer_to_raw_data, 0x200);
    assert_eq!(section.size_of_raw_data, 0x200);
}

#[test]
fn rva_resolves_through_the_parsed_section_table() {
    let image = minimal_pe64();
    let pe = parse_pe(&image).expect("a well-formed image must parse");
    assert_eq!(rva_to_offset(0x1050, &pe.sections, 0x200), Some(0x250));
    assert_eq!(rva_to_offset(0x10, &pe.sections, 0x200), None);
    // An alignment that is no power of two resolves nothing.
    assert_eq!(rva_to_offset(0x1050, &pe.sections, 0x300), None);
}

#[test]
fn bytes_of_no_known_format_are_rejected() {
    match parse_pe(b"this is not an executable") {
        Err(WinDiffError::GoblinError) => {},
        Err(WinDiffError::UnsupportedExecutableFormat) => {},
        _ => panic!("garbage must not parse"),
    }
}
