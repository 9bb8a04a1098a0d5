use windiff_core::pe::{PeExport, PeInfo, PeSection};
use windiff_core::syscalls::{extract_syscalls, extract_syscalls_from_user_binaries,
    extract_user_syscall_id_amd64, extract_user_syscall_id_arm64, does_service_table_contain_rva};
use windiff_core::u32map::U32StrMap;
use windiff_core::error::WinDiffError;

const AMD64_STUB: [u8; 21] = [
    0x4c, 0x8b, 0xd1, 0xb8, 0x55, 0x00, 0x00, 0x00, 0xf6, 0x04, 0x25, 0x08, 0x03, 0xfe, 0x7f,
    0x01, 0x75, 0x03, 0x0f, 0x05, 0xc3,
];

const ARM64_STUB: [u8; 8] = [0x41, 0x0a, 0x00, 0xd4, 0xc0, 0x03, 0x5f, 0xd6];

fn identity_section(len: u32) -> PeSection {
    PeSection {
        virtual_address: 0,
        virtual_size: 0,
        pointer_to_raw_data: 0,
        size_of_raw_data: len,
    }
}

fn kernel_pe(name: &str, image_base: u64, data_len: u32) -> PeInfo {
    PeInfo {
        export_name: Some(name.to_string()),
        has_export_data: true,
        machine: 0x8664,
        image_base,
        file_alignment: Some(0x200),
        sections: vec![identity_section(data_len)],
        exports: vec![],
        debug: None,
    }
}

fn user_pe(name: &str, machine: u16, exports: Vec<PeExport>) -> PeInfo {
    PeInfo {
        export_name: Some(name.to_string()),
        has_export_data: true,
        machine,
        image_base: 0x180000000,
        file_alignment: Some(0x200),
        sections: vec![],
        exports,
        debug: None,
    }
}

fn symbols_of(pairs: &[(u32, &str)]) -> U32StrMap {
    let mut m = U32StrMap::new();
    for (rva, name) in pairs {
        m.insert(*rva, name.to_string());
    }
    m
}

#[test]
fn amd64_user_stub_decodes() {
    let r = extract_user_syscall_id_amd64("NtTest".to_string(), &AMD64_STUB);
    let (id, name) = r.expect("stub must match");
    assert_eq!(id, 0x55);
    assert_eq!(name, "NtTest");
}

#[test]
fn amd64_user_stub_rejects_short_or_wrong_bytes() {
    assert!(extract_user_syscall_id_amd64("X".to_string(), &AMD64_STUB[..19]).is_none());
    let mut wrong = AMD64_STUB;
    wrong[0] = 0x90;
    assert!(extract_user_syscall_id_amd64("X".to_string(), &wrong).is_none());
    let mut wrong_tail = AMD64_STUB;
    wrong_tail[0x12] = 0x90;
    assert!(extract_user_syscall_id_amd64("X".to_string(), &wrong_tail).is_none());
}

#[test]
fn arm64_user_stub_decodes() {
    // ((0xD4000A41 >> 5) & 0xFFFF) == 0x0052
    let r = extract_user_syscall_id_arm64("NtTest".to_string(), &ARM64_STUB);
    let (id, name) = r.expect("stub must match");
    assert_eq!(id, 0x52);
    assert_eq!(name, "NtTest");
}

#[test]
fn arm64_user_stub_rejects_wrong_bytes() {
    assert!(extract_user_syscall_id_arm64("X".to_string(), &ARM64_STUB[..7]).is_none());
    let mut no_ret = ARM64_STUB;
    no_ret[4] = 0x00;
    assert!(extract_user_syscall_id_arm64("X".to_string(), &no_ret).is_none());
    let mut not_svc = ARM64_STUB;
    not_svc[0] = 0x40;
    assert!(extract_user_syscall_id_arm64("X".to_string(), &not_svc).is_none());
}

#[test]
fn user_binaries_walk_exports_and_name_ordinals() {
    let mut data = AMD64_STUB.to_vec();
    data.extend_from_slice(&AMD64_STUB);
    let exports = vec![
        PeExport { name: Some("NtAlpha".to_string()), offset: Some(0) },
        PeExport { name: None, offset: Some(21) },
        PeExport { name: Some("NoStub".to_string()), offset: None },
    ];
    let pe = user_pe("ntdll.dll", 0x8664, exports);
    let r = extract_syscalls_from_user_binaries(&pe, &data).expect("supported architecture");
    assert_eq!(r.len(), 2);
    assert_eq!(r[0].0, 0x55);
    assert_eq!(r[0].1, "NtAlpha");
    assert_eq!(r[1].0, 0x55);
    assert_eq!(r[1].1, "Ordinal1");
}

#[test]
fn user_binaries_reject_unknown_machine() {
    let pe = user_pe("ntdll.dll", 0x14c, vec![]);
    match extract_syscalls_from_user_binaries(&pe, &[]) {
        Err(WinDiffError::UnsupportedArchitecture) => {},
        _ => panic!("i386 user-mode extraction must be unsupported"),
    }
}

fn kernel_image(table_off: usize, limit_off: usize, table_bytes: &[u8], limit: u32) -> Vec<u8> {
    let mut data = vec![0u8; 0x6000];
    data[table_off..table_off + table_bytes.len()].copy_from_slice(table_bytes);
    data[limit_off..limit_off + 4].copy_from_slice(&limit.to_le_bytes());
    data
}

#[test]
fn kernel_service_table_rva_form() {
    // Table at RVA 0x1000 holds two u32 RVAs; the limit at 0x2000 is 2.
    let data = kernel_image(
        0x1000,
        0x2000,
        &[0x00, 0x50, 0x00, 0x00, 0x00, 0x51, 0x00, 0x00],
        2,
    );
    let symbols = symbols_of(&[
        (0x1000, "KiServiceTable"),
        (0x2000, "KiServiceLimit"),
        (0x5000, "NtOpenFile"),
        (0x5100, "NtClose"),
    ]);
    let pe = kernel_pe("ntoskrnl.exe", 0x140000000, 0x6000);
    let r = extract_syscalls(&pe, &data, &symbols).expect("table must parse");
    assert_eq!(r, vec![(0, "NtOpenFile".to_string()), (1, "NtClose".to_string())]);
}

#[test]
fn kernel_service_table_va_form() {
    // The first entry reads as VA 0x140005000: RVA 0x5000, a known symbol,
    // so the table holds 64-bit VAs; the limit is 1.
    let data = kernel_image(
        0x1000,
        0x2000,
        &[0x00, 0x50, 0x00, 0x40, 0x01, 0x00, 0x00, 0x00],
        1,
    );
    let symbols = symbols_of(&[
        (0x1000, "KiServiceTable"),
        (0x2000, "KiServiceLimit"),
        (0x5000, "NtOpenFile"),
        (0x5100, "NtClose"),
    ]);
    let pe = kernel_pe("ntoskrnl.exe", 0x140000000, 0x6000);
    let r = extract_syscalls(&pe, &data, &symbols).expect("table must parse");
    assert_eq!(r, vec![(0, "NtOpenFile".to_string())]);
}

#[test]
fn win32k_ids_carry_table_identifier() {
    let data = kernel_image(
        0x1000,
        0x2000,
        &[0x00, 0x50, 0x00, 0x40, 0x01, 0x00, 0x00, 0x00],
        1,
    );
    let symbols = symbols_of(&[
        (0x1000, "W32pServiceTable"),
        (0x2000, "W32pServiceLimit"),
        (0x5000, "NtUserCallOneParam"),
    ]);
    let pe = kernel_pe("win32k.sys", 0x140000000, 0x6000);
    let r = extract_syscalls(&pe, &data, &symbols).expect("table must parse");
    assert_eq!(r, vec![(0x1000, "NtUserCallOneParam".to_string())]);
}

#[test]
fn kernel_name_comparison_ignores_ascii_case() {
    let data = kernel_image(
        0x1000,
        0x2000,
        &[0x00, 0x50, 0x00, 0x00, 0x00, 0x00, 0x00, 0x00],
        1,
    );
    let symbols = symbols_of(&[
        (0x1000, "KiServiceTable"),
        (0x2000, "KiServiceLimit"),
        (0x5000, "NtOpenFile"),
    ]);
    let pe = kernel_pe("NtosKrnl.EXE", 0x140000000, 0x6000);
    let r = extract_syscalls(&pe, &data, &symbols).expect("table must parse");
    assert_eq!(r, vec![(0, "NtOpenFile".to_string())]);
}

#[test]
fn missing_export_data_is_an_error() {
    let mut pe = kernel_pe("ntoskrnl.exe", 0x140000000, 0);
    pe.has_export_data = false;
    pe.export_name = None;
    let symbols = U32StrMap::new();
    match extract_syscalls(&pe, &[], &symbols) {
        Err(WinDiffError::MissingExecutableExportInfo(_)) => {},
        _ => panic!("missing export data must be reported"),
    }
}

#[test]
fn service_table_entry_without_symbol_is_an_error() {
    let data = kernel_image(
        0x1000,
        0x2000,
        &[0x00, 0x50, 0x00, 0x00, 0x00, 0x60, 0x00, 0x00],
        2,
    );
    let symbols = symbols_of(&[
        (0x1000, "KiServiceTable"),
        (0x2000, "KiServiceLimit"),
        (0x5000, "NtOpenFile"),
    ]);
    let pe = kernel_pe("ntoskrnl.exe", 0x140000000, 0x6000);
    match extract_syscalls(&pe, &data, &symbols) {
        Err(WinDiffError::SystemServiceTableParsingError) => {},
        _ => panic!("unresolvable entry must fail the table"),
    }
}

#[test]
fn kernel_service_table_rva_form_with_zero_image_base() {
    // With image base 0 the probe's difference is the raw first eight
    // bytes, far past 32 bits: still an RVA table, walked as u32 entries.
    let data = kernel_image(
        0x1000,
        0x2000,
        &[0x00, 0x50, 0x00, 0x00, 0x00, 0x51, 0x00, 0x00],
        2,
    );
    let symbols = symbols_of(&[
        (0x1000, "KiServiceTable"),
        (0x2000, "KiServiceLimit"),
        (0x5000, "NtOpenFile"),
        (0x5100, "NtClose"),
    ]);
    let pe = kernel_pe("ntoskrnl.exe", 0, 0x6000);
    let r = extract_syscalls(&pe, &data, &symbols).expect("table must parse");
    assert_eq!(r, vec![(0, "NtOpenFile".to_string()), (1, "NtClose".to_string())]);
}

#[test]
fn probe_difference_past_32_bits_is_never_an_rva() {
    // The difference 0x1_0000_5000 exceeds every possible RVA; a symbol
    // at its truncation 0x5000 must not turn the table into a VA table.
    let data = kernel_image(
        0x1000,
        0x2000,
        &[0x00, 0x50, 0x00, 0x00, 0x01, 0x00, 0x00, 0x00],
        1,
    );
    let symbols = symbols_of(&[(0x5000, "NtOpenFile")]);
    assert!(does_service_table_contain_rva(0, &data, &symbols, &(0x1000, 1)));
}

#[test]
fn table_running_past_the_image_is_a_slice_error() {
    // The limit claims 0x2000 entries, far beyond the 0x6000 bytes.
    let data = kernel_image(
        0x1000,
        0x2000,
        &[0x00, 0x50, 0x00, 0x00, 0x00, 0x51, 0x00, 0x00],
        0x2000,
    );
    let symbols = symbols_of(&[
        (0x1000, "KiServiceTable"),
        (0x2000, "KiServiceLimit"),
        (0x5000, "NtOpenFile"),
    ]);
    let pe = kernel_pe("ntoskrnl.exe", 0x140000000, 0x6000);
    match extract_syscalls(&pe, &data, &symbols) {
        Err(WinDiffError::TryFromSliceError) => {},
        _ => panic!("a table the bytes cannot back must be a slice error"),
    }
}

#[test]
fn missing_table_symbols_mean_no_service_table() {
    let data = kernel_image(0x1000, 0x2000, &[0u8; 8], 1);
    let symbols = symbols_of(&[(0x5000, "NtOpenFile")]);
    let pe = kernel_pe("ntoskrnl.exe", 0x140000000, 0x6000);
    match extract_syscalls(&pe, &data, &symbols) {
        Err(WinDiffError::SystemServiceTableNotFoundError) => {},
        _ => panic!("without the table symbols nothing can be walked"),
    }
}

#[test]
fn missing_optional_header_fails_the_walk() {
    let data = kernel_image(0x1000, 0x2000, &[0u8; 8], 1);
    let symbols = symbols_of(&[(0x1000, "KiServiceTable"), (0x2000, "KiServiceLimit")]);
    let mut pe = kernel_pe("ntoskrnl.exe", 0x140000000, 0x6000);
    pe.file_alignment = None;
    match extract_syscalls(&pe, &data, &symbols) {
        Err(WinDiffError::MissingExecutableOptionalHeader) => {},
        _ => panic!("without the optional header RVAs cannot be resolved"),
    }
    // An RVA that no section backs fails the same way.
    let mut pe2 = kernel_pe("ntoskrnl.exe", 0x140000000, 0x6000);
    pe2.sections = vec![];
    match extract_syscalls(&pe2, &data, &symbols) {
        Err(WinDiffError::MissingExecutableOptionalHeader) => {},
        _ => panic!("an unmapped RVA cannot be resolved"),
    }
}

#[test]
fn table_mode_probe_reads_first_entry() {
    let data = kernel_image(
        0x1000,
        0x2000,
        &[0x00, 0x50, 0x00, 0x40, 0x01, 0x00, 0x00, 0x00],
        1,
    );
    let symbols = symbols_of(&[(0x5000, "NtOpenFile")]);
    // VA 0x140005000 resolves against the map: not an RVA table.
    assert!(!does_service_table_contain_rva(0x140000000, &data, &symbols, &(0x1000, 1)));
    // With an empty map nothing resolves: treated as an RVA table.
    let empty = U32StrMap::new();
    assert!(does_service_table_contain_rva(0x140000000, &data, &empty, &(0x1000, 1)));
}
