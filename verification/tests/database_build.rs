use windiff_core::arch::OSArchitecture;
use windiff_core::configuration::BinaryExtractedInformation;
use windiff_core::database::{database_file_name, generate_database_for_pe,
    generate_database_index, BinaryMetadata, PdbContents};
use windiff_core::jsonout::{serialize_binary_database, serialize_database_index};
use windiff_core::pdb::PdbSymbol;
use windiff_core::pe::{PeExport, PeInfo};
use windiff_core::winbindex::DownloadedPEVersion;

fn meta(name: &str) -> BinaryMetadata {
    BinaryMetadata {
        name: name.to_string(),
        version: "10.0.22621.1".to_string(),
        architecture: "amd64".to_string(),
    }
}

fn pe_with_exports(names: &[Option<&str>]) -> PeInfo {
    PeInfo {
        export_name: Some("sample.dll".to_string()),
        has_export_data: true,
        machine: 0x8664,
        image_base: 0x180000000,
        file_alignment: Some(0x200),
        sections: vec![],
        exports: names
            .iter()
            .map(|n| PeExport { name: n.map(|s| s.to_string()), offset: None })
            .collect(),
        debug: None,
    }
}

fn full_mask() -> BinaryExtractedInformation {
    BinaryExtractedInformation {
        exports: true,
        debug_symbols: true,
        modules: true,
        types: true,
        syscalls: false,
    }
}

fn sample_pdb() -> PdbContents {
    PdbContents {
        symbols: vec![
            PdbSymbol::Procedure { name: "NtOpenFile".to_string() },
            PdbSymbol::Data { name: "KiServiceTable".to_string() },
            PdbSymbol::Public { function: true, name: "NtClose".to_string() },
            PdbSymbol::Public { function: false, name: "ExportedData".to_string() },
            PdbSymbol::Other,
        ],
        modules: vec!["ntdll.obj".to_string(), "alpc.obj".to_string(), "ntdll.obj".to_string()],
        types: vec![
            ("_UNICODE_STRING".to_string(), "struct _UNICODE_STRING { ... };".to_string()),
            ("_LIST_ENTRY".to_string(), "struct _LIST_ENTRY { ... };".to_string()),
        ],
        rva_symbols: vec![],
    }
}

#[test]
fn feature_gating_leaves_unrequested_fields_empty() {
    let mask = BinaryExtractedInformation {
        exports: false,
        debug_symbols: false,
        modules: false,
        types: false,
        syscalls: false,
    };
    let pe = pe_with_exports(&[Some("NtClose")]);
    let db = generate_database_for_pe(meta("sample.dll"), &pe, &[], Some(&sample_pdb()), &mask)
        .expect("nothing fallible requested");
    let text = serialize_binary_database(&db);
    assert_eq!(
        text,
        "{\"metadata\":{\"name\":\"sample.dll\",\"version\":\"10.0.22621.1\",\"architecture\":\"amd64\"},\"exports\":[],\"symbols\":[],\"modules\":[],\"types\":{},\"syscalls\":{}}"
    );
}

#[test]
fn requested_fields_are_populated_sorted_and_deduplicated() {
    let pe = pe_with_exports(&[Some("Zeta"), None, Some("Alpha"), Some("Zeta")]);
    let db = generate_database_for_pe(meta("sample.dll"), &pe, &[], Some(&sample_pdb()), &full_mask())
        .expect("no syscalls requested");
    let text = serialize_binary_database(&db);
    let mut expected = String::new();
    expected.push_str("{\"metadata\":{\"name\":\"sample.dll\",\"version\":\"10.0.22621.1\",\"architecture\":\"amd64\"},");
    expected.push_str("\"exports\":[\"Alpha\",\"Zeta\"],");
    expected.push_str("\"symbols\":[\"ExportedData\",\"KiServiceTable\",\"NtClose()\",\"NtOpenFile()\"],");
    expected.push_str("\"modules\":[\"alpc.obj\",\"ntdll.obj\"],");
    expected.push_str("\"types\":{\"_LIST_ENTRY\":\"struct _LIST_ENTRY { ... };\",\"_UNICODE_STRING\":\"struct _UNICODE_STRING { ... };\"},");
    expected.push_str("\"syscalls\":{}}");
    assert_eq!(text, expected);
}

#[test]
fn pdb_fields_stay_empty_without_a_pdb() {
    let pe = pe_with_exports(&[Some("Alpha")]);
    let db = generate_database_for_pe(meta("sample.dll"), &pe, &[], None, &full_mask())
        .expect("no pdb, nothing fallible");
    let text = serialize_binary_database(&db);
    assert!(text.contains("\"exports\":[\"Alpha\"]"));
    assert!(text.contains("\"symbols\":[]"));
    assert!(text.contains("\"modules\":[]"));
    assert!(text.contains("\"types\":{}"));
}

#[test]
fn two_runs_serialize_byte_identically() {
    let pe = pe_with_exports(&[Some("Zeta"), Some("Alpha")]);
    let a = generate_database_for_pe(meta("sample.dll"), &pe, &[], Some(&sample_pdb()), &full_mask())
        .unwrap();
    let b = generate_database_for_pe(meta("sample.dll"), &pe, &[], Some(&sample_pdb()), &full_mask())
        .unwrap();
    assert_eq!(serialize_binary_database(&a), serialize_binary_database(&b));
}

#[test]
fn serialization_escapes_json_strings() {
    let pe = pe_with_exports(&[Some("quote\"back\\slash"), Some("ctl\u{1f}\ttab")]);
    let mask = BinaryExtractedInformation {
        exports: true,
        debug_symbols: false,
        modules: false,
        types: false,
        syscalls: false,
    };
    let db = generate_database_for_pe(meta("sample.dll"), &pe, &[], None, &mask).unwrap();
    let text = serialize_binary_database(&db);
    assert!(text.contains("\"ctl\\u001f\\ttab\""));
    assert!(text.contains("\"quote\\\"back\\\\slash\""));
}

fn download(name: &str, version: &str, update: &str, arch: OSArchitecture) -> (DownloadedPEVersion, Option<String>) {
    (
        DownloadedPEVersion {
            path: format!("/tmp/{}", name),
            original_name: name.to_string(),
            os_version: version.to_string(),
            os_update: update.to_string(),
            os_build_number: "22621".to_string(),
            architecture: arch,
            pe_version: "10.0".to_string(),
        },
        None,
    )
}

#[test]
fn index_covers_every_download_without_duplicates() {
    let downloads = vec![
        download("ntdll.dll", "11-22H2", "KB1", OSArchitecture::Amd64),
        download("ntoskrnl.exe", "11-22H2", "KB1", OSArchitecture::Amd64),
        download("ntdll.dll", "10-1809", "KB2", OSArchitecture::Arm64),
        download("ntdll.dll", "11-22H2", "KB1", OSArchitecture::Amd64),
    ];
    let index = generate_database_index(&downloads);
    let text = serialize_database_index(&index);
    let mut expected = String::new();
    expected.push_str("{\"oses\":[");
    expected.push_str("{\"version\":\"10-1809\",\"update\":\"KB2\",\"architecture\":\"arm64\"},");
    expected.push_str("{\"version\":\"11-22H2\",\"update\":\"KB1\",\"architecture\":\"amd64\"}");
    expected.push_str("],\"binaries\":[\"ntdll.dll\",\"ntoskrnl.exe\"]}");
    assert_eq!(text, expected);
}

#[test]
fn index_of_no_downloads_is_empty() {
    let index = generate_database_index(&vec![]);
    assert_eq!(serialize_database_index(&index), "{\"oses\":[],\"binaries\":[]}");
}

#[test]
fn syscall_map_holds_one_entry_per_id() {
    // Two exports alias the same stub, as Nt/Zw pairs do: one id, and
    // the later writer's name wins in the map.
    let stub: [u8; 21] = [
        0x4c, 0x8b, 0xd1, 0xb8, 0x55, 0x00, 0x00, 0x00, 0xf6, 0x04, 0x25, 0x08, 0x03, 0xfe,
        0x7f, 0x01, 0x75, 0x03, 0x0f, 0x05, 0xc3,
    ];
    let pe = PeInfo {
        export_name: Some("ntdll.dll".to_string()),
        has_export_data: true,
        machine: 0x8664,
        image_base: 0x180000000,
        file_alignment: Some(0x200),
        sections: vec![],
        exports: vec![
            PeExport { name: Some("NtAlias".to_string()), offset: Some(0) },
            PeExport { name: Some("ZwAlias".to_string()), offset: Some(0) },
        ],
        debug: None,
    };
    let mask = BinaryExtractedInformation {
        exports: false,
        debug_symbols: false,
        modules: false,
        types: false,
        syscalls: true,
    };
    let pdb = PdbContents {
        symbols: vec![],
        modules: vec![],
        types: vec![],
        rva_symbols: vec![],
    };
    let db = generate_database_for_pe(meta("ntdll.dll"), &pe, &stub, Some(&pdb), &mask)
        .expect("user-mode extraction succeeds");
    let text = serialize_binary_database(&db);
    assert!(text.contains("\"syscalls\":{\"85\":\"ZwAlias\"}"));
}

#[test]
fn database_file_names() {
    assert_eq!(
        database_file_name("ntdll.dll", "11-22H2", "KB5019509", OSArchitecture::Amd64),
        "ntdll.dll_11-22H2_KB5019509_amd64.json.gz"
    );
}
