use windiff_core::arch::OSArchitecture;
use windiff_core::error::WinDiffError;
use windiff_core::pdb::{generate_pdb_download_url, guid_to_str, pdb_local_file_name};
use windiff_core::pe::PeDebugInfo;
use windiff_core::winbindex::{generate_file_download_url, generate_index_file_insider_url,
    generate_index_file_url, pe_local_file_name, FileInformation};

#[test]
fn pe_download_url_is_bit_exact() {
    let info = FileInformation {
        machine_type: 0x8664,
        virtual_size: 0xDEAD,
        timestamp: 0x1A2B3C4D,
        version: None,
    };
    let url = generate_file_download_url("foo.dll", &info);
    assert_eq!(
        url,
        "https://msdl.microsoft.com/download/symbols/foo.dll/1A2B3C4Ddead/foo.dll"
    );
}

#[test]
fn pe_download_url_pads_timestamp_to_eight_digits() {
    let info = FileInformation {
        machine_type: 0x8664,
        virtual_size: 0x1000,
        timestamp: 0xABC,
        version: None,
    };
    let url = generate_file_download_url("bar.sys", &info);
    assert_eq!(
        url,
        "https://msdl.microsoft.com/download/symbols/bar.sys/00000ABC1000/bar.sys"
    );
}

#[test]
fn guid_formats_with_mixed_endianness_and_case() {
    let guid: [u8; 16] = [
        0x12, 0x34, 0x56, 0x78, 0x9a, 0xbc, 0xde, 0xf0, 0x12, 0x34, 0xab, 0xcd, 0xef, 0x01,
        0x23, 0x45,
    ];
    let s = guid_to_str(&guid);
    // LE u32, LE u16, LE u16 in uppercase; BE u16 in uppercase; raw hex tail lowercase.
    assert_eq!(s, "78563412BC9AF0DE1234abcdef012345");
    assert_eq!(s.len(), 32);
    assert_eq!(&s[0..8], "78563412");
    assert_eq!(&s[8..12], "BC9A");
    assert_eq!(&s[12..16], "F0DE");
    assert_eq!(&s[16..20], "1234");
    assert_eq!(&s[20..32], "abcdef012345");
}

#[test]
fn pdb_url_combines_name_guid_and_age() {
    let mut filename = b"ntdll.pdb".to_vec();
    filename.extend_from_slice(&[0, 0, 0]);
    let debug = PeDebugInfo {
        guid: vec![
            0x12, 0x34, 0x56, 0x78, 0x9a, 0xbc, 0xde, 0xf0, 0x12, 0x34, 0xab, 0xcd, 0xef, 0x01,
            0x23, 0x45,
        ],
        age: 0x1f,
        pdb_filename: filename,
    };
    let url = generate_pdb_download_url(&debug).expect("valid UTF-8 name");
    assert_eq!(
        url,
        "https://msdl.microsoft.com/download/symbols/ntdll.pdb/78563412BC9AF0DE1234abcdef0123451f/ntdll.pdb"
    );
}

#[test]
fn pdb_url_rejects_non_utf8_name() {
    let debug = PeDebugInfo {
        guid: vec![0; 16],
        age: 1,
        pdb_filename: vec![0xff, 0xfe, 0x00],
    };
    match generate_pdb_download_url(&debug) {
        Err(WinDiffError::Utf8Error) => {},
        _ => panic!("invalid UTF-8 must be rejected"),
    }
}

#[test]
fn index_urls_per_architecture() {
    assert_eq!(
        generate_index_file_url("ntdll.dll", OSArchitecture::Amd64).unwrap(),
        "https://winbindex.m417z.com/data/by_filename_compressed/ntdll.dll.json.gz"
    );
    assert_eq!(
        generate_index_file_url("ntdll.dll", OSArchitecture::Wow64).unwrap(),
        "https://winbindex.m417z.com/data/by_filename_compressed/ntdll.dll.json.gz"
    );
    assert_eq!(
        generate_index_file_url("ntdll.dll", OSArchitecture::Arm64).unwrap(),
        "https://m417z.com/winbindex-data-arm64/by_filename_compressed/ntdll.dll.json.gz"
    );
    match generate_index_file_url("ntdll.dll", OSArchitecture::Arm) {
        Err(WinDiffError::UnsupportedArchitecture) => {},
        _ => panic!("arm has no index repository"),
    }
    assert_eq!(
        generate_index_file_insider_url("ntdll.dll"),
        "https://m417z.com/winbindex-data-insider/by_filename_compressed/ntdll.dll.json.gz"
    );
}

#[test]
fn local_file_names() {
    assert_eq!(
        pe_local_file_name("11-22H2", "KB5019509", OSArchitecture::Arm, "win32u.dll"),
        "11-22H2_KB5019509_arm64.arm_win32u.dll"
    );
    assert_eq!(pdb_local_file_name("11-22H2_KB5019509_amd64_ntdll"), "11-22H2_KB5019509_amd64_ntdll.pdb");
}

#[test]
fn architecture_strings_and_machine_types() {
    assert_eq!(OSArchitecture::I386.to_str(), "i386");
    assert_eq!(OSArchitecture::Wow64.to_str(), "wow64");
    assert_eq!(OSArchitecture::Amd64.to_str(), "amd64");
    assert_eq!(OSArchitecture::Arm.to_str(), "arm64.arm");
    assert_eq!(OSArchitecture::Arm64.to_str(), "arm64");
    assert_eq!(OSArchitecture::I386.to_machine_type(), 0x14c);
    assert_eq!(OSArchitecture::Wow64.to_machine_type(), 0x14c);
    assert_eq!(OSArchitecture::Amd64.to_machine_type(), 0x8664);
    assert_eq!(OSArchitecture::Arm.to_machine_type(), 0x1c0);
    assert_eq!(OSArchitecture::Arm64.to_machine_type(), 0xaa64);
}
