use vstd::prelude::*;
use vstd::string::*;

use crate::arch::OSArchitecture;
use crate::error::WinDiffError;
use crate::json::{jget, json_view, view_wf, JsonValue, JsonView, lemma_json_view_obj,
    lemma_wf_obj_elements};
use crate::text::{hex_chars_lower, hex_chars_upper_width, push_hex_lower_u64,
    push_hex_upper_width_u64, str_eq};

verus! {

/// The typed core of one remote index record: what forming a download
/// URL and checking a candidate takes.
#[derive(Debug, Clone)]
pub struct FileInformation {
    pub machine_type: u16,
    pub virtual_size: u64,
    pub timestamp: u32,
    pub version: Option<String>,
}

/// The shape of a `FileInformation`.
pub struct FileInformationV {
    pub machine_type: u16,
    pub virtual_size: u64,
    pub timestamp: u32,
    pub version: Option<Seq<char>>,
}

impl View for FileInformation {
    type V = FileInformationV;

    open spec fn view(&self) -> FileInformationV {
        FileInformationV {
            machine_type: self.machine_type,
            virtual_size: self.virtual_size,
            timestamp: self.timestamp,
            version: match self.version {
                Some(s) => Some(s@),
                None => None,
            },
        }
    }
}

/// One version of a binary after a successful download: where the bytes
/// landed, and the identifiers of what they are.
#[derive(Debug, Clone)]
pub struct DownloadedPEVersion {
    pub path: String,
    pub original_name: String,
    pub os_version: String,
    pub os_update: String,
    pub os_build_number: String,
    pub architecture: OSArchitecture,
    pub pe_version: String,
}

// ---------------------------------------------------------------------
// Reading a file object out of the untyped index.
// ---------------------------------------------------------------------

/// The `fileInfo` member of an index record, read as typed fields. A
/// member that is missing, of the wrong kind, or out of range makes the
/// whole record unreadable, as a typed decode of it would fail.
pub open spec fn spec_file_info_of(fi: JsonView) -> Option<FileInformationV> {
    if !(jget(fi, "machineType"@) matches Some(JsonView::UInt(_))) {
        None
    } else if !(jget(fi, "virtualSize"@) matches Some(JsonView::UInt(_))) {
        None
    } else if !(jget(fi, "timestamp"@) matches Some(JsonView::UInt(_))) {
        None
    } else {
        let m = jget(fi, "machineType"@)->Some_0->UInt_0;
        let vs = jget(fi, "virtualSize"@)->Some_0->UInt_0;
        let ts = jget(fi, "timestamp"@)->Some_0->UInt_0;
        if m > 0xFFFF || ts > 0xFFFFFFFF {
            None
        } else {
            match jget(fi, "version"@) {
                None => Some(
                    FileInformationV {
                        machine_type: m as u16,
                        virtual_size: vs,
                        timestamp: ts as u32,
                        version: None,
                    },
                ),
                Some(JsonView::Null) => Some(
                    FileInformationV {
                        machine_type: m as u16,
                        virtual_size: vs,
                        timestamp: ts as u32,
                        version: None,
                    },
                ),
                Some(JsonView::Str(s)) => Some(
                    FileInformationV {
                        machine_type: m as u16,
                        virtual_size: vs,
                        timestamp: ts as u32,
                        version: Some(s),
                    },
                ),
                Some(_) => None,
            }
        }
    }
}

/// Reads the typed fields out of a `fileInfo` value.
pub fn parse_file_information(fi: &JsonValue) -> (r: Option<FileInformation>)
    requires
        view_wf(fi@),
    ensures
        match r {
            Some(f) => spec_file_info_of(fi@) == Some(f@),
            None => spec_file_info_of(fi@) is None,
        },
{
    let m: u64 = match fi.get("machineType") {
        Some(JsonValue::UInt(n)) => *n,
        _ => {
            return None;
        },
    };
    let vs: u64 = match fi.get("virtualSize") {
        Some(JsonValue::UInt(n)) => *n,
        _ => {
            return None;
        },
    };
    let ts: u64 = match fi.get("timestamp") {
        Some(JsonValue::UInt(n)) => *n,
        _ => {
            return None;
        },
    };
    if m > 0xFFFF || ts > 0xFFFFFFFF {
        return None;
    }
    let version: Option<String> = match fi.get("version") {
        None => None,
        Some(JsonValue::Null) => None,
        Some(JsonValue::Str(s)) => Some(s.clone()),
        Some(_) => {
            return None;
        },
    };
    Some(
        FileInformation {
            machine_type: m as u16,
            virtual_size: vs,
            timestamp: ts as u32,
            version,
        },
    )
}

// ---------------------------------------------------------------------
// Candidate checks.
// ---------------------------------------------------------------------

/// Whether a record's machine type is the one the requested
/// architecture fixes.
pub fn is_file_architecture_correct(
    file_info: &FileInformation,
    os_architecture: OSArchitecture,
) -> (r: bool)
    ensures
        r == (file_info.machine_type as u32 == os_architecture.spec_machine_type()),
{
    file_info.machine_type as u32 == os_architecture.to_machine_type()
}

/// Whether a record's `windowsVersions` tree carries the requested
/// (version, update) pair. An insider version is looked up under
/// `builds.<update>` instead of `<version>.<update>`.
pub open spec fn spec_version_correct(wv: JsonView, ver: Seq<char>, upd: Seq<char>) -> bool {
    if ver == "11-Insider"@ {
        match jget(wv, "builds"@) {
            Some(b) => jget(b, upd) is Some,
            None => false,
        }
    } else {
        match jget(wv, ver) {
            Some(vi) => jget(vi, upd) is Some,
            None => false,
        }
    }
}

pub fn is_file_version_correct(wv: &JsonValue, os_version: &str, os_update: &str) -> (r: bool)
    requires
        view_wf(wv@),
    ensures
        r == spec_version_correct(wv@, os_version@, os_update@),
{
    if str_eq(os_version, "11-Insider") {
        match wv.get("builds") {
            Some(version_info) => match version_info.get(os_update) {
                Some(_) => true,
                None => false,
            },
            None => false,
        }
    } else {
        match wv.get(os_version) {
            Some(version_info) => match version_info.get(os_update) {
                Some(_) => true,
                None => false,
            },
            None => false,
        }
    }
}

/// The build number a record carries for the requested pair:
/// `updateInfo.build` for an insider version, `updateInfo.releaseVersion`
/// otherwise; only a string counts.
pub open spec fn spec_build_number(wv: JsonView, ver: Seq<char>, upd: Seq<char>) -> Option<
    Seq<char>,
> {
    let head = if ver == "11-Insider"@ {
        jget(wv, "builds"@)
    } else {
        jget(wv, ver)
    };
    let leaf_key = if ver == "11-Insider"@ {
        "build"@
    } else {
        "releaseVersion"@
    };
    match head {
        Some(vi) => match jget(vi, upd) {
            Some(u) => match jget(u, "updateInfo"@) {
                Some(ui) => match jget(ui, leaf_key) {
                    Some(JsonView::Str(s)) => Some(s),
                    _ => None,
                },
                None => None,
            },
            None => None,
        },
        None => None,
    }
}

pub fn get_build_number(wv: &JsonValue, os_version: &str, os_update: &str) -> (r: Option<String>)
    requires
        view_wf(wv@),
    ensures
        match r {
            Some(s) => spec_build_number(wv@, os_version@, os_update@) == Some(s@),
            None => spec_build_number(wv@, os_version@, os_update@) is None,
        },
{
    let insider = str_eq(os_version, "11-Insider");
    let head = if insider {
        wv.get("builds")
    } else {
        wv.get(os_version)
    };
    let vi = match head {
        Some(vi) => vi,
        None => {
            return None;
        },
    };
    let u = match vi.get(os_update) {
        Some(u) => u,
        None => {
            return None;
        },
    };
    let ui = match u.get("updateInfo") {
        Some(ui) => ui,
        None => {
            return None;
        },
    };
    let leaf = if insider {
        ui.get("build")
    } else {
        ui.get("releaseVersion")
    };
    match leaf {
        Some(JsonValue::Str(s)) => Some(s.clone()),
        _ => None,
    }
}

// ---------------------------------------------------------------------
// The index lookup: first matching record wins.
// ---------------------------------------------------------------------

/// What one index record yields for the requested OS triple: its typed
/// `fileInfo` and its build number (empty when the record names none),
/// provided the record is readable and matches architecture and
/// version.
pub open spec fn spec_candidate(
    fo: JsonView,
    ver: Seq<char>,
    upd: Seq<char>,
    arch: OSArchitecture,
) -> Option<(FileInformationV, Seq<char>)> {
    match jget(fo, "windowsVersions"@) {
        Some(wv) => match jget(fo, "fileInfo"@) {
            Some(fiv) => match spec_file_info_of(fiv) {
                Some(fi) => if fi.machine_type as u32 == arch.spec_machine_type()
                    && spec_version_correct(wv, ver, upd) {
                    Some(
                        (
                            fi,
                            match spec_build_number(wv, ver, upd) {
                                Some(s) => s,
                                None => Seq::empty(),
                            },
                        ),
                    )
                } else {
                    None
                },
                None => None,
            },
            None => None,
        },
        None => None,
    }
}

fn candidate_of(fo: &JsonValue, os_version: &str, os_update: &str, arch: OSArchitecture) -> (r:
    Option<(FileInformation, String)>)
    requires
        view_wf(fo@),
    ensures
        match r {
            Some(p) => spec_candidate(fo@, os_version@, os_update@, arch) == Some((p.0@, p.1@)),
            None => spec_candidate(fo@, os_version@, os_update@, arch) is None,
        },
{
    let wv = match fo.get("windowsVersions") {
        Some(v) => v,
        None => {
            return None;
        },
    };
    let fi_val = match fo.get("fileInfo") {
        Some(v) => v,
        None => {
            return None;
        },
    };
    let fi = match parse_file_information(fi_val) {
        Some(f) => f,
        None => {
            return None;
        },
    };
    if !is_file_architecture_correct(&fi, arch) {
        return None;
    }
    if !is_file_version_correct(wv, os_version, os_update) {
        return None;
    }
    let build: String = match get_build_number(wv, os_version, os_update) {
        Some(s) => s,
        None => String::new(),
    };
    Some((fi, build))
}

/// The first record in the index, in key order, that yields a
/// candidate for the requested OS triple, from entry `i` on.
pub open spec fn spec_index_lookup(
    ents: Seq<(Seq<char>, JsonView)>,
    i: int,
    ver: Seq<char>,
    upd: Seq<char>,
    arch: OSArchitecture,
) -> Option<(FileInformationV, Seq<char>)>
    decreases ents.len() - i,
{
    if i < 0 || i >= ents.len() {
        None
    } else {
        match spec_candidate(ents[i].1, ver, upd, arch) {
            Some(p) => Some(p),
            None => spec_index_lookup(ents, i + 1, ver, upd, arch),
        }
    }
}

/// Finds the requested (version, update, architecture) triple in a
/// merged index: the first record, in key order, whose machine type and
/// version tree match. When no record matches — or the index is not an
/// object at all, as after fetching nothing — the binary is
/// `FileNotFoundInIndex`.
pub fn get_pe_info_and_build_number_from_index(
    json_index: &JsonValue,
    os_version: &str,
    os_update: &str,
    os_architecture: OSArchitecture,
) -> (r: Result<(FileInformation, String), WinDiffError>)
    requires
        view_wf(json_index@),
    ensures
        match r {
            Ok(p) => json_index@ is Object && spec_index_lookup(
                json_index@->Object_0,
                0,
                os_version@,
                os_update@,
                os_architecture,
            ) == Some((p.0@, p.1@)),
            Err(e) => e is FileNotFoundInIndex && (json_index@ is Object ==> spec_index_lookup(
                json_index@->Object_0,
                0,
                os_version@,
                os_update@,
                os_architecture,
            ) is None),
        },
{
    match json_index {
        JsonValue::Object(entries) => {
            proof {
                lemma_json_view_obj(*json_index, 0);
                lemma_wf_obj_elements(json_index@);
            }
            let ghost ents = json_index@->Object_0;
            let n = entries.len();
            let mut i: usize = 0;
            while i < n
                invariant
                    i <= n,
                    n == entries@.len(),
                    *json_index is Object,
                    entries@ == json_index->Object_0@,
                    view_wf(json_index@),
                    json_index@ is Object,
                    ents == json_index@->Object_0,
                    ents.len() == n,
                    forall|j: int|
                        0 <= j < ents.len() ==> ents[j] == (
                            entries@[j].0@,
                            json_view(entries@[j].1),
                        ),
                    forall|j: int| 0 <= j < ents.len() ==> view_wf(#[trigger] ents[j].1),
                    spec_index_lookup(ents, 0, os_version@, os_update@, os_architecture)
                        == spec_index_lookup(
                        ents,
                        i as int,
                        os_version@,
                        os_update@,
                        os_architecture,
                    ),
                decreases n - i,
            {
                match candidate_of(&entries[i].1, os_version, os_update, os_architecture) {
                    Some(p) => {
                        return Ok(p);
                    },
                    None => {},
                }
                i = i + 1;
            }
            Err(WinDiffError::FileNotFoundInIndex)
        },
        _ => Err(WinDiffError::FileNotFoundInIndex),
    }
}

// ---------------------------------------------------------------------
// URL construction, bit-exact against the upstream services.
// ---------------------------------------------------------------------

/// The per-architecture index URL for a binary:
/// `<index-base>/<pe-name>.json.gz`. Only AMD64 (which WOW64 shares)
/// and ARM64 have index repositories.
pub fn generate_index_file_url(pe_name: &str, architecture: OSArchitecture) -> (r: Result<
    String,
    WinDiffError,
>)
    ensures
        match r {
            Ok(u) => (architecture is Amd64 || architecture is Wow64 || architecture is Arm64)
                && u@ == (if architecture is Arm64 {
                "https://m417z.com/winbindex-data-arm64/by_filename_compressed/"@
            } else {
                "https://winbindex.m417z.com/data/by_filename_compressed/"@
            }) + pe_name@ + ".json.gz"@,
            Err(e) => e is UnsupportedArchitecture && !(architecture is Amd64
                || architecture is Wow64 || architecture is Arm64),
        },
{
    let mut url: String = match architecture {
        OSArchitecture::Amd64 | OSArchitecture::Wow64 => {
            "https://winbindex.m417z.com/data/by_filename_compressed/".to_owned()
        },
        OSArchitecture::Arm64 => {
            "https://m417z.com/winbindex-data-arm64/by_filename_compressed/".to_owned()
        },
        _ => {
            return Err(WinDiffError::UnsupportedArchitecture);
        },
    };
    url.append(pe_name);
    url.append(".json.gz");
    Ok(url)
}

/// The insider index URL for a binary; one repository serves every
/// architecture.
pub fn generate_index_file_insider_url(pe_name: &str) -> (r: String)
    ensures
        r@ == "https://m417z.com/winbindex-data-insider/by_filename_compressed/"@ + pe_name@
            + ".json.gz"@,
{
    let mut url: String = "https://m417z.com/winbindex-data-insider/by_filename_compressed/"
        .to_owned();
    url.append(pe_name);
    url.append(".json.gz");
    url
}

/// The file name a downloaded PE is stored under:
/// `<os_version>_<os_update>_<architecture>_<pe_name>`.
pub fn pe_local_file_name(
    os_version: &str,
    os_update: &str,
    architecture: OSArchitecture,
    pe_name: &str,
) -> (r: String)
    ensures
        r@ == os_version@ + "_"@ + os_update@ + "_"@ + architecture.spec_str() + "_"@ + pe_name@,
{
    let mut name: String = os_version.to_owned();
    name.append("_");
    name.append(os_update);
    name.append("_");
    name.append(architecture.to_str());
    name.append("_");
    name.append(pe_name);
    name
}

/// The symbol-server URL of a PE:
/// `<msdl>/<pe>/<timestamp as 8 uppercase hex><virtual size as lowercase
/// hex>/<pe>`, bit-exact as the symbol-server scheme demands.
pub fn generate_file_download_url(pe_name: &str, file_info: &FileInformation) -> (r: String)
    ensures
        r@ == "https://msdl.microsoft.com/download/symbols/"@ + pe_name@ + "/"@
            + hex_chars_upper_width(file_info.timestamp as nat, 8) + hex_chars_lower(
            file_info.virtual_size as nat,
        ) + "/"@ + pe_name@,
{
    let mut url: String = "https://msdl.microsoft.com/download/symbols/".to_owned();
    url.append(pe_name);
    url.append("/");
    push_hex_upper_width_u64(&mut url, file_info.timestamp as u64, 8);
    push_hex_lower_u64(&mut url, file_info.virtual_size);
    url.append("/");
    url.append(pe_name);
    url
}

} // verus!
