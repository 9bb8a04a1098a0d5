use vstd::prelude::*;

use crate::error::WinDiffError;

verus! {

/// One entry of a PE's section table, reduced to the four fields that
/// RVA-to-file-offset conversion reads.
#[derive(Debug, Clone, Copy)]
pub struct PeSection {
    pub virtual_address: u32,
    pub virtual_size: u32,
    pub pointer_to_raw_data: u32,
    pub size_of_raw_data: u32,
}

/// One entry of a PE's export table: its name, if the entry has one, and
/// the file offset of the exported code or data, if it could be resolved.
#[derive(Debug)]
pub struct PeExport {
    pub name: Option<String>,
    pub offset: Option<usize>,
}

/// The CodeView record of a PE's debug directory: what locating the
/// matching PDB on a symbol server takes.
#[derive(Debug)]
pub struct PeDebugInfo {
    /// The raw 16-byte GUID.
    pub guid: Vec<u8>,
    pub age: u32,
    /// The PDB file name as stored, possibly NUL-padded.
    pub pdb_filename: Vec<u8>,
}

/// A parsed PE image, reduced to the plain values that this crate's
/// logic reads.
#[derive(Debug)]
pub struct PeInfo {
    /// The name in the export directory, if present: the binary's own name.
    pub export_name: Option<String>,
    /// Whether an export directory is present at all.
    pub has_export_data: bool,
    /// The COFF machine type.
    pub machine: u16,
    pub image_base: u64,
    /// File alignment from the optional header; `None` when that header
    /// is absent.
    pub file_alignment: Option<u32>,
    pub sections: Vec<PeSection>,
    pub exports: Vec<PeExport>,
    pub debug: Option<PeDebugInfo>,
}

impl PeInfo {
    pub open spec fn wf(&self) -> bool {
        match self.debug {
            Some(d) => d.guid@.len() == 16,
            None => true,
        }
    }
}

#[verifier::external_type_specification]
#[verifier::external_body]
pub struct ExGoblinPe<'a>(goblin::pe::PE<'a>);

/// What parsing `data` as a PE yields: goblin's parse depends on the
/// bytes alone, so its outcome — nothing, or the one `PeInfo` that the
/// field conversions below produce — is a function of them.
pub uninterp spec fn pe_info_of(data: Seq<u8>) -> Option<PeInfo>;

/// Relies on goblin's PE field layout: the COFF machine type, the image
/// base, the optional header's file alignment, and the export
/// directory's own name.
#[verifier::external_body]
fn goblin_pe_basics(pe: &goblin::pe::PE<'_>) -> (r: (u16, u64, Option<u32>, bool, Option<String>)) {
    (
        pe.header.coff_header.machine,
        pe.image_base,
        pe.header.optional_header.map(|oh| oh.windows_fields.file_alignment),
        pe.export_data.is_some(),
        pe.export_data.as_ref().and_then(|d| d.name.map(|n| n.to_string())),
    )
}

/// Relies on goblin's section table: copies each section's four
/// address/size fields.
#[verifier::external_body]
fn goblin_pe_sections(pe: &goblin::pe::PE<'_>) -> (r: Vec<PeSection>) {
    pe.sections
        .iter()
        .map(
            |s| PeSection {
                virtual_address: s.virtual_address,
                virtual_size: s.virtual_size,
                pointer_to_raw_data: s.pointer_to_raw_data,
                size_of_raw_data: s.size_of_raw_data,
            },
        )
        .collect()
}

/// Relies on goblin's export table: copies each export's name and
/// resolved file offset.
#[verifier::external_body]
fn goblin_pe_exports(pe: &goblin::pe::PE<'_>) -> (r: Vec<PeExport>) {
    pe.exports
        .iter()
        .map(|e| PeExport { name: e.name.map(|n| n.to_string()), offset: e.offset })
        .collect()
}

/// Relies on goblin's debug directory: the CodeView PDB70 record's
/// 16-byte signature, age and file name.
#[verifier::external_body]
fn goblin_pe_debug(pe: &goblin::pe::PE<'_>) -> (r: Option<PeDebugInfo>) {
    pe.debug_data.as_ref().and_then(
        |dd| dd.codeview_pdb70_debug_info.as_ref().map(
            |cv| PeDebugInfo {
                guid: cv.signature.to_vec(),
                age: cv.age,
                pdb_filename: cv.filename.to_vec(),
            },
        ),
    )
}

/// Parses `data` as a PE image and reduces it to the plain values the
/// rest of the crate works on. Relies on goblin's `Object::parse`: it
/// recognizes a PE image from the bytes alone, so success and the
/// parsed fields are exactly `pe_info_of(data)`; the parse fails with
/// `UnsupportedExecutableFormat` on another executable format and with
/// `GoblinError` on bytes that parse as nothing at all. A success is
/// well-formed: a CodeView record carries a 16-byte GUID, as goblin's
/// signature field fixes.
#[verifier::external_body]
pub fn parse_pe(data: &[u8]) -> (r: Result<PeInfo, WinDiffError>)
    ensures
        match r {
            Ok(p) => pe_info_of(data@) == Some(p) && p.wf(),
            Err(e) => pe_info_of(data@) is None && (e is UnsupportedExecutableFormat
                || e is GoblinError),
        },
{
    match goblin::Object::parse(data) {
        Ok(goblin::Object::PE(pe)) => {
            let (machine, image_base, file_alignment, has_export_data, export_name) =
                goblin_pe_basics(&pe);
            let (sections, exports, debug) =
                (goblin_pe_sections(&pe), goblin_pe_exports(&pe), goblin_pe_debug(&pe));
            Ok(PeInfo {
                export_name, has_export_data, machine, image_base, file_alignment,
                sections, exports, debug,
            })
        },
        Ok(_) => Err(WinDiffError::UnsupportedExecutableFormat),
        Err(_) => Err(WinDiffError::GoblinError),
    }
}

pub open spec fn imin(a: int, b: int) -> int {
    if a < b {
        a
    } else {
        b
    }
}

pub open spec fn spec_align_down(x: int, m: int) -> int {
    (x / m) * m
}

pub open spec fn spec_round_up(x: int, m: int) -> int {
    ((x + m - 1) / m) * m
}

/// How many bytes of a section are backed by the file: its raw size,
/// bounded by alignment-rounded raw and virtual sizes. A section with no
/// raw data maps nothing.
pub open spec fn spec_section_read_size(s: PeSection, fa: int) -> int {
    if s.size_of_raw_data == 0 {
        0
    } else {
        let aligned_ptr = spec_align_down(s.pointer_to_raw_data as int, 0x200);
        let rs = spec_round_up(s.pointer_to_raw_data + s.size_of_raw_data, fa) - aligned_ptr;
        let rs2 = imin(rs, spec_round_up(s.size_of_raw_data as int, 0x1000));
        if s.virtual_size == 0 {
            rs2
        } else {
            imin(rs2, spec_round_up(s.virtual_size as int, 0x1000))
        }
    }
}

pub open spec fn spec_in_section(s: PeSection, fa: int, rva: int) -> bool {
    s.virtual_address <= rva < s.virtual_address + spec_section_read_size(s, fa)
}

/// The file offset for `rva`, found in the first section (from `i` on)
/// whose file-backed range holds it.
pub open spec fn spec_find_offset_from(
    sections: Seq<PeSection>,
    fa: int,
    rva: int,
    i: int,
) -> Option<int>
    decreases sections.len() - i,
{
    if i < 0 || i >= sections.len() {
        None
    } else if spec_in_section(sections[i], fa, rva) {
        Some(sections[i].pointer_to_raw_data + (rva - sections[i].virtual_address))
    } else {
        spec_find_offset_from(sections, fa, rva, i + 1)
    }
}

pub open spec fn spec_fa_valid(fa: u32) -> bool {
    fa != 0 && (fa & ((fa - 1) as u32)) == 0
}

/// The file offset for `rva` under file alignment `fa`: `None` when the
/// alignment is not a nonzero power of two, or when no section's
/// file-backed range holds the RVA.
pub open spec fn spec_rva_to_offset(sections: Seq<PeSection>, fa: u32, rva: int) -> Option<int> {
    if !spec_fa_valid(fa) {
        None
    } else {
        spec_find_offset_from(sections, fa as int, rva, 0)
    }
}

/// Converts an RVA to a file offset by walking the section table, as the
/// section sizes recorded in the file bound it.
pub fn rva_to_offset(rva: u32, sections: &Vec<PeSection>, file_alignment: u32) -> (r: Option<u64>)
    ensures
        match r {
            Some(o) => spec_rva_to_offset(sections@, file_alignment, rva as int) == Some(o as int)
                && o < 0x200000000,
            None => spec_rva_to_offset(sections@, file_alignment, rva as int) is None,
        },
{
    if file_alignment == 0 || (file_alignment & (file_alignment - 1)) != 0 {
        return None;
    }
    let fa: u64 = file_alignment as u64;
    let n = sections.len();
    let mut i: usize = 0;
    while i < n
        invariant
            i <= n,
            n == sections@.len(),
            spec_fa_valid(file_alignment),
            fa == file_alignment,
            spec_find_offset_from(sections@, fa as int, rva as int, 0) == spec_find_offset_from(
                sections@,
                fa as int,
                rva as int,
                i as int,
            ),
        decreases n - i,
    {
        let s = sections[i];
        let read_size: u64 = section_read_size(s, fa);
        proof {
            assert(read_size == spec_section_read_size(s, fa as int));
        }
        let va: u64 = s.virtual_address as u64;
        if va <= rva as u64 && (rva as u64) < va + read_size {
            let off: u64 = s.pointer_to_raw_data as u64 + (rva as u64 - va);
            proof {
                assert(spec_in_section(s, fa as int, rva as int));
                assert(spec_find_offset_from(sections@, fa as int, rva as int, i as int) == Some(
                    off as int,
                ));
            }
            return Some(off);
        }
        proof {
            assert(!spec_in_section(s, fa as int, rva as int));
        }
        i = i + 1;
    }
    None
}

/// The file-backed size of one section, computed exactly as
/// `spec_section_read_size` states it.
fn section_read_size(s: PeSection, fa: u64) -> (r: u64)
    requires
        fa >= 1,
        fa <= u32::MAX,
    ensures
        r == spec_section_read_size(s, fa as int),
        r < 0x200000000,
{
    if s.size_of_raw_data == 0 {
        return 0;
    }
    let ptr: u64 = s.pointer_to_raw_data as u64;
    let srd: u64 = s.size_of_raw_data as u64;
    let q2: u64 = ptr / 0x200;
    proof {
        vstd::arithmetic::div_mod::lemma_fundamental_div_mod(ptr as int, 0x200);
        vstd::arithmetic::div_mod::lemma_mod_bound(ptr as int, 0x200);
        assert(0x200 * (ptr as int / 0x200) <= ptr as int);
    }
    let aligned_ptr: u64 = q2 * 0x200;
    let sum: u64 = ptr + srd + (fa - 1);
    let q: u64 = sum / fa;
    proof {
        vstd::arithmetic::div_mod::lemma_fundamental_div_mod(sum as int, fa as int);
        vstd::arithmetic::div_mod::lemma_mod_bound(sum as int, fa as int);
        assert(fa as int * (sum as int / fa as int) == sum as int - sum as int % fa as int);
        assert(q as int * fa as int <= sum as int);
        assert(q as int * fa as int >= sum as int - (fa as int - 1));
    }
    let rounded: u64 = q * fa;
    proof {
        assert(rounded >= ptr + srd);
        assert(aligned_ptr <= ptr);
    }
    let rs: u64 = rounded - aligned_ptr;
    let round_raw: u64 = ((srd + 0xfff) / 0x1000) * 0x1000;
    let rs2: u64 = if rs < round_raw {
        rs
    } else {
        round_raw
    };
    if s.virtual_size == 0 {
        rs2
    } else {
        let vsz: u64 = s.virtual_size as u64;
        let round_virt: u64 = ((vsz + 0xfff) / 0x1000) * 0x1000;
        if rs2 < round_virt {
            rs2
        } else {
            round_virt
        }
    }
}

} // verus!
