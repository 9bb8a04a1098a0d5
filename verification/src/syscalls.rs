use vstd::prelude::*;
use vstd::slice::slice_subrange;

use crate::arch::OSArchitecture;
use crate::error::WinDiffError;
use crate::lebytes::{le32, le64, read_u32_le, read_u64_le};
use crate::pe::{rva_to_offset, PeExport, PeInfo};
use crate::text::{dec_chars, eq_ignore_ascii_case, push_dec_u64, str_eq, str_eq_ignore_ascii_case};
use crate::u32map::U32StrMap;

verus! {

// ---------------------------------------------------------------------
// User-mode stubs: fixed opcode patterns of current Microsoft toolchains.
// A stub that does not match exactly is silently not a syscall.
// ---------------------------------------------------------------------

/// Whether `d` starts with the AMD64 syscall stub: `mov r10, rcx; mov
/// eax, imm32` up front and the `syscall` instruction at offset 0x12.
/// The stub's fixed prefix is 20 bytes; anything shorter cannot match.
pub open spec fn amd64_stub_matches(d: Seq<u8>) -> bool {
    &&& d.len() >= 0x14
    &&& d[0] == 0x4c
    &&& d[1] == 0x8b
    &&& d[2] == 0xd1
    &&& d[3] == 0xb8
    &&& d[0x12] == 0x0f
    &&& d[0x13] == 0x05
}

/// The immediate of `mov eax, imm32`: the syscall id.
pub open spec fn amd64_stub_id(d: Seq<u8>) -> u32 {
    le32(d, 4)
}

/// Whether `d` starts with the ARM64 syscall stub: an `SVC #imm16`
/// instruction followed by `RET`.
pub open spec fn arm64_stub_matches(d: Seq<u8>) -> bool {
    &&& d.len() >= 8
    &&& (le32(d, 0) & 0xF) == 1
    &&& (le32(d, 0) >> 21) == 0x6a0
    &&& d[4] == 0xc0
    &&& d[5] == 0x03
    &&& d[6] == 0x5f
    &&& d[7] == 0xd6
}

/// The 16-bit immediate of the `SVC`: the syscall id.
pub open spec fn arm64_stub_id(d: Seq<u8>) -> u32 {
    (le32(d, 0) >> 5) & 0xFFFF
}

/// Matches the AMD64 user-mode syscall stub at the start of
/// `export_data` and hands back the syscall id with the export's name.
pub fn extract_user_syscall_id_amd64(export_name: String, export_data: &[u8]) -> (r: Option<
    (u32, String),
>)
    ensures
        match r {
            Some(p) => amd64_stub_matches(export_data@) && p.0 == amd64_stub_id(export_data@)
                && p.1@ == export_name@,
            None => !amd64_stub_matches(export_data@),
        },
{
    if export_data.len() < 0x14 {
        return None;
    }
    if export_data[0] == 0x4c && export_data[1] == 0x8b && export_data[2] == 0xd1
        && export_data[3] == 0xb8 && export_data[0x12] == 0x0f && export_data[0x13] == 0x05 {
        let syscall_id = read_u32_le(export_data, 4);
        Some((syscall_id, export_name))
    } else {
        None
    }
}

/// Matches the ARM64 user-mode syscall stub at the start of
/// `export_data` and hands back the syscall id with the export's name.
pub fn extract_user_syscall_id_arm64(export_name: String, export_data: &[u8]) -> (r: Option<
    (u32, String),
>)
    ensures
        match r {
            Some(p) => arm64_stub_matches(export_data@) && p.0 == arm64_stub_id(export_data@)
                && p.1@ == export_name@,
            None => !arm64_stub_matches(export_data@),
        },
{
    if export_data.len() < 8 {
        return None;
    }
    let first_inst = read_u32_le(export_data, 0);
    let is_first_inst_svc = (first_inst & 0xF) == 1 && (first_inst >> 21) == 0x6a0;
    if is_first_inst_svc {
        let is_second_inst_ret = export_data[4] == 0xc0 && export_data[5] == 0x03
            && export_data[6] == 0x5f && export_data[7] == 0xd6;
        if is_second_inst_ret {
            let syscall_id = (first_inst >> 5) & 0xFFFF;
            return Some((syscall_id, export_name));
        }
    }
    None
}

// ---------------------------------------------------------------------
// User-mode walk over the export table.
// ---------------------------------------------------------------------

/// The name an export contributes to the syscall table: its own name,
/// or `Ordinal<i>` for a nameless entry at index `i`.
pub open spec fn spec_export_name(exports: Seq<PeExport>, i: int) -> Seq<char> {
    match exports[i].name {
        Some(n) => n@,
        None => "Ordinal"@ + dec_chars(i as nat),
    }
}

/// What export `i` contributes: the (id, name) pair of its stub when the
/// export has a resolved offset inside the image and the bytes there
/// match the architecture's stub; nothing otherwise.
pub open spec fn spec_user_entry(
    amd64: bool,
    data: Seq<u8>,
    exports: Seq<PeExport>,
    i: int,
) -> Option<(u32, Seq<char>)> {
    match exports[i].offset {
        Some(off) => if off <= data.len() {
            let d = data.skip(off as int);
            if amd64 {
                if amd64_stub_matches(d) {
                    Some((amd64_stub_id(d), spec_export_name(exports, i)))
                } else {
                    None
                }
            } else {
                if arm64_stub_matches(d) {
                    Some((arm64_stub_id(d), spec_export_name(exports, i)))
                } else {
                    None
                }
            }
        } else {
            None
        },
        None => None,
    }
}

/// The syscalls of the first `n` exports, in export-table order.
pub open spec fn spec_user_syscalls(
    amd64: bool,
    data: Seq<u8>,
    exports: Seq<PeExport>,
    n: int,
) -> Seq<(u32, Seq<char>)>
    decreases n,
{
    if n <= 0 {
        Seq::empty()
    } else {
        spec_user_syscalls(amd64, data, exports, n - 1) + (match spec_user_entry(
            amd64,
            data,
            exports,
            n - 1,
        ) {
            Some(e) => seq![e],
            None => Seq::empty(),
        })
    }
}

/// Builds `Ordinal<i>`.
fn ordinal_name(i: usize) -> (r: String)
    ensures
        r@ == "Ordinal"@ + dec_chars(i as nat),
{
    let mut s: String = "Ordinal".to_owned();
    push_dec_u64(&mut s, i as u64);
    s
}

/// Walks the export table of a user-mode binary and pattern-matches each
/// export's code against the architecture's syscall stub. Only AMD64 and
/// ARM64 images are understood.
pub fn extract_syscalls_from_user_binaries(pe: &PeInfo, pe_data: &[u8]) -> (r: Result<
    Vec<(u32, String)>,
    WinDiffError,
>)
    ensures
        match r {
            Ok(v) => (pe.machine == 0x8664 || pe.machine == 0xaa64) && v@.map_values(
                |p: (u32, String)| (p.0, p.1@),
            ) == spec_user_syscalls(pe.machine == 0x8664, pe_data@, pe.exports@, pe.exports@.len() as int),
            Err(e) => e is UnsupportedArchitecture && pe.machine != 0x8664 && pe.machine != 0xaa64,
        },
{
    let amd64: bool = (pe.machine as u32) == OSArchitecture::Amd64.to_machine_type();
    let arm64: bool = (pe.machine as u32) == OSArchitecture::Arm64.to_machine_type();
    if !amd64 && !arm64 {
        return Err(WinDiffError::UnsupportedArchitecture);
    }
    let n = pe.exports.len();
    let mut result: Vec<(u32, String)> = Vec::new();
    let mut i: usize = 0;
    while i < n
        invariant
            i <= n,
            n == pe.exports@.len(),
            amd64 == (pe.machine == 0x8664),
            arm64 == (pe.machine == 0xaa64),
            amd64 || arm64,
            result@.map_values(|p: (u32, String)| (p.0, p.1@)) == spec_user_syscalls(
                amd64,
                pe_data@,
                pe.exports@,
                i as int,
            ),
        decreases n - i,
    {
        let ghost prev = result@.map_values(|p: (u32, String)| (p.0, p.1@));
        let export = &pe.exports[i];
        let export_name: String = match &export.name {
            Some(name) => name.clone(),
            None => ordinal_name(i),
        };
        let mut matched: Option<(u32, String)> = None;
        match export.offset {
            Some(export_offset) => {
                if export_offset <= pe_data.len() {
                    let tail = slice_subrange(pe_data, export_offset, pe_data.len());
                    proof {
                        assert(tail@ =~= pe_data@.skip(export_offset as int));
                    }
                    if amd64 {
                        matched = extract_user_syscall_id_amd64(export_name, tail);
                    } else {
                        matched = extract_user_syscall_id_arm64(export_name, tail);
                    }
                }
            },
            None => {},
        }
        match matched {
            Some(pair) => {
                result.push(pair);
                proof {
                    assert(result@.map_values(|p: (u32, String)| (p.0, p.1@)) =~= prev
                        + seq![(result@.last().0, result@.last().1@)]);
                }
            },
            None => {},
        }
        proof {
            assert(result@.map_values(|p: (u32, String)| (p.0, p.1@)) =~= spec_user_syscalls(
                amd64,
                pe_data@,
                pe.exports@,
                i + 1,
            ));
        }
        i = i + 1;
    }
    Ok(result)
}

// ---------------------------------------------------------------------
// Kernel mode: walk a service table that PDB symbols locate.
// ---------------------------------------------------------------------

/// The RVA that a 64-bit service-table entry holding virtual address
/// `va` denotes, with addresses below the image base saturating to zero
/// and the result truncated to 32 bits.
pub open spec fn spec_va_to_rva(va: u64, image_base: u64) -> u32 {
    (if va >= image_base {
        va - image_base
    } else {
        0
    }) as u32
}

/// Whether the service table at file offset `off` holds 32-bit RVA
/// entries: its first eight bytes, read as a virtual address, denote
/// nothing that the symbol map knows. The full difference from the
/// image base is what gets looked up: a difference of zero, or one
/// past 32 bits — which no RVA can equal — already classifies the
/// table as RVA-form.
pub open spec fn spec_table_is_rva(
    image_base: u64,
    data: Seq<u8>,
    symbols: U32StrMap,
    off: int,
) -> bool {
    let va = le64(data, off);
    let d = if va >= image_base {
        va - image_base
    } else {
        0
    };
    d == 0 || d > u32::MAX || !symbols.contains_key(d as u32)
}

/// The RVA of service-table entry `i`: a plain little-endian `u32` in a
/// narrow table, a virtual address less the image base in a wide one.
pub open spec fn spec_table_entry_rva(
    data: Seq<u8>,
    table_off: int,
    wide: bool,
    image_base: u64,
    i: int,
) -> u32 {
    if wide {
        spec_va_to_rva(le64(data, table_off + 8 * i), image_base)
    } else {
        le32(data, table_off + 4 * i)
    }
}

/// Whether the probe that classifies the table can read its first
/// eight bytes.
pub open spec fn spec_table_probe_ok(data: Seq<u8>, table_off: u32) -> bool {
    table_off + 8 <= data.len()
}

/// Bytes per table entry: eight in a wide (VA) table, four in a
/// narrow (RVA) one.
pub open spec fn spec_table_esize(wide: bool) -> int {
    if wide {
        8
    } else {
        4
    }
}

/// Whether all `limit` entries lie inside the image's bytes.
pub open spec fn spec_table_fits(data: Seq<u8>, table_off: u32, wide: bool, limit: u32) -> bool {
    table_off + spec_table_esize(wide) * limit <= data.len()
}

/// Whether the symbol map names entry `i`.
pub open spec fn spec_entry_resolves(
    symbols: U32StrMap,
    data: Seq<u8>,
    table_off: int,
    wide: bool,
    image_base: u64,
    i: int,
) -> bool {
    symbols.contains_key(spec_table_entry_rva(data, table_off, wide, image_base, i))
}

/// Whether the symbol map names every entry of the table.
pub open spec fn spec_all_entries_resolve(
    symbols: U32StrMap,
    data: Seq<u8>,
    table_off: int,
    wide: bool,
    image_base: u64,
    limit: u32,
) -> bool {
    forall|i: int|
        0 <= i < limit ==> spec_entry_resolves(symbols, data, table_off, wide, image_base, i)
}

/// Decides whether a service table holds RVAs or VAs by probing its
/// first entry against the symbol map.
pub fn does_service_table_contain_rva(
    image_base: u64,
    pe_data: &[u8],
    symbols: &U32StrMap,
    service_table_info: &(u32, u32),
) -> (r: bool)
    requires
        symbols.wf(),
        service_table_info.0 + 8 <= pe_data@.len(),
    ensures
        r == spec_table_is_rva(image_base, pe_data@, *symbols, service_table_info.0 as int),
{
    let va = read_u64_le(pe_data, service_table_info.0 as usize);
    let d: u64 = if va >= image_base {
        va - image_base
    } else {
        0
    };
    if d == 0 || d > 0xFFFFFFFF {
        true
    } else {
        !symbols.has_key(d as u32)
    }
}

/// The search for a service table, from symbol `k` on with the pieces
/// found so far: a symbol named `table_name` sets the table's file
/// offset (truncated to 32 bits, as the table state holds it), one
/// named `limit_name` sets the limit to the `u32` read at its file
/// offset, and the search ends as soon as both pieces are nonzero. An
/// RVA that no section backs is `MissingExecutableOptionalHeader`, a
/// limit beyond the image's bytes is `TryFromSliceError`, and a walk
/// that runs out of symbols is `SystemServiceTableNotFoundError`.
pub open spec fn spec_find_service_table_from(
    sections: Seq<crate::pe::PeSection>,
    fa: u32,
    data: Seq<u8>,
    symbols: Seq<(u32, Seq<char>)>,
    table_name: Seq<char>,
    limit_name: Seq<char>,
    k: int,
    table_offset: u32,
    table_limit: u32,
) -> Result<(u32, u32), WinDiffError>
    decreases symbols.len() - k, 1int,
{
    if k < 0 || k >= symbols.len() {
        Err(WinDiffError::SystemServiceTableNotFoundError)
    } else if symbols[k].1 == table_name {
        match crate::pe::spec_rva_to_offset(sections, fa, symbols[k].0 as int) {
            Some(o) => spec_find_service_table_step(
                sections,
                fa,
                data,
                symbols,
                table_name,
                limit_name,
                k,
                o as u32,
                table_limit,
            ),
            None => Err(WinDiffError::MissingExecutableOptionalHeader),
        }
    } else if symbols[k].1 == limit_name {
        match crate::pe::spec_rva_to_offset(sections, fa, symbols[k].0 as int) {
            Some(o) => if o + 4 <= data.len() {
                spec_find_service_table_step(
                    sections,
                    fa,
                    data,
                    symbols,
                    table_name,
                    limit_name,
                    k,
                    table_offset,
                    le32(data, o),
                )
            } else {
                Err(WinDiffError::TryFromSliceError)
            },
            None => Err(WinDiffError::MissingExecutableOptionalHeader),
        }
    } else {
        spec_find_service_table_step(
            sections,
            fa,
            data,
            symbols,
            table_name,
            limit_name,
            k,
            table_offset,
            table_limit,
        )
    }
}

/// After symbol `k` was folded in: done when both pieces are nonzero,
/// on to the next symbol otherwise.
pub open spec fn spec_find_service_table_step(
    sections: Seq<crate::pe::PeSection>,
    fa: u32,
    data: Seq<u8>,
    symbols: Seq<(u32, Seq<char>)>,
    table_name: Seq<char>,
    limit_name: Seq<char>,
    k: int,
    table_offset: u32,
    table_limit: u32,
) -> Result<(u32, u32), WinDiffError>
    decreases symbols.len() - k, 0int,
{
    if table_offset != 0 && table_limit != 0 {
        Ok((table_offset, table_limit))
    } else if 0 <= k && k + 1 <= symbols.len() {
        spec_find_service_table_from(
            sections,
            fa,
            data,
            symbols,
            table_name,
            limit_name,
            k + 1,
            table_offset,
            table_limit,
        )
    } else {
        Err(WinDiffError::SystemServiceTableNotFoundError)
    }
}

/// What searching for a service table yields for a whole PE: nothing
/// without an optional header, else the walk over all symbols from
/// empty state.
pub open spec fn spec_find_service_table(
    pe: PeInfo,
    data: Seq<u8>,
    symbols: U32StrMap,
    table_name: Seq<char>,
    limit_name: Seq<char>,
) -> Result<(u32, u32), WinDiffError> {
    match pe.file_alignment {
        Some(fa) => spec_find_service_table_from(
            pe.sections@,
            fa,
            data,
            symbols@,
            table_name,
            limit_name,
            0,
            0,
            0,
        ),
        None => Err(WinDiffError::MissingExecutableOptionalHeader),
    }
}

/// The search succeeds only with both pieces nonzero, and fails only
/// with one of its three error kinds.
pub proof fn lemma_find_service_table_shape(
    sections: Seq<crate::pe::PeSection>,
    fa: u32,
    data: Seq<u8>,
    symbols: Seq<(u32, Seq<char>)>,
    table_name: Seq<char>,
    limit_name: Seq<char>,
    k: int,
    table_offset: u32,
    table_limit: u32,
)
    ensures
        match spec_find_service_table_from(
            sections,
            fa,
            data,
            symbols,
            table_name,
            limit_name,
            k,
            table_offset,
            table_limit,
        ) {
            Ok(info) => info.0 != 0 && info.1 != 0,
            Err(e) => e is SystemServiceTableNotFoundError
                || e is MissingExecutableOptionalHeader || e is TryFromSliceError,
        },
    decreases symbols.len() - k, 1int,
{
    if 0 <= k < symbols.len() {
        lemma_find_service_table_shape(
            sections,
            fa,
            data,
            symbols,
            table_name,
            limit_name,
            k + 1,
            table_offset,
            table_limit,
        );
        if symbols[k].1 == table_name {
            match crate::pe::spec_rva_to_offset(sections, fa, symbols[k].0 as int) {
                Some(o) => {
                    lemma_find_service_table_shape(
                        sections,
                        fa,
                        data,
                        symbols,
                        table_name,
                        limit_name,
                        k + 1,
                        o as u32,
                        table_limit,
                    );
                },
                None => {},
            }
        } else if symbols[k].1 == limit_name {
            match crate::pe::spec_rva_to_offset(sections, fa, symbols[k].0 as int) {
                Some(o) => {
                    if o + 4 <= data.len() {
                        lemma_find_service_table_shape(
                            sections,
                            fa,
                            data,
                            symbols,
                            table_name,
                            limit_name,
                            k + 1,
                            table_offset,
                            le32(data, o),
                        );
                    }
                },
                None => {},
            }
        }
    }
}

/// Finds a service table's file offset and its entry count, given the
/// names of the symbol that marks the table and the symbol that holds
/// its limit: exactly the search that `spec_find_service_table`
/// states, over the symbol map in ascending RVA order.
fn find_service_table(
    pe: &PeInfo,
    pe_data: &[u8],
    symbols: &U32StrMap,
    service_table_name: &str,
    service_table_size_name: &str,
) -> (r: Result<(u32, u32), WinDiffError>)
    requires
        symbols.wf(),
    ensures
        r == spec_find_service_table(
            *pe,
            pe_data@,
            *symbols,
            service_table_name@,
            service_table_size_name@,
        ),
{
    let fa: u32 = match pe.file_alignment {
        Some(fa) => fa,
        None => {
            return Err(WinDiffError::MissingExecutableOptionalHeader);
        },
    };
    let mut table_offset: u32 = 0;
    let mut table_limit: u32 = 0;
    let n = symbols.len();
    let mut k: usize = 0;
    while k < n
        invariant
            k <= n,
            n == symbols@.len(),
            symbols.wf(),
            pe.file_alignment == Some(fa),
            spec_find_service_table(
                *pe,
                pe_data@,
                *symbols,
                service_table_name@,
                service_table_size_name@,
            ) == spec_find_service_table_from(
                pe.sections@,
                fa,
                pe_data@,
                symbols@,
                service_table_name@,
                service_table_size_name@,
                k as int,
                table_offset,
                table_limit,
            ),
        decreases n - k,
    {
        let entry = symbols.entry_at(k);
        if str_eq(entry.1.as_str(), service_table_name) {
            match rva_to_offset(entry.0, &pe.sections, fa) {
                Some(off) => {
                    table_offset = #[verifier::truncate] (off as u32);
                },
                None => {
                    return Err(WinDiffError::MissingExecutableOptionalHeader);
                },
            }
        } else if str_eq(entry.1.as_str(), service_table_size_name) {
            match rva_to_offset(entry.0, &pe.sections, fa) {
                Some(off) => {
                    if off + 4 > pe_data.len() as u64 {
                        return Err(WinDiffError::TryFromSliceError);
                    }
                    table_limit = read_u32_le(pe_data, off as usize);
                },
                None => {
                    return Err(WinDiffError::MissingExecutableOptionalHeader);
                },
            }
        }
        if table_offset != 0 && table_limit != 0 {
            return Ok((table_offset, table_limit));
        }
        k = k + 1;
    }
    Err(WinDiffError::SystemServiceTableNotFoundError)
}

/// Walks the service table entry by entry and resolves every entry's
/// RVA to a symbol name. The result is total over its inputs: a table
/// whose probe or entries run past the image's bytes is
/// `TryFromSliceError`, a table with an entry that the symbol map
/// cannot name is `SystemServiceTableParsingError`, and otherwise the
/// walk succeeds with the dense ids `[0, limit)` and each entry's
/// symbol name.
fn extract_syscalls_from_service_table(
    pe: &PeInfo,
    pe_data: &[u8],
    symbols: &U32StrMap,
    service_table_info: &(u32, u32),
) -> (r: Result<Vec<(u32, String)>, WinDiffError>)
    requires
        symbols.wf(),
    ensures
        ({
            let wide = !spec_table_is_rva(
                pe.image_base,
                pe_data@,
                *symbols,
                service_table_info.0 as int,
            );
            let probe_ok = spec_table_probe_ok(pe_data@, service_table_info.0);
            let fits = spec_table_fits(pe_data@, service_table_info.0, wide, service_table_info.1);
            let resolved = spec_all_entries_resolve(
                *symbols,
                pe_data@,
                service_table_info.0 as int,
                wide,
                pe.image_base,
                service_table_info.1,
            );
            match r {
                Ok(v) => {
                    &&& probe_ok && fits && resolved
                    &&& v@.len() == service_table_info.1 as int
                    &&& forall|i: int| 0 <= i < v@.len() ==> (#[trigger] v@[i]).0 == i as u32
                    &&& forall|i: int|
                        0 <= i < v@.len() ==> symbols.spec_get(
                            spec_table_entry_rva(
                                pe_data@,
                                service_table_info.0 as int,
                                wide,
                                pe.image_base,
                                i,
                            ),
                        ) == Some((#[trigger] v@[i]).1@)
                },
                Err(e) => {
                    &&& (e is TryFromSliceError || e is SystemServiceTableParsingError)
                    &&& ((e is TryFromSliceError) <==> !(probe_ok && fits))
                    &&& ((e is SystemServiceTableParsingError) <==> (probe_ok && fits
                        && !resolved))
                },
            }
        }),
{
    let table_off = service_table_info.0;
    let limit = service_table_info.1;
    if table_off as u64 + 8 > pe_data.len() as u64 {
        return Err(WinDiffError::TryFromSliceError);
    }
    let image_base = pe.image_base;
    let contains_rva = does_service_table_contain_rva(image_base, pe_data, symbols, service_table_info);
    let ghost wide = !contains_rva;
    let esize: u64 = if contains_rva {
        4
    } else {
        8
    };
    if table_off as u64 + esize * (limit as u64) > pe_data.len() as u64 {
        proof {
            assert(esize == spec_table_esize(wide));
            assert(!spec_table_fits(pe_data@, table_off, wide, limit));
        }
        return Err(WinDiffError::TryFromSliceError);
    }
    proof {
        assert(spec_table_fits(pe_data@, table_off, wide, limit));
    }
    let mut result: Vec<(u32, String)> = Vec::new();
    let mut id: u32 = 0;
    while id < limit
        invariant
            id <= limit,
            symbols.wf(),
            image_base == pe.image_base,
            contains_rva == !wide,
            esize == if wide {
                8int
            } else {
                4int
            },
            wide == !spec_table_is_rva(pe.image_base, pe_data@, *symbols, table_off as int),
            table_off == service_table_info.0,
            limit == service_table_info.1,
            spec_table_probe_ok(pe_data@, table_off),
            spec_table_fits(pe_data@, table_off, wide, limit),
            pe_data@.len() <= usize::MAX,
            result@.len() == id as int,
            forall|i: int| 0 <= i < result@.len() ==> (#[trigger] result@[i]).0 == i as u32,
            forall|i: int|
                0 <= i < result@.len() ==> symbols.spec_get(
                    spec_table_entry_rva(pe_data@, table_off as int, wide, pe.image_base, i),
                ) == Some((#[trigger] result@[i]).1@),
            forall|i: int|
                0 <= i < id ==> spec_entry_resolves(
                    *symbols,
                    pe_data@,
                    table_off as int,
                    wide,
                    pe.image_base,
                    i,
                ),
        decreases limit - id,
    {
        proof {
            if contains_rva {
                assert(esize == 4);
                assert(esize * (id as u64) == 4 * (id as u64));
                assert(spec_table_esize(wide) == 4);
                assert(table_off + 4 * (id as int) + 4 <= table_off + 4 * (limit as int));
            } else {
                assert(esize == 8);
                assert(esize * (id as u64) == 8 * (id as u64));
                assert(spec_table_esize(wide) == 8);
                assert(table_off + 8 * (id as int) + 8 <= table_off + 8 * (limit as int));
            }
            assert(table_off + esize * (id as u64) + esize <= pe_data@.len());
        }
        let off64: u64 = table_off as u64 + esize * (id as u64);
        let off = off64 as usize;
        proof {
            if contains_rva {
                assert(off as int == table_off + 4 * (id as int));
            } else {
                assert(off as int == table_off + 8 * (id as int));
            }
        }
        let rva: u32 = if contains_rva {
            read_u32_le(pe_data, off)
        } else {
            let va = read_u64_le(pe_data, off);
            let d: u64 = if va >= image_base {
                va - image_base
            } else {
                0
            };
            #[verifier::truncate] (d as u32)
        };
        proof {
            assert(rva == spec_table_entry_rva(
                pe_data@,
                table_off as int,
                wide,
                pe.image_base,
                id as int,
            ));
        }
        match symbols.get(rva) {
            Some(symbol_name) => {
                let name = symbol_name.clone();
                result.push((id, name));
            },
            None => {
                proof {
                    assert(!symbols.contains_key(rva));
                    assert(!spec_entry_resolves(
                        *symbols,
                        pe_data@,
                        table_off as int,
                        wide,
                        pe.image_base,
                        id as int,
                    ));
                    assert(!spec_all_entries_resolve(
                        *symbols,
                        pe_data@,
                        table_off as int,
                        wide,
                        pe.image_base,
                        limit,
                    ));
                }
                return Err(WinDiffError::SystemServiceTableParsingError);
            },
        }
        id = id + 1;
    }
    Ok(result)
}

/// What kernel-mode syscall extraction yields for a service table
/// named by `table_name`/`limit_name`, with `table_bit` folded into
/// every id: the table search's error when it fails; otherwise the
/// walk of the found table, exactly as `extract_syscalls_from_service_table`
/// characterizes it, with each id carrying `table_bit`.
pub open spec fn spec_kernel_syscalls_post(
    pe: PeInfo,
    data: Seq<u8>,
    symbols: U32StrMap,
    table_name: Seq<char>,
    limit_name: Seq<char>,
    table_bit: u32,
    r: Result<Vec<(u32, String)>, WinDiffError>,
) -> bool {
    match spec_find_service_table(pe, data, symbols, table_name, limit_name) {
        Err(e) => r == Err::<Vec<(u32, String)>, WinDiffError>(e),
        Ok(info) => {
            let wide = !spec_table_is_rva(pe.image_base, data, symbols, info.0 as int);
            let probe_ok = spec_table_probe_ok(data, info.0);
            let fits = spec_table_fits(data, info.0, wide, info.1);
            let resolved = spec_all_entries_resolve(
                symbols,
                data,
                info.0 as int,
                wide,
                pe.image_base,
                info.1,
            );
            match r {
                Ok(v) => {
                    &&& probe_ok && fits && resolved
                    &&& v@.len() == info.1 as int
                    &&& forall|i: int|
                        0 <= i < v@.len() ==> (#[trigger] v@[i]).0 == (i as u32) | table_bit
                    &&& forall|i: int|
                        0 <= i < v@.len() ==> symbols.spec_get(
                            spec_table_entry_rva(data, info.0 as int, wide, pe.image_base, i),
                        ) == Some((#[trigger] v@[i]).1@)
                },
                Err(e) => {
                    &&& (e is TryFromSliceError || e is SystemServiceTableParsingError)
                    &&& ((e is TryFromSliceError) <==> !(probe_ok && fits))
                    &&& ((e is SystemServiceTableParsingError) <==> (probe_ok && fits
                        && !resolved))
                },
            }
        },
    }
}

proof fn lemma_or_zero_u32(x: u32)
    ensures
        x | 0 == x,
{
    assert(x | 0 == x) by (bit_vector);
}

/// Syscalls of `ntoskrnl.exe`: the table that `KiServiceTable` and
/// `KiServiceLimit` locate, walked with dense ids from zero.
fn extract_ntoskrnl_syscalls(
    pe: &PeInfo,
    pe_data: &[u8],
    symbols: &U32StrMap,
) -> (r: Result<Vec<(u32, String)>, WinDiffError>)
    requires
        symbols.wf(),
    ensures
        spec_kernel_syscalls_post(
            *pe,
            pe_data@,
            *symbols,
            "KiServiceTable"@,
            "KiServiceLimit"@,
            0,
            r,
        ),
{
    let service_table_info = match find_service_table(
        pe,
        pe_data,
        symbols,
        "KiServiceTable",
        "KiServiceLimit",
    ) {
        Ok(info) => info,
        Err(e) => {
            return Err(e);
        },
    };
    let r = extract_syscalls_from_service_table(pe, pe_data, symbols, &service_table_info);
    proof {
        match &r {
            Ok(v) => {
                assert forall|i: int| 0 <= i < v@.len() implies (#[trigger] v@[i]).0 == (
                i as u32) | 0u32 by {
                    lemma_or_zero_u32(i as u32);
                }
            },
            Err(_) => {},
        }
    }
    r
}

/// Syscalls of `win32k.sys`: the table that `W32pServiceTable` and
/// `W32pServiceLimit` locate; every id carries the win32k table
/// identifier, with the names of the walk unchanged.
fn extract_win32k_syscalls(
    pe: &PeInfo,
    pe_data: &[u8],
    symbols: &U32StrMap,
) -> (r: Result<Vec<(u32, String)>, WinDiffError>)
    requires
        symbols.wf(),
    ensures
        spec_kernel_syscalls_post(
            *pe,
            pe_data@,
            *symbols,
            "W32pServiceTable"@,
            "W32pServiceLimit"@,
            0x1000,
            r,
        ),
{
    let service_table_info = match find_service_table(
        pe,
        pe_data,
        symbols,
        "W32pServiceTable",
        "W32pServiceLimit",
    ) {
        Ok(info) => info,
        Err(e) => {
            return Err(e);
        },
    };
    let table = match extract_syscalls_from_service_table(pe, pe_data, symbols, &service_table_info)
        {
        Ok(v) => v,
        Err(e) => {
            return Err(e);
        },
    };
    let ghost wide = !spec_table_is_rva(
        pe.image_base,
        pe_data@,
        *symbols,
        service_table_info.0 as int,
    );
    let n = table.len();
    let mut result: Vec<(u32, String)> = Vec::new();
    let mut i: usize = 0;
    while i < n
        invariant
            i <= n,
            n == table@.len(),
            forall|j: int| 0 <= j < table@.len() ==> (#[trigger] table@[j]).0 == j as u32,
            result@.len() == i as int,
            forall|j: int|
                0 <= j < result@.len() ==> (#[trigger] result@[j]).0 == (j as u32) | 0x1000,
            forall|j: int|
                0 <= j < result@.len() ==> (#[trigger] result@[j]).1@ == table@[j].1@,
        decreases n - i,
    {
        let id = table[i].0 | 0x1000;
        let name = table[i].1.clone();
        result.push((id, name));
        i = i + 1;
    }
    proof {
        assert forall|j: int|
            0 <= j < result@.len() implies symbols.spec_get(
            spec_table_entry_rva(
                pe_data@,
                service_table_info.0 as int,
                wide,
                pe.image_base,
                j,
            ),
        ) == Some((#[trigger] result@[j]).1@) by {
            assert(result@[j].1@ == table@[j].1@);
        }
    }
    Ok(result)
}

/// The export-table names that select kernel-mode extraction.
pub open spec fn spec_is_ntoskrnl(name: Seq<char>) -> bool {
    eq_ignore_ascii_case(name, "ntoskrnl.exe"@)
}

pub open spec fn spec_is_win32k(name: Seq<char>) -> bool {
    eq_ignore_ascii_case(name, "win32k.sys"@)
}

/// Extracts the syscalls of a PE, if syscall extraction is supported
/// for it. `ntoskrnl.exe` and `win32k.sys` are walked through their
/// PDB-located service tables; any other binary is treated as
/// user-mode and pattern-matched export by export.
pub fn extract_syscalls(pe: &PeInfo, pe_data: &[u8], symbols: &U32StrMap) -> (r: Result<
    Vec<(u32, String)>,
    WinDiffError,
>)
    requires
        symbols.wf(),
    ensures
        (r matches Err(WinDiffError::MissingExecutableExportInfo(_))) <==> (!pe.has_export_data
            || pe.export_name is None),
        (match pe.export_name {
            Some(n) => pe.has_export_data && spec_is_ntoskrnl(n@),
            None => false,
        }) ==> spec_kernel_syscalls_post(
            *pe,
            pe_data@,
            *symbols,
            "KiServiceTable"@,
            "KiServiceLimit"@,
            0,
            r,
        ),
        (match pe.export_name {
            Some(n) => pe.has_export_data && !spec_is_ntoskrnl(n@) && spec_is_win32k(n@),
            None => false,
        }) ==> spec_kernel_syscalls_post(
            *pe,
            pe_data@,
            *symbols,
            "W32pServiceTable"@,
            "W32pServiceLimit"@,
            0x1000,
            r,
        ),
        (match pe.export_name {
            Some(n) => pe.has_export_data && !spec_is_ntoskrnl(n@) && !spec_is_win32k(n@),
            None => false,
        }) ==> (match r {
            Ok(v) => (pe.machine == 0x8664 || pe.machine == 0xaa64) && v@.map_values(
                |p: (u32, String)| (p.0, p.1@),
            ) == spec_user_syscalls(
                pe.machine == 0x8664,
                pe_data@,
                pe.exports@,
                pe.exports@.len() as int,
            ),
            Err(e) => e is UnsupportedArchitecture && pe.machine != 0x8664 && pe.machine != 0xaa64,
        }),
{
    if !pe.has_export_data {
        return Err(
            WinDiffError::MissingExecutableExportInfo("missing export data".to_owned()),
        );
    }
    let pe_name: &String = match &pe.export_name {
        Some(name) => name,
        None => {
            return Err(
                WinDiffError::MissingExecutableExportInfo("missing binary name".to_owned()),
            );
        },
    };
    if str_eq_ignore_ascii_case(pe_name.as_str(), "ntoskrnl.exe") {
        let r = extract_ntoskrnl_syscalls(pe, pe_data, symbols);
        proof {
            match pe.file_alignment {
                Some(fa) => {
                    lemma_find_service_table_shape(
                        pe.sections@,
                        fa,
                        pe_data@,
                        symbols@,
                        "KiServiceTable"@,
                        "KiServiceLimit"@,
                        0,
                        0,
                        0,
                    );
                },
                None => {},
            }
        }
        return r;
    }
    if str_eq_ignore_ascii_case(pe_name.as_str(), "win32k.sys") {
        let r = extract_win32k_syscalls(pe, pe_data, symbols);
        proof {
            match pe.file_alignment {
                Some(fa) => {
                    lemma_find_service_table_shape(
                        pe.sections@,
                        fa,
                        pe_data@,
                        symbols@,
                        "W32pServiceTable"@,
                        "W32pServiceLimit"@,
                        0,
                        0,
                        0,
                    );
                },
                None => {},
            }
        }
        return r;
    }
    extract_syscalls_from_user_binaries(pe, pe_data)
}

} // verus!
