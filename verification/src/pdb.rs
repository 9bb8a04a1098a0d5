use vstd::prelude::*;
use vstd::slice::slice_subrange;
use vstd::string::*;

use crate::error::WinDiffError;
use crate::lebytes::{be16, le16, le32, read_u16_be, read_u16_le, read_u32_le};
use crate::pe::{PeDebugInfo, PeInfo};
use crate::strset::OrderedStrSet;
use crate::text::{hex_bytes_lower, hex_chars_lower, hex_chars_upper_width,
    lemma_hex_bytes_lower_len, lemma_hex_upper_width_len, push_hex_bytes_lower,
    push_hex_lower_u64, push_hex_upper_width_u64};
use crate::u32map::U32StrMap;

verus! {

// ---------------------------------------------------------------------
// GUID formatting, as the symbol-server URL scheme fixes it.
// ---------------------------------------------------------------------

/// The GUID string of a raw 16-byte GUID: the first three fields are
/// read little-endian and printed as uppercase hex, zero-padded to
/// widths 8, 4 and 4; the fourth field is read big-endian and printed
/// the same way at width 4; the last six bytes are hex, lowercase.
pub open spec fn spec_guid_str(g: Seq<u8>) -> Seq<char> {
    hex_chars_upper_width(le32(g, 0) as nat, 8) + hex_chars_upper_width(le16(g, 4) as nat, 4)
        + hex_chars_upper_width(le16(g, 6) as nat, 4) + hex_chars_upper_width(
        be16(g, 8) as nat,
        4,
    ) + hex_bytes_lower(g.skip(10))
}

/// Formats a raw 16-byte GUID for a symbol-server path.
pub fn guid_to_str(guid: &[u8]) -> (r: String)
    requires
        guid@.len() == 16,
    ensures
        r@ == spec_guid_str(guid@),
{
    let mut s = String::new();
    let first_part = read_u32_le(guid, 0);
    let second_part = read_u16_le(guid, 4);
    let third_part = read_u16_le(guid, 6);
    let fourth_part = read_u16_be(guid, 8);
    push_hex_upper_width_u64(&mut s, first_part as u64, 8);
    push_hex_upper_width_u64(&mut s, second_part as u64, 4);
    push_hex_upper_width_u64(&mut s, third_part as u64, 4);
    push_hex_upper_width_u64(&mut s, fourth_part as u64, 4);
    let tail = slice_subrange(guid, 10, 16);
    push_hex_bytes_lower(&mut s, tail);
    proof {
        assert(s@ =~= spec_guid_str(guid@));
    }
    s
}

/// The GUID string decomposes into its five fields at fixed positions:
/// 8 uppercase digits of the first little-endian `u32`, then 4 and 4
/// for the two little-endian `u16`s, 4 for the big-endian `u16`, and 12
/// lowercase digits for the last six bytes.
pub proof fn lemma_guid_str_parts(g: Seq<u8>)
    requires
        g.len() == 16,
    ensures
        spec_guid_str(g).len() == 32,
        spec_guid_str(g).subrange(0, 8) == hex_chars_upper_width(le32(g, 0) as nat, 8),
        spec_guid_str(g).subrange(8, 12) == hex_chars_upper_width(le16(g, 4) as nat, 4),
        spec_guid_str(g).subrange(12, 16) == hex_chars_upper_width(le16(g, 6) as nat, 4),
        spec_guid_str(g).subrange(16, 20) == hex_chars_upper_width(be16(g, 8) as nat, 4),
        spec_guid_str(g).subrange(20, 32) == hex_bytes_lower(g.skip(10)),
{
    lemma_hex_upper_width_len(le32(g, 0) as nat, 8);
    lemma_hex_upper_width_len(le16(g, 4) as nat, 4);
    lemma_hex_upper_width_len(le16(g, 6) as nat, 4);
    lemma_hex_upper_width_len(be16(g, 8) as nat, 4);
    lemma_hex_bytes_lower_len(g.skip(10));
    assert(spec_guid_str(g).subrange(0, 8) =~= hex_chars_upper_width(le32(g, 0) as nat, 8));
    assert(spec_guid_str(g).subrange(8, 12) =~= hex_chars_upper_width(le16(g, 4) as nat, 4));
    assert(spec_guid_str(g).subrange(12, 16) =~= hex_chars_upper_width(le16(g, 6) as nat, 4));
    assert(spec_guid_str(g).subrange(16, 20) =~= hex_chars_upper_width(be16(g, 8) as nat, 4));
    assert(spec_guid_str(g).subrange(20, 32) =~= hex_bytes_lower(g.skip(10)));
}

// ---------------------------------------------------------------------
// PDB download URL.
// ---------------------------------------------------------------------

/// `s` with its trailing NUL bytes removed.
pub open spec fn spec_trim_trailing_zeros(s: Seq<u8>) -> Seq<u8>
    decreases s.len(),
{
    if s.len() > 0 && s[s.len() - 1] == 0 {
        spec_trim_trailing_zeros(s.drop_last())
    } else {
        s
    }
}

proof fn lemma_trim_is_prefix(s: Seq<u8>, e: int)
    requires
        0 <= e <= s.len(),
        forall|j: int| e <= j < s.len() ==> s[j] == 0,
        e > 0 ==> s[e - 1] != 0,
    ensures
        spec_trim_trailing_zeros(s) == s.take(e),
    decreases s.len(),
{
    if s.len() > 0 && s[s.len() - 1] == 0 {
        assert(e < s.len());
        lemma_trim_is_prefix(s.drop_last(), e);
        assert(s.drop_last().take(e) =~= s.take(e));
    } else {
        assert(e == s.len());
        assert(s.take(e) =~= s);
    }
}

/// Relies on std's `str::from_utf8`: succeeds exactly on valid UTF-8
/// and decodes it.
#[verifier::external_body]
fn bytes_to_str<'a>(v: &'a [u8]) -> (r: Option<&'a str>)
    ensures
        match r {
            Some(s) => vstd::utf8::valid_utf8(v@) && s@ == vstd::utf8::decode_utf8(v@),
            None => !vstd::utf8::valid_utf8(v@),
        },
{
    core::str::from_utf8(v).ok()
}

/// The PDB name stored in a CodeView record: its file name bytes with
/// the NUL padding removed, decoded as UTF-8.
pub open spec fn spec_pdb_name(filename: Seq<u8>) -> Seq<char> {
    vstd::utf8::decode_utf8(spec_trim_trailing_zeros(filename))
}

/// The symbol-server URL of the PDB that a CodeView record names:
/// `<msdl>/<pdb-name>/<GUID><age-lowercase-hex>/<pdb-name>`. Fails with
/// `Utf8Error` exactly when the stored file name is not UTF-8.
pub fn generate_pdb_download_url(debug: &PeDebugInfo) -> (r: Result<String, WinDiffError>)
    requires
        debug.guid@.len() == 16,
    ensures
        match r {
            Ok(u) => vstd::utf8::valid_utf8(spec_trim_trailing_zeros(debug.pdb_filename@)) && u@
                == "https://msdl.microsoft.com/download/symbols/"@ + spec_pdb_name(
                debug.pdb_filename@,
            ) + "/"@ + spec_guid_str(debug.guid@) + hex_chars_lower(debug.age as nat) + "/"@
                + spec_pdb_name(debug.pdb_filename@),
            Err(e) => e is Utf8Error && !vstd::utf8::valid_utf8(
                spec_trim_trailing_zeros(debug.pdb_filename@),
            ),
        },
{
    let mut end = debug.pdb_filename.len();
    while end > 0 && debug.pdb_filename[end - 1] == 0
        invariant
            end <= debug.pdb_filename@.len(),
            forall|j: int| end <= j < debug.pdb_filename@.len() ==> debug.pdb_filename@[j] == 0,
        decreases end,
    {
        end = end - 1;
    }
    let trimmed = slice_subrange(debug.pdb_filename.as_slice(), 0, end);
    proof {
        lemma_trim_is_prefix(debug.pdb_filename@, end as int);
        assert(trimmed@ == spec_trim_trailing_zeros(debug.pdb_filename@));
    }
    let pdb_name: &str = match bytes_to_str(trimmed) {
        Some(s) => s,
        None => {
            return Err(WinDiffError::Utf8Error);
        },
    };
    let mut url: String = "https://msdl.microsoft.com/download/symbols/".to_owned();
    url.append(pdb_name);
    url.append("/");
    let guid_str = guid_to_str(debug.guid.as_slice());
    url.append(guid_str.as_str());
    push_hex_lower_u64(&mut url, debug.age as u64);
    url.append("/");
    url.append(pdb_name);
    Ok(url)
}

/// The PDB URL for a parsed PE; a PE without a CodeView record has no
/// PDB to fetch and fails with `MissingExecutableDebugInfo`.
pub fn download_pdb_url_for_pe(pe: &PeInfo) -> (r: Result<String, WinDiffError>)
    requires
        pe.wf(),
    ensures
        pe.debug is None ==> r matches Err(WinDiffError::MissingExecutableDebugInfo(_)),
        match pe.debug {
            Some(d) => (match r {
                Ok(u) => vstd::utf8::valid_utf8(spec_trim_trailing_zeros(d.pdb_filename@)) && u@
                    == "https://msdl.microsoft.com/download/symbols/"@ + spec_pdb_name(
                    d.pdb_filename@,
                ) + "/"@ + spec_guid_str(d.guid@) + hex_chars_lower(d.age as nat) + "/"@
                    + spec_pdb_name(d.pdb_filename@),
                Err(e) => e is Utf8Error,
            }),
            None => true,
        },
{
    match &pe.debug {
        Some(d) => generate_pdb_download_url(d),
        None => Err(WinDiffError::MissingExecutableDebugInfo("CodeView debug info".to_owned())),
    }
}

/// The local file name a downloaded PDB is stored under: the PE's file
/// stem with `.pdb` appended.
pub fn pdb_local_file_name(pe_stem: &str) -> (r: String)
    ensures
        r@ == pe_stem@ + ".pdb"@,
{
    let mut name: String = pe_stem.to_owned();
    name.append(".pdb");
    name
}

// ---------------------------------------------------------------------
// Symbol normalization: what each PDB symbol contributes to the
// database's symbol set.
// ---------------------------------------------------------------------

/// A PDB symbol, reduced to what normalization reads: its kind, its
/// name, and — for a public symbol — whether the function bit is set.
#[derive(Debug, Clone)]
pub enum PdbSymbol {
    Public { function: bool, name: String },
    Data { name: String },
    Procedure { name: String },
    Other,
}

/// What a symbol contributes to the symbol set: procedures and public
/// functions get `()` appended, data and plain public symbols keep
/// their name, and every other kind is dropped.
pub open spec fn spec_symbol_name(sym: PdbSymbol) -> Option<Seq<char>> {
    match sym {
        PdbSymbol::Public { function, name } => if function {
            Some(name@ + "()"@)
        } else {
            Some(name@)
        },
        PdbSymbol::Data { name } => Some(name@),
        PdbSymbol::Procedure { name } => Some(name@ + "()"@),
        PdbSymbol::Other => None,
    }
}

/// Normalizes one symbol; a kind that the database does not record is
/// `UnsupportedExecutableFormat`, as the reader skips it.
pub fn dump_symbol(symbol: &PdbSymbol) -> (r: Result<String, WinDiffError>)
    ensures
        match r {
            Ok(s) => spec_symbol_name(*symbol) == Some(s@),
            Err(_) => spec_symbol_name(*symbol) is None,
        },
{
    match symbol {
        PdbSymbol::Public { function, name } => {
            if *function {
                let mut s = name.clone();
                s.append("()");
                Ok(s)
            } else {
                Ok(name.clone())
            }
        },
        PdbSymbol::Data { name } => Ok(name.clone()),
        PdbSymbol::Procedure { name } => {
            let mut s = name.clone();
            s.append("()");
            Ok(s)
        },
        PdbSymbol::Other => Err(WinDiffError::UnsupportedExecutableFormat),
    }
}

/// Folds a run of symbols into an ordered set of normalized names.
pub fn walk_symbols(symbols: &Vec<PdbSymbol>) -> (r: OrderedStrSet)
    ensures
        r.wf(),
        forall|t: Seq<char>|
            r.contains_str(t) <==> (exists|i: int|
                0 <= i < symbols@.len() && spec_symbol_name(symbols@[i]) == Some(t)),
    {
    let mut r = OrderedStrSet::new();
    let n = symbols.len();
    let mut i: usize = 0;
    while i < n
        invariant
            i <= n,
            n == symbols@.len(),
            r.wf(),
            forall|t: Seq<char>|
                r.contains_str(t) <==> (exists|j: int|
                    0 <= j < i && spec_symbol_name(symbols@[j]) == Some(t)),
        decreases n - i,
    {
        match dump_symbol(&symbols[i]) {
            Ok(value) => {
                let ghost v = value@;
                r.insert(value);
                proof {
                    assert(spec_symbol_name(symbols@[i as int]) == Some(v));
                    assert forall|t: Seq<char>|
                        r.contains_str(t) <==> (exists|j: int|
                            0 <= j < i + 1 && spec_symbol_name(symbols@[j]) == Some(t)) by {
                        if r.contains_str(t) {
                            if t == v {
                                assert(spec_symbol_name(symbols@[i as int]) == Some(t));
                            }
                        }
                        if exists|j: int| 0 <= j < i + 1 && spec_symbol_name(symbols@[j]) == Some(
                            t,
                        ) {
                            let j = choose|j: int|
                                0 <= j < i + 1 && spec_symbol_name(symbols@[j]) == Some(t);
                            if j == i {
                                assert(t == v);
                            }
                        }
                    }
                }
            },
            Err(_) => {
                proof {
                    assert forall|t: Seq<char>|
                        r.contains_str(t) <==> (exists|j: int|
                            0 <= j < i + 1 && spec_symbol_name(symbols@[j]) == Some(t)) by {
                        if exists|j: int| 0 <= j < i + 1 && spec_symbol_name(symbols@[j]) == Some(
                            t,
                        ) {
                            let j = choose|j: int|
                                0 <= j < i + 1 && spec_symbol_name(symbols@[j]) == Some(t);
                            assert(j < i || spec_symbol_name(symbols@[j]) is None);
                        }
                    }
                }
            },
        }
        i = i + 1;
    }
    r
}

/// The value that the last pair holding key `k` binds, if any pair does.
pub open spec fn spec_last_value(pairs: Seq<(u32, Seq<char>)>, k: u32) -> Option<Seq<char>>
    decreases pairs.len(),
{
    if pairs.len() == 0 {
        None
    } else if pairs.last().0 == k {
        Some(pairs.last().1)
    } else {
        spec_last_value(pairs.drop_last(), k)
    }
}

/// Builds the RVA-to-name map that the syscall extractor walks; of
/// pairs sharing an RVA the last one wins.
pub fn extract_symbols_with_offset(pairs: &Vec<(u32, String)>) -> (r: U32StrMap)
    ensures
        r.wf(),
        forall|k: u32|
            r.spec_get(k) == spec_last_value(
                pairs@.map_values(|p: (u32, String)| (p.0, p.1@)),
                k,
            ),
{
    let mut r = U32StrMap::new();
    let n = pairs.len();
    let mut i: usize = 0;
    proof {
        assert forall|k: u32|
            r.spec_get(k) == spec_last_value(
                pairs@.map_values(|p: (u32, String)| (p.0, p.1@)).take(0),
                k,
            ) by {
            assert(pairs@.map_values(|p: (u32, String)| (p.0, p.1@)).take(0) =~= Seq::<
                (u32, Seq<char>),
            >::empty());
        }
    }
    while i < n
        invariant
            i <= n,
            n == pairs@.len(),
            r.wf(),
            forall|k: u32|
                r.spec_get(k) == spec_last_value(
                    pairs@.map_values(|p: (u32, String)| (p.0, p.1@)).take(i as int),
                    k,
                ),
        decreases n - i,
    {
        let ghost all = pairs@.map_values(|p: (u32, String)| (p.0, p.1@));
        let key = pairs[i].0;
        let value = pairs[i].1.clone();
        r.insert(key, value);
        proof {
            assert(all.take(i + 1).drop_last() =~= all.take(i as int));
            assert(all.take(i + 1).last() == all[i as int]);
            assert forall|k: u32| r.spec_get(k) == spec_last_value(all.take(i + 1), k) by {
                if k == key {
                    assert(all[i as int].0 == key);
                    assert(spec_last_value(all.take(i + 1), k) == Some(all[i as int].1));
                } else {
                    assert(spec_last_value(all.take(i + 1), k) == spec_last_value(
                        all.take(i as int),
                        k,
                    ));
                }
            }
        }
        i = i + 1;
    }
    proof {
        assert(pairs@.map_values(|p: (u32, String)| (p.0, p.1@)).take(n as int) =~= pairs@
            .map_values(|p: (u32, String)| (p.0, p.1@)));
    }
    r
}

} // verus!
