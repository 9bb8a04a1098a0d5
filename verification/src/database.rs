use vstd::prelude::*;

use crate::arch::OSArchitecture;
use crate::configuration::BinaryExtractedInformation;
use crate::error::WinDiffError;
use crate::pdb::{extract_symbols_with_offset, spec_symbol_name, walk_symbols, PdbSymbol,
    spec_last_value};
use crate::pe::{PeExport, PeInfo};
use crate::strmap::OrderedStrMap;
use crate::strset::OrderedStrSet;
use crate::syscalls::{extract_syscalls, spec_is_ntoskrnl, spec_is_win32k, spec_user_syscalls};
use crate::text::{cmp_chars, lemma_cmp_equal_iff, lemma_cmp_flip, lemma_cmp_trans_less,
    string_cmp, CmpResult};
use crate::u32map::U32StrMap;
use crate::winbindex::DownloadedPEVersion;

verus! {

// ---------------------------------------------------------------------
// OS version triples, totally ordered.
// ---------------------------------------------------------------------

/// A version of Windows, as the index names it: version, update and
/// canonical architecture string.
#[derive(Debug, Clone)]
pub struct OSVersion {
    pub version: String,
    pub update: String,
    pub architecture: String,
}

/// The shape of an `OSVersion`.
#[verifier::ext_equal]
pub struct OSVersionV {
    pub version: Seq<char>,
    pub update: Seq<char>,
    pub architecture: Seq<char>,
}

impl View for OSVersion {
    type V = OSVersionV;

    open spec fn view(&self) -> OSVersionV {
        OSVersionV { version: self.version@, update: self.update@, architecture: self.architecture@ }
    }
}

/// Lexicographic order on (version, update, architecture).
pub open spec fn cmp_os(a: OSVersionV, b: OSVersionV) -> CmpResult {
    match cmp_chars(a.version, b.version) {
        CmpResult::Equal => match cmp_chars(a.update, b.update) {
            CmpResult::Equal => cmp_chars(a.architecture, b.architecture),
            c => c,
        },
        c => c,
    }
}

pub open spec fn os_lt(a: OSVersionV, b: OSVersionV) -> bool {
    cmp_os(a, b) is Less
}

pub proof fn lemma_cmp_os_equal_iff(a: OSVersionV, b: OSVersionV)
    ensures
        (cmp_os(a, b) is Equal) <==> (a == b),
{
    lemma_cmp_equal_iff(a.version, b.version);
    lemma_cmp_equal_iff(a.update, b.update);
    lemma_cmp_equal_iff(a.architecture, b.architecture);
    if cmp_os(a, b) is Equal {
        assert(a =~= b);
    }
}

pub proof fn lemma_cmp_os_flip(a: OSVersionV, b: OSVersionV)
    ensures
        (cmp_os(a, b) is Less) <==> (cmp_os(b, a) is Greater),
        (cmp_os(a, b) is Equal) <==> (cmp_os(b, a) is Equal),
{
    lemma_cmp_flip(a.version, b.version);
    lemma_cmp_flip(a.update, b.update);
    lemma_cmp_flip(a.architecture, b.architecture);
}

pub proof fn lemma_cmp_os_trans_less(a: OSVersionV, b: OSVersionV, c: OSVersionV)
    requires
        cmp_os(a, b) is Less,
        cmp_os(b, c) is Less,
    ensures
        cmp_os(a, c) is Less,
{
    lemma_cmp_equal_iff(a.version, b.version);
    lemma_cmp_equal_iff(b.version, c.version);
    lemma_cmp_equal_iff(a.version, c.version);
    lemma_cmp_equal_iff(a.update, b.update);
    lemma_cmp_equal_iff(b.update, c.update);
    lemma_cmp_equal_iff(a.update, c.update);
    if cmp_chars(a.version, b.version) is Less {
        if cmp_chars(b.version, c.version) is Less {
            lemma_cmp_trans_less(a.version, b.version, c.version);
        } else {
            assert(b.version == c.version);
        }
    } else {
        assert(a.version == b.version);
        if cmp_chars(b.version, c.version) is Less {
        } else {
            assert(b.version == c.version);
            if cmp_chars(a.update, b.update) is Less {
                if cmp_chars(b.update, c.update) is Less {
                    lemma_cmp_trans_less(a.update, b.update, c.update);
                } else {
                    assert(b.update == c.update);
                }
            } else {
                assert(a.update == b.update);
                if cmp_chars(b.update, c.update) is Less {
                } else {
                    assert(b.update == c.update);
                    lemma_cmp_trans_less(a.architecture, b.architecture, c.architecture);
                }
            }
        }
    }
}

/// Three-way comparison of two OS versions.
pub fn os_cmp(a: &OSVersion, b: &OSVersion) -> (r: CmpResult)
    ensures
        r == cmp_os(a@, b@),
{
    match string_cmp(&a.version, &b.version) {
        CmpResult::Equal => match string_cmp(&a.update, &b.update) {
            CmpResult::Equal => string_cmp(&a.architecture, &b.architecture),
            c => c,
        },
        c => c,
    }
}

/// No OS version orders strictly below itself.
pub proof fn lemma_os_lt_irrefl(t: OSVersionV)
    ensures
        !os_lt(t, t),
{
    lemma_cmp_os_equal_iff(t, t);
}

/// Two strictly sorted OS-version sequences with the same members are
/// the same sequence.
pub proof fn lemma_sorted_os_seq_ext(a: Seq<OSVersionV>, b: Seq<OSVersionV>)
    requires
        forall|i: int, j: int| 0 <= i < j < a.len() ==> os_lt(a[i], a[j]),
        forall|i: int, j: int| 0 <= i < j < b.len() ==> os_lt(b[i], b[j]),
        forall|t: OSVersionV| a.contains(t) <==> b.contains(t),
    ensures
        a == b,
    decreases a.len(),
{
    if a.len() == 0 {
        if b.len() > 0 {
            assert(b.contains(b[0]));
            assert(a.contains(b[0]));
        }
        assert(a =~= b);
    } else {
        assert(a.contains(a[0]));
        assert(b.contains(a[0]));
        let j = choose|j: int| 0 <= j < b.len() && b[j] == a[0];
        assert(b.contains(b[0]));
        assert(a.contains(b[0]));
        let i = choose|i: int| 0 <= i < a.len() && a[i] == b[0];
        if j > 0 {
            assert(os_lt(b[0], a[0]));
            if i > 0 {
                assert(os_lt(a[0], b[0]));
                lemma_cmp_os_trans_less(b[0], a[0], b[0]);
                lemma_os_lt_irrefl(b[0]);
            }
        }
        assert(a[0] == b[0]);
        let at = a.skip(1);
        let bt = b.skip(1);
        assert forall|t: OSVersionV| at.contains(t) <==> bt.contains(t) by {
            if at.contains(t) {
                let k = choose|k: int| 0 <= k < at.len() && at[k] == t;
                assert(a[k + 1] == t);
                assert(os_lt(a[0], t));
                assert(b.contains(t));
                let l = choose|l: int| 0 <= l < b.len() && b[l] == t;
                if l == 0 {
                    lemma_os_lt_irrefl(t);
                }
                assert(bt[l - 1] == t);
            }
            if bt.contains(t) {
                let k = choose|k: int| 0 <= k < bt.len() && bt[k] == t;
                assert(b[k + 1] == t);
                assert(os_lt(b[0], t));
                assert(a.contains(t));
                let l = choose|l: int| 0 <= l < a.len() && a[l] == t;
                if l == 0 {
                    lemma_os_lt_irrefl(t);
                }
                assert(at[l - 1] == t);
            }
        }
        assert forall|i2: int, j2: int| 0 <= i2 < j2 < at.len() implies os_lt(
            at[i2],
            at[j2],
        ) by {
            assert(os_lt(a[i2 + 1], a[j2 + 1]));
        }
        assert forall|i2: int, j2: int| 0 <= i2 < j2 < bt.len() implies os_lt(
            bt[i2],
            bt[j2],
        ) by {
            assert(os_lt(b[i2 + 1], b[j2 + 1]));
        }
        lemma_sorted_os_seq_ext(at, bt);
        assert(a.len() == b.len());
        assert forall|k: int| 0 <= k < a.len() implies a[k] == b[k] by {
            if k > 0 {
                assert(a[k] == at[k - 1]);
                assert(b[k] == bt[k - 1]);
            }
        }
        assert(a =~= b);
    }
}

/// A set of OS versions kept sorted and duplicate-free.
pub struct OsVersionSet {
    pub items: Vec<OSVersion>,
}

impl View for OsVersionSet {
    type V = Seq<OSVersionV>;

    open spec fn view(&self) -> Seq<OSVersionV> {
        self.items@.map_values(|o: OSVersion| o@)
    }
}

impl OsVersionSet {
    pub open spec fn wf(&self) -> bool {
        forall|i: int, j: int| 0 <= i < j < self@.len() ==> os_lt(self@[i], self@[j])
    }

    pub open spec fn contains_os(&self, o: OSVersionV) -> bool {
        self@.contains(o)
    }

    pub fn new() -> (r: Self)
        ensures
            r.wf(),
            r@ == Seq::<OSVersionV>::empty(),
    {
        let r = OsVersionSet { items: Vec::new() };
        proof {
            assert(r@ =~= Seq::<OSVersionV>::empty());
        }
        r
    }

    pub fn len(&self) -> (n: usize)
        ensures
            n == self@.len(),
    {
        self.items.len()
    }

    pub fn get(&self, i: usize) -> (o: &OSVersion)
        requires
            i < self@.len(),
        ensures
            o@ == self@[i as int],
    {
        &self.items[i]
    }

    /// Two well-formed sets with the same members walk as the same
    /// sequence: the order of construction cannot change what a reader
    /// of the set sees.
    pub proof fn lemma_same_members_same_view(a: &OsVersionSet, b: &OsVersionSet)
        requires
            a.wf(),
            b.wf(),
            forall|t: OSVersionV| a.contains_os(t) <==> b.contains_os(t),
        ensures
            a@ == b@,
    {
        assert forall|t: OSVersionV| a@.contains(t) <==> b@.contains(t) by {
            assert(a.contains_os(t) <==> b.contains_os(t));
        }
        lemma_sorted_os_seq_ext(a@, b@);
    }

    /// Inserts `o`; the set afterwards holds the old versions and `o`.
    pub fn insert(&mut self, o: OSVersion)
        requires
            old(self).wf(),
        ensures
            final(self).wf(),
            final(self)@.len() <= old(self)@.len() + 1,
            final(self).contains_os(o@),
            forall|t: OSVersionV| old(self).contains_os(t) ==> final(self).contains_os(t),
            forall|t: OSVersionV|
                final(self).contains_os(t) ==> old(self).contains_os(t) || t == o@,
    {
        let n = self.items.len();
        let mut pos: usize = 0;
        while pos < n && os_cmp(&self.items[pos], &o) == CmpResult::Less
            invariant
                pos <= n,
                n == self@.len(),
                *self == *old(self),
                forall|k: int| 0 <= k < pos ==> os_lt(self@[k], o@),
            decreases n - pos,
        {
            pos = pos + 1;
        }
        if pos < n && os_cmp(&self.items[pos], &o) == CmpResult::Equal {
            proof {
                lemma_cmp_os_equal_iff(self@[pos as int], o@);
                assert(self@[pos as int] == o@);
                assert(self.contains_os(o@));
                assert(*self == *old(self));
                assert(forall|t: OSVersionV| old(self).contains_os(t) ==> self.contains_os(t));
                assert(forall|t: OSVersionV|
                    self.contains_os(t) ==> old(self).contains_os(t) || t == o@);
            }
        } else {
            proof {
                if pos < self@.len() {
                    lemma_cmp_os_equal_iff(self@[pos as int], o@);
                    lemma_cmp_os_flip(self@[pos as int], o@);
                    assert(os_lt(o@, self@[pos as int]));
                }
            }
            let ghost oldview = self@;
            self.items.insert(pos, o);
            proof {
                assert(self@ =~= oldview.insert(pos as int, o@));
                assert forall|i: int, j: int| 0 <= i < j < self@.len() implies os_lt(
                    self@[i],
                    self@[j],
                ) by {
                    if j < pos {
                    } else if i < pos && j == pos {
                        assert(os_lt(oldview[i], o@));
                    } else if i < pos && j > pos {
                        assert(os_lt(oldview[i], oldview[j - 1]));
                    } else if i == pos {
                        assert(os_lt(o@, oldview[pos as int]));
                        if j - 1 > pos {
                            assert(os_lt(oldview[pos as int], oldview[j - 1]));
                            lemma_cmp_os_trans_less(o@, oldview[pos as int], oldview[j - 1]);
                        }
                        assert(os_lt(o@, oldview[j - 1]));
                    } else {
                        assert(os_lt(oldview[i - 1], oldview[j - 1]));
                    }
                }
                assert(oldview == old(self)@);
                assert(self@[pos as int] == o@);
                assert(self.contains_os(o@));
                assert forall|t: OSVersionV| old(self).contains_os(t) implies self.contains_os(
                    t,
                ) by {
                    let k = choose|k: int| 0 <= k < oldview.len() && oldview[k] == t;
                    if k < pos {
                        assert(self@[k] == t);
                    } else {
                        assert(self@[k + 1] == t);
                    }
                }
                assert forall|t: OSVersionV|
                    self.contains_os(t) implies old(self).contains_os(t) || t == o@ by {
                    let k = choose|k: int| 0 <= k < self@.len() && self@[k] == t;
                    if k < pos {
                        assert(oldview[k] == t);
                    } else if k == pos {
                        assert(t == o@);
                    } else {
                        assert(oldview[k - 1] == t);
                    }
                }
            }
        }
    }
}

// ---------------------------------------------------------------------
// The database record and its assembly.
// ---------------------------------------------------------------------

/// What identifies one database: the binary's name, its file version
/// and its architecture string.
#[derive(Debug, Clone)]
pub struct BinaryMetadata {
    pub name: String,
    pub version: String,
    pub architecture: String,
}

/// The shape of a `BinaryMetadata`.
#[verifier::ext_equal]
pub struct BinaryMetadataV {
    pub name: Seq<char>,
    pub version: Seq<char>,
    pub architecture: Seq<char>,
}

impl View for BinaryMetadata {
    type V = BinaryMetadataV;

    open spec fn view(&self) -> BinaryMetadataV {
        BinaryMetadataV {
            name: self.name@,
            version: self.version@,
            architecture: self.architecture@,
        }
    }
}

/// One binary's database: its observable surface, with every collection
/// totally ordered so that serialization is byte-stable. A feature that
/// was not requested stays an empty collection, never an absent one.
pub struct BinaryDatabase {
    pub metadata: BinaryMetadata,
    /// Exported symbols.
    pub exports: OrderedStrSet,
    /// Debug symbols.
    pub symbols: OrderedStrSet,
    /// Compiled modules.
    pub modules: OrderedStrSet,
    /// Debug types: type identifier to reconstructed type.
    pub types: OrderedStrMap,
    /// Syscalls detected in the binary, for relevant executables.
    pub syscalls: U32StrMap,
}

/// The shape of a `BinaryDatabase`.
#[verifier::ext_equal]
pub struct BinaryDatabaseV {
    pub metadata: BinaryMetadataV,
    pub exports: Seq<Seq<char>>,
    pub symbols: Seq<Seq<char>>,
    pub modules: Seq<Seq<char>>,
    pub types: Seq<(Seq<char>, Seq<char>)>,
    pub syscalls: Seq<(u32, Seq<char>)>,
}

impl View for BinaryDatabase {
    type V = BinaryDatabaseV;

    open spec fn view(&self) -> BinaryDatabaseV {
        BinaryDatabaseV {
            metadata: self.metadata@,
            exports: self.exports@,
            symbols: self.symbols@,
            modules: self.modules@,
            types: self.types@,
            syscalls: self.syscalls@,
        }
    }
}

impl BinaryDatabase {
    pub open spec fn wf(&self) -> bool {
        &&& self.exports.wf()
        &&& self.symbols.wf()
        &&& self.modules.wf()
        &&& self.types.wf()
        &&& self.syscalls.wf()
    }
}

/// Everything read from the matching PDB, handed in as plain values:
/// the raw symbol stream, the module names, the reconstructed types,
/// and the RVA-to-name pairs that kernel syscall extraction walks.
pub struct PdbContents {
    pub symbols: Vec<PdbSymbol>,
    pub modules: Vec<String>,
    pub types: Vec<(String, String)>,
    pub rva_symbols: Vec<(u32, String)>,
}

/// Whether export `e` has name `t`.
pub open spec fn spec_export_has_name(e: PeExport, t: Seq<char>) -> bool {
    match e.name {
        Some(n) => n@ == t,
        None => false,
    }
}

/// Builds the ordered set of a PE's export names; nameless entries
/// contribute nothing.
pub fn extract_export_names(pe: &PeInfo) -> (r: OrderedStrSet)
    ensures
        r.wf(),
        forall|t: Seq<char>|
            r.contains_str(t) <==> (exists|i: int|
                0 <= i < pe.exports@.len() && spec_export_has_name(pe.exports@[i], t)),
{
    let mut r = OrderedStrSet::new();
    let n = pe.exports.len();
    let mut i: usize = 0;
    while i < n
        invariant
            i <= n,
            n == pe.exports@.len(),
            r.wf(),
            forall|t: Seq<char>|
                r.contains_str(t) <==> (exists|j: int|
                    0 <= j < i && spec_export_has_name(pe.exports@[j], t)),
        decreases n - i,
    {
        match &pe.exports[i].name {
            Some(name) => {
                let ghost v = name@;
                r.insert(name.clone());
                proof {
                    assert(spec_export_has_name(pe.exports@[i as int], v));
                    assert forall|t: Seq<char>|
                        r.contains_str(t) <==> (exists|j: int|
                            0 <= j < i + 1 && spec_export_has_name(pe.exports@[j], t)) by {
                        if r.contains_str(t) && t == v {
                            assert(spec_export_has_name(pe.exports@[i as int], t));
                        }
                        if exists|j: int|
                            0 <= j < i + 1 && spec_export_has_name(pe.exports@[j], t) {
                            let j = choose|j: int|
                                0 <= j < i + 1 && spec_export_has_name(pe.exports@[j], t);
                            if j == i {
                                assert(t == v);
                            }
                        }
                    }
                }
            },
            None => {
                proof {
                    assert forall|t: Seq<char>|
                        r.contains_str(t) <==> (exists|j: int|
                            0 <= j < i + 1 && spec_export_has_name(pe.exports@[j], t)) by {
                        if exists|j: int|
                            0 <= j < i + 1 && spec_export_has_name(pe.exports@[j], t) {
                            let j = choose|j: int|
                                0 <= j < i + 1 && spec_export_has_name(pe.exports@[j], t);
                            assert(j < i);
                        }
                    }
                }
            },
        }
        i = i + 1;
    }
    r
}

/// Builds the ordered module-name set.
pub fn extract_module_set(modules: &Vec<String>) -> (r: OrderedStrSet)
    ensures
        r.wf(),
        forall|t: Seq<char>|
            r.contains_str(t) <==> modules@.map_values(|s: String| s@).contains(t),
{
    let mut copy: Vec<String> = Vec::new();
    let n = modules.len();
    let mut i: usize = 0;
    while i < n
        invariant
            i <= n,
            n == modules@.len(),
            copy@.len() == i as int,
            forall|j: int| 0 <= j < i ==> copy@[j]@ == modules@[j]@,
        decreases n - i,
    {
        copy.push(modules[i].clone());
        i = i + 1;
    }
    proof {
        assert(copy@.map_values(|s: String| s@) =~= modules@.map_values(|s: String| s@));
    }
    OrderedStrSet::from_vec(copy)
}

/// Builds the ordered type map; of entries sharing a name the last
/// one wins.
pub fn extract_type_map(types: &Vec<(String, String)>) -> (r: OrderedStrMap)
    ensures
        r.wf(),
        forall|k: Seq<char>|
            r.spec_get(k) == crate::strmap::spec_str_last_value(
                types@.map_values(|p: (String, String)| (p.0@, p.1@)),
                k,
            ),
{
    let mut r = OrderedStrMap::new();
    let n = types.len();
    let mut i: usize = 0;
    proof {
        assert(types@.map_values(|p: (String, String)| (p.0@, p.1@)).take(0) =~= Seq::<
            (Seq<char>, Seq<char>),
        >::empty());
    }
    while i < n
        invariant
            i <= n,
            n == types@.len(),
            r.wf(),
            forall|k: Seq<char>|
                r.spec_get(k) == crate::strmap::spec_str_last_value(
                    types@.map_values(|p: (String, String)| (p.0@, p.1@)).take(i as int),
                    k,
                ),
        decreases n - i,
    {
        let ghost all = types@.map_values(|p: (String, String)| (p.0@, p.1@));
        let key = types[i].0.clone();
        let value = types[i].1.clone();
        r.insert(key, value);
        proof {
            assert(all.take(i + 1).drop_last() =~= all.take(i as int));
            assert(all.take(i + 1).last() == all[i as int]);
            assert forall|k: Seq<char>|
                r.spec_get(k) == crate::strmap::spec_str_last_value(all.take(i + 1), k) by {
                if k == all[i as int].0 {
                    assert(crate::strmap::spec_str_last_value(all.take(i + 1), k) == Some(
                        all[i as int].1,
                    ));
                } else {
                    assert(crate::strmap::spec_str_last_value(all.take(i + 1), k)
                        == crate::strmap::spec_str_last_value(all.take(i as int), k));
                }
            }
        }
        i = i + 1;
    }
    proof {
        assert(types@.map_values(|p: (String, String)| (p.0@, p.1@)).take(n as int) =~= types@
            .map_values(|p: (String, String)| (p.0@, p.1@)));
    }
    r
}

/// Builds the syscall map from the extractor's pairs; of pairs sharing
/// an id the last one wins, as name-clashing exports do.
pub fn syscall_map_from_pairs(pairs: &Vec<(u32, String)>) -> (r: U32StrMap)
    ensures
        r.wf(),
        forall|k: u32|
            r.spec_get(k) == spec_last_value(
                pairs@.map_values(|p: (u32, String)| (p.0, p.1@)),
                k,
            ),
{
    extract_symbols_with_offset(pairs)
}

/// The (RVA, name) pairs of a PDB's contents, as plain values.
pub open spec fn spec_rva_pairs(c: PdbContents) -> Seq<(u32, Seq<char>)> {
    c.rva_symbols@.map_values(|p: (u32, String)| (p.0, p.1@))
}

/// A successful kernel-mode syscall outcome: some extraction run `v`
/// satisfies the kernel walk's characterization against symbol map `m`,
/// and the stored map binds exactly what `v` ends up binding, last
/// writer winning.
pub open spec fn spec_kernel_db_ok(
    pe: PeInfo,
    data: Seq<u8>,
    m: U32StrMap,
    table_name: Seq<char>,
    limit_name: Seq<char>,
    table_bit: u32,
    v: Vec<(u32, String)>,
    sys_map: U32StrMap,
) -> bool {
    &&& crate::syscalls::spec_kernel_syscalls_post(
        pe,
        data,
        m,
        table_name,
        limit_name,
        table_bit,
        Ok(v),
    )
    &&& forall|k: u32|
        #[trigger] sys_map.spec_get(k) == spec_last_value(
            v@.map_values(|p: (u32, String)| (p.0, p.1@)),
            k,
        )
}

/// A record whose syscall map came out of the kernel walk: `m` is the
/// RVA map built from the PDB's pairs (last writer wins), and some
/// characterized run produced the stored map.
pub open spec fn spec_kernel_db_case_ok(
    pe: PeInfo,
    data: Seq<u8>,
    pairs: Seq<(u32, Seq<char>)>,
    m: U32StrMap,
    table_name: Seq<char>,
    limit_name: Seq<char>,
    table_bit: u32,
    sys_map: U32StrMap,
) -> bool {
    &&& m.wf()
    &&& forall|k: u32| #[trigger] m.spec_get(k) == spec_last_value(pairs, k)
    &&& exists|v: Vec<(u32, String)>|
        #![trigger spec_kernel_db_ok(pe, data, m, table_name, limit_name, table_bit, v, sys_map)]
        spec_kernel_db_ok(pe, data, m, table_name, limit_name, table_bit, v, sys_map)
}

/// A record that the kernel walk failed: `m` is the RVA map built from
/// the PDB's pairs, and `e` is exactly an error the walk's
/// characterization admits against `m`.
pub open spec fn spec_kernel_db_case_err(
    pe: PeInfo,
    data: Seq<u8>,
    pairs: Seq<(u32, Seq<char>)>,
    m: U32StrMap,
    table_name: Seq<char>,
    limit_name: Seq<char>,
    table_bit: u32,
    e: WinDiffError,
) -> bool {
    &&& m.wf()
    &&& forall|k: u32| #[trigger] m.spec_get(k) == spec_last_value(pairs, k)
    &&& crate::syscalls::spec_kernel_syscalls_post(
        pe,
        data,
        m,
        table_name,
        limit_name,
        table_bit,
        Err(e),
    )
}

/// What a kernel-mode record promises, over the whole result.
pub open spec fn spec_kernel_db_case(
    pe: PeInfo,
    data: Seq<u8>,
    pairs: Seq<(u32, Seq<char>)>,
    table_name: Seq<char>,
    limit_name: Seq<char>,
    table_bit: u32,
    r: Result<BinaryDatabase, WinDiffError>,
) -> bool {
    match r {
        Ok(db) => exists|m: U32StrMap|
            #![trigger spec_kernel_db_case_ok(pe, data, pairs, m, table_name, limit_name, table_bit, db.syscalls)]
            spec_kernel_db_case_ok(
                pe,
                data,
                pairs,
                m,
                table_name,
                limit_name,
                table_bit,
                db.syscalls,
            ),
        Err(e) => exists|m: U32StrMap|
            #![trigger spec_kernel_db_case_err(pe, data, pairs, m, table_name, limit_name, table_bit, e)]
            spec_kernel_db_case_err(pe, data, pairs, m, table_name, limit_name, table_bit, e),
    }
}

/// Packages a successful kernel outcome into the record-level
/// characterization.
proof fn lemma_db_case_intro_ok(
    pe: PeInfo,
    data: Seq<u8>,
    pairs: Seq<(u32, Seq<char>)>,
    m: U32StrMap,
    table_name: Seq<char>,
    limit_name: Seq<char>,
    table_bit: u32,
    v: Vec<(u32, String)>,
    sys_map: U32StrMap,
)
    requires
        m.wf(),
        forall|k: u32| #[trigger] m.spec_get(k) == spec_last_value(pairs, k),
        spec_kernel_db_ok(pe, data, m, table_name, limit_name, table_bit, v, sys_map),
    ensures
        spec_kernel_db_case_ok(pe, data, pairs, m, table_name, limit_name, table_bit, sys_map),
{
    assert(exists|v2: Vec<(u32, String)>|
        #![trigger spec_kernel_db_ok(pe, data, m, table_name, limit_name, table_bit, v2, sys_map)]
        spec_kernel_db_ok(pe, data, m, table_name, limit_name, table_bit, v2, sys_map));
}

/// Packages a failed kernel outcome into the record-level
/// characterization.
proof fn lemma_db_case_intro_err(
    pe: PeInfo,
    data: Seq<u8>,
    pairs: Seq<(u32, Seq<char>)>,
    m: U32StrMap,
    table_name: Seq<char>,
    limit_name: Seq<char>,
    table_bit: u32,
    e: WinDiffError,
)
    requires
        m.wf(),
        forall|k: u32| #[trigger] m.spec_get(k) == spec_last_value(pairs, k),
        crate::syscalls::spec_kernel_syscalls_post(
            pe,
            data,
            m,
            table_name,
            limit_name,
            table_bit,
            Err(e),
        ),
    ensures
        spec_kernel_db_case_err(pe, data, pairs, m, table_name, limit_name, table_bit, e),
{
}

/// Assembles one binary's database: every requested field is populated
/// from its source, every other field stays empty. Fields that only the
/// PDB can fill stay empty when no PDB contents are given. Syscall
/// extraction is the one fallible step; its error fails the record.
pub fn generate_database_for_pe(
    metadata: BinaryMetadata,
    pe: &PeInfo,
    pe_data: &[u8],
    pdb: Option<&PdbContents>,
    extracted_information: &BinaryExtractedInformation,
) -> (r: Result<BinaryDatabase, WinDiffError>)
    ensures
        match r {
            Ok(db) => {
                &&& db.wf()
                &&& db.metadata == metadata
                &&& !extracted_information.exports ==> db.exports@.len() == 0
                &&& extracted_information.exports ==> (forall|t: Seq<char>|
                    db.exports.contains_str(t) <==> (exists|i: int|
                        0 <= i < pe.exports@.len() && spec_export_has_name(pe.exports@[i], t)))
                &&& (!extracted_information.debug_symbols || pdb is None) ==> db.symbols@.len()
                    == 0
                &&& extracted_information.debug_symbols ==> (match pdb {
                    Some(p) => forall|t: Seq<char>|
                        db.symbols.contains_str(t) <==> (exists|i: int|
                            0 <= i < p.symbols@.len() && spec_symbol_name(p.symbols@[i]) == Some(
                                t,
                            )),
                    None => true,
                })
                &&& (!extracted_information.modules || pdb is None) ==> db.modules@.len() == 0
                &&& extracted_information.modules ==> (match pdb {
                    Some(p) => forall|t: Seq<char>|
                        db.modules.contains_str(t) <==> p.modules@.map_values(
                            |s: String| s@,
                        ).contains(t),
                    None => true,
                })
                &&& (!extracted_information.types || pdb is None) ==> db.types@.len() == 0
                &&& extracted_information.types ==> (match pdb {
                    Some(p) => forall|k: Seq<char>|
                        db.types.spec_get(k) == crate::strmap::spec_str_last_value(
                            p.types@.map_values(|q: (String, String)| (q.0@, q.1@)),
                            k,
                        ),
                    None => true,
                })
                &&& (!extracted_information.syscalls || pdb is None) ==> db.syscalls@.len() == 0
                &&& (extracted_information.syscalls && pdb is Some) ==> (match pe.export_name {
                    Some(n) => (pe.has_export_data && !spec_is_ntoskrnl(n@) && !spec_is_win32k(
                        n@,
                    )) ==> (forall|k: u32|
                        db.syscalls.spec_get(k) == spec_last_value(
                            spec_user_syscalls(
                                pe.machine == 0x8664,
                                pe_data@,
                                pe.exports@,
                                pe.exports@.len() as int,
                            ),
                            k,
                        )),
                    None => true,
                })
            },
            Err(_) => extracted_information.syscalls && pdb is Some,
        },
        (extracted_information.syscalls && pdb is Some && pe.has_export_data && (match pe.export_name {
            Some(n) => !spec_is_ntoskrnl(n@) && !spec_is_win32k(n@) && (pe.machine == 0x8664
                || pe.machine == 0xaa64),
            None => false,
        })) ==> r is Ok,
        (extracted_information.syscalls && pdb is Some && pe.has_export_data && (match pe.export_name {
            Some(n) => !spec_is_ntoskrnl(n@) && !spec_is_win32k(n@),
            None => false,
        })) ==> (match r {
            Ok(_) => true,
            Err(e) => e is UnsupportedArchitecture && pe.machine != 0x8664 && pe.machine != 0xaa64,
        }),
        (extracted_information.syscalls && pdb is Some && (!pe.has_export_data
            || pe.export_name is None)) ==> r matches Err(
            WinDiffError::MissingExecutableExportInfo(_),
        ),
        (match (pdb, pe.export_name) {
            (Some(p), Some(n)) => extracted_information.syscalls && pe.has_export_data
                && spec_is_ntoskrnl(n@),
            _ => false,
        }) ==> spec_kernel_db_case(
            *pe,
            pe_data@,
            spec_rva_pairs(*pdb->Some_0),
            "KiServiceTable"@,
            "KiServiceLimit"@,
            0,
            r,
        ),
        (match (pdb, pe.export_name) {
            (Some(p), Some(n)) => extracted_information.syscalls && pe.has_export_data
                && !spec_is_ntoskrnl(n@) && spec_is_win32k(n@),
            _ => false,
        }) ==> spec_kernel_db_case(
            *pe,
            pe_data@,
            spec_rva_pairs(*pdb->Some_0),
            "W32pServiceTable"@,
            "W32pServiceLimit"@,
            0x1000,
            r,
        ),
{
    let exports = if extracted_information.exports {
        extract_export_names(pe)
    } else {
        OrderedStrSet::new()
    };
    let mut symbols = OrderedStrSet::new();
    let mut modules = OrderedStrSet::new();
    let mut types = OrderedStrMap::new();
    let mut syscalls = U32StrMap::new();
    match pdb {
        Some(contents) => {
            if extracted_information.debug_symbols {
                symbols = walk_symbols(&contents.symbols);
            }
            if extracted_information.modules {
                modules = extract_module_set(&contents.modules);
            }
            if extracted_information.types {
                types = extract_type_map(&contents.types);
            }
            if extracted_information.syscalls {
                let ghost gpairs = spec_rva_pairs(*contents);
                let rva_map = extract_symbols_with_offset(&contents.rva_symbols);
                match extract_syscalls(pe, pe_data, &rva_map) {
                    Ok(extracted) => {
                        syscalls = syscall_map_from_pairs(&extracted);
                        proof {
                            if pe.has_export_data && pe.export_name is Some {
                                let n = pe.export_name->Some_0;
                                if spec_is_ntoskrnl(n@) {
                                    assert(spec_kernel_db_ok(
                                        *pe,
                                        pe_data@,
                                        rva_map,
                                        "KiServiceTable"@,
                                        "KiServiceLimit"@,
                                        0,
                                        extracted,
                                        syscalls,
                                    ));
                                    lemma_db_case_intro_ok(
                                        *pe,
                                        pe_data@,
                                        gpairs,
                                        rva_map,
                                        "KiServiceTable"@,
                                        "KiServiceLimit"@,
                                        0,
                                        extracted,
                                        syscalls,
                                    );
                                } else if spec_is_win32k(n@) {
                                    assert(spec_kernel_db_ok(
                                        *pe,
                                        pe_data@,
                                        rva_map,
                                        "W32pServiceTable"@,
                                        "W32pServiceLimit"@,
                                        0x1000,
                                        extracted,
                                        syscalls,
                                    ));
                                    lemma_db_case_intro_ok(
                                        *pe,
                                        pe_data@,
                                        gpairs,
                                        rva_map,
                                        "W32pServiceTable"@,
                                        "W32pServiceLimit"@,
                                        0x1000,
                                        extracted,
                                        syscalls,
                                    );
                                }
                            }
                        }
                    },
                    Err(e) => {
                        proof {
                            if pe.has_export_data && pe.export_name is Some {
                                let n = pe.export_name->Some_0;
                                if spec_is_ntoskrnl(n@) {
                                    lemma_db_case_intro_err(
                                        *pe,
                                        pe_data@,
                                        gpairs,
                                        rva_map,
                                        "KiServiceTable"@,
                                        "KiServiceLimit"@,
                                        0,
                                        e,
                                    );
                                } else if spec_is_win32k(n@) {
                                    lemma_db_case_intro_err(
                                        *pe,
                                        pe_data@,
                                        gpairs,
                                        rva_map,
                                        "W32pServiceTable"@,
                                        "W32pServiceLimit"@,
                                        0x1000,
                                        e,
                                    );
                                }
                            }
                        }
                        return Err(e);
                    },
                }
            }
        },
        None => {},
    }
    Ok(BinaryDatabase { metadata, exports, symbols, modules, types, syscalls })
}

/// No two entries of a well-formed database's syscall map share an id:
/// the map's keys are strictly increasing, so each id appears once.
pub proof fn lemma_syscall_ids_unique(db: &BinaryDatabase)
    requires
        db.wf(),
    ensures
        forall|i: int, j: int|
            0 <= i < j < db.syscalls@.len() ==> db.syscalls@[i].0 != db.syscalls@[j].0,
{
    assert forall|i: int, j: int| 0 <= i < j < db.syscalls@.len() implies db.syscalls@[i].0
        != db.syscalls@[j].0 by {
        assert(db.syscalls@[i].0 < db.syscalls@[j].0);
    }
}

/// The file name a database is stored under:
/// `<pe_name>_<os_version>_<os_update>_<architecture>.json.gz`.
pub fn database_file_name(
    pe_name: &str,
    os_version: &str,
    os_update: &str,
    architecture: OSArchitecture,
) -> (r: String)
    ensures
        r@ == pe_name@ + "_"@ + os_version@ + "_"@ + os_update@ + "_"@ + architecture.spec_str()
            + ".json.gz"@,
{
    let mut name: String = pe_name.to_owned();
    name.append("_");
    name.append(os_version);
    name.append("_");
    name.append(os_update);
    name.append("_");
    name.append(architecture.to_str());
    name.append(".json.gz");
    name
}

// ---------------------------------------------------------------------
// The database index.
// ---------------------------------------------------------------------

/// The index over everything generated: all OS versions and all binary
/// names covered, each an ordered, duplicate-free set.
pub struct DatabaseIndex {
    pub oses: OsVersionSet,
    pub binaries: OrderedStrSet,
}

impl DatabaseIndex {
    pub open spec fn wf(&self) -> bool {
        self.oses.wf() && self.binaries.wf()
    }
}

/// The OS triple a downloaded binary was collected for.
pub open spec fn spec_os_of_download(d: DownloadedPEVersion) -> OSVersionV {
    OSVersionV {
        version: d.os_version@,
        update: d.os_update@,
        architecture: d.architecture.spec_str(),
    }
}

/// Builds the index of a run: exactly the OS triples and binary names
/// of the given records, deduplicated and ordered — every record's
/// triple and name appears, and nothing else does. Callers hand in the
/// records whose databases were produced, so the index covers exactly
/// the emitted files.
pub fn generate_database_index(downloaded_binaries: &Vec<(DownloadedPEVersion, Option<String>)>)
    -> (r: DatabaseIndex)
    ensures
        r.wf(),
        forall|i: int|
            0 <= i < downloaded_binaries@.len() ==> r.oses.contains_os(
                spec_os_of_download(#[trigger] downloaded_binaries@[i].0),
            ) && r.binaries.contains_str(downloaded_binaries@[i].0.original_name@),
        forall|t: OSVersionV|
            r.oses.contains_os(t) ==> (exists|i: int|
                0 <= i < downloaded_binaries@.len() && spec_os_of_download(
                    #[trigger] downloaded_binaries@[i].0,
                ) == t),
        forall|t: Seq<char>|
            r.binaries.contains_str(t) ==> (exists|i: int|
                0 <= i < downloaded_binaries@.len()
                    && #[trigger] downloaded_binaries@[i].0.original_name@ == t),
{
    let mut oses = OsVersionSet::new();
    let mut binaries = OrderedStrSet::new();
    let n = downloaded_binaries.len();
    let mut i: usize = 0;
    while i < n
        invariant
            i <= n,
            n == downloaded_binaries@.len(),
            oses.wf(),
            binaries.wf(),
            forall|j: int|
                0 <= j < i ==> oses.contains_os(
                    spec_os_of_download(#[trigger] downloaded_binaries@[j].0),
                ) && binaries.contains_str(downloaded_binaries@[j].0.original_name@),
            forall|t: OSVersionV|
                oses.contains_os(t) ==> (exists|j: int|
                    0 <= j < i && spec_os_of_download(#[trigger] downloaded_binaries@[j].0) == t),
            forall|t: Seq<char>|
                binaries.contains_str(t) ==> (exists|j: int|
                    0 <= j < i && #[trigger] downloaded_binaries@[j].0.original_name@ == t),
        decreases n - i,
    {
        let pe_version = &downloaded_binaries[i].0;
        let os = OSVersion {
            version: pe_version.os_version.clone(),
            update: pe_version.os_update.clone(),
            architecture: pe_version.architecture.to_str().to_owned(),
        };
        proof {
            assert(os@ =~= spec_os_of_download(downloaded_binaries@[i as int].0));
        }
        oses.insert(os);
        binaries.insert(pe_version.original_name.clone());
        i = i + 1;
    }
    DatabaseIndex { oses, binaries }
}

} // verus!
