use vstd::prelude::*;

use crate::arch::OSArchitecture;
use crate::error::WinDiffError;
use crate::json::{jget, json_view, json_view_arr, json_view_obj, view_wf, JsonValue, JsonView, lemma_json_view_arr,
    lemma_json_view_obj, lemma_wf_arr_elements, lemma_wf_obj_elements};
use crate::text::{str_eq, str_lt};

verus! {

/// One kind of information a binary's database can carry.
#[derive(Debug, Clone, Copy, PartialEq, Eq, Structural)]
pub enum BinaryExtractedInformationFlags {
    Exports,
    DebugSymbols,
    Modules,
    Types,
    Syscalls,
}

/// The feature mask of a binary: which kinds of information its
/// database is to carry.
#[derive(Debug, Clone, Copy, PartialEq, Eq, Structural)]
pub struct BinaryExtractedInformation {
    pub exports: bool,
    pub debug_symbols: bool,
    pub modules: bool,
    pub types: bool,
    pub syscalls: bool,
}

impl BinaryExtractedInformation {
    pub open spec fn spec_contains(&self, f: BinaryExtractedInformationFlags) -> bool {
        match f {
            BinaryExtractedInformationFlags::Exports => self.exports,
            BinaryExtractedInformationFlags::DebugSymbols => self.debug_symbols,
            BinaryExtractedInformationFlags::Modules => self.modules,
            BinaryExtractedInformationFlags::Types => self.types,
            BinaryExtractedInformationFlags::Syscalls => self.syscalls,
        }
    }

    /// The mask with `f` also set.
    pub open spec fn spec_insert(&self, f: BinaryExtractedInformationFlags) -> Self {
        match f {
            BinaryExtractedInformationFlags::Exports => Self { exports: true, ..*self },
            BinaryExtractedInformationFlags::DebugSymbols => Self { debug_symbols: true, ..*self },
            BinaryExtractedInformationFlags::Modules => Self { modules: true, ..*self },
            BinaryExtractedInformationFlags::Types => Self { types: true, ..*self },
            BinaryExtractedInformationFlags::Syscalls => Self { syscalls: true, ..*self },
        }
    }

    pub fn empty() -> (r: Self)
        ensures
            r == (Self { exports: false, debug_symbols: false, modules: false, types: false, syscalls: false }),
    {
        BinaryExtractedInformation {
            exports: false,
            debug_symbols: false,
            modules: false,
            types: false,
            syscalls: false,
        }
    }

    pub fn contains(&self, f: BinaryExtractedInformationFlags) -> (r: bool)
        ensures
            r == self.spec_contains(f),
    {
        match f {
            BinaryExtractedInformationFlags::Exports => self.exports,
            BinaryExtractedInformationFlags::DebugSymbols => self.debug_symbols,
            BinaryExtractedInformationFlags::Modules => self.modules,
            BinaryExtractedInformationFlags::Types => self.types,
            BinaryExtractedInformationFlags::Syscalls => self.syscalls,
        }
    }

    pub fn insert(&mut self, f: BinaryExtractedInformationFlags)
        ensures
            *final(self) == old(self).spec_insert(f),
    {
        match f {
            BinaryExtractedInformationFlags::Exports => {
                self.exports = true;
            },
            BinaryExtractedInformationFlags::DebugSymbols => {
                self.debug_symbols = true;
            },
            BinaryExtractedInformationFlags::Modules => {
                self.modules = true;
            },
            BinaryExtractedInformationFlags::Types => {
                self.types = true;
            },
            BinaryExtractedInformationFlags::Syscalls => {
                self.syscalls = true;
            },
        }
    }
}

/// One OS the binaries are collected for.
#[derive(Debug, Clone)]
pub struct OSDescription {
    pub version: String,
    pub update: String,
    pub architecture: OSArchitecture,
}

/// What to collect for one binary.
#[derive(Debug, Clone, Copy)]
pub struct BinaryDescription {
    pub extracted_information: BinaryExtractedInformation,
}

/// The whole configuration: the OSes to cover and, per binary name,
/// what to extract. Binaries are keyed by name, in sorted order.
#[derive(Debug)]
pub struct WinDiffConfiguration {
    pub oses: Vec<OSDescription>,
    pub binaries: Vec<(String, BinaryDescription)>,
}

impl WinDiffConfiguration {
    /// Binary names are strictly increasing; in particular unique.
    pub open spec fn wf(&self) -> bool {
        forall|i: int, j: int|
            0 <= i < j < self.binaries@.len() ==> str_lt(
                self.binaries@[i].0@,
                self.binaries@[j].0@,
            )
    }
}

// ---------------------------------------------------------------------
// Reading the configuration out of its JSON form.
// ---------------------------------------------------------------------

/// The architecture a configuration tag names.
pub open spec fn spec_arch_of_str(s: Seq<char>) -> Option<OSArchitecture> {
    if s == "i386"@ {
        Some(OSArchitecture::I386)
    } else if s == "wow64"@ {
        Some(OSArchitecture::Wow64)
    } else if s == "amd64"@ {
        Some(OSArchitecture::Amd64)
    } else if s == "arm"@ {
        Some(OSArchitecture::Arm)
    } else if s == "arm64"@ {
        Some(OSArchitecture::Arm64)
    } else {
        None
    }
}

pub fn arch_of_str(s: &str) -> (r: Option<OSArchitecture>)
    ensures
        r == spec_arch_of_str(s@),
{
    if str_eq(s, "i386") {
        Some(OSArchitecture::I386)
    } else if str_eq(s, "wow64") {
        Some(OSArchitecture::Wow64)
    } else if str_eq(s, "amd64") {
        Some(OSArchitecture::Amd64)
    } else if str_eq(s, "arm") {
        Some(OSArchitecture::Arm)
    } else if str_eq(s, "arm64") {
        Some(OSArchitecture::Arm64)
    } else {
        None
    }
}

/// The feature a configuration token names.
pub open spec fn spec_flag_of_str(s: Seq<char>) -> Option<BinaryExtractedInformationFlags> {
    if s == "EXPORTS"@ {
        Some(BinaryExtractedInformationFlags::Exports)
    } else if s == "DEBUG_SYMBOLS"@ {
        Some(BinaryExtractedInformationFlags::DebugSymbols)
    } else if s == "MODULES"@ {
        Some(BinaryExtractedInformationFlags::Modules)
    } else if s == "TYPES"@ {
        Some(BinaryExtractedInformationFlags::Types)
    } else if s == "SYSCALLS"@ {
        Some(BinaryExtractedInformationFlags::Syscalls)
    } else {
        None
    }
}

pub fn flag_of_str(s: &str) -> (r: Option<BinaryExtractedInformationFlags>)
    ensures
        r == spec_flag_of_str(s@),
{
    if str_eq(s, "EXPORTS") {
        Some(BinaryExtractedInformationFlags::Exports)
    } else if str_eq(s, "DEBUG_SYMBOLS") {
        Some(BinaryExtractedInformationFlags::DebugSymbols)
    } else if str_eq(s, "MODULES") {
        Some(BinaryExtractedInformationFlags::Modules)
    } else if str_eq(s, "TYPES") {
        Some(BinaryExtractedInformationFlags::Types)
    } else if str_eq(s, "SYSCALLS") {
        Some(BinaryExtractedInformationFlags::Syscalls)
    } else {
        None
    }
}

/// The OS descriptor a JSON object denotes: its `version` and `update`
/// strings and a known architecture tag.
pub open spec fn spec_os_of(j: JsonView) -> Option<(Seq<char>, Seq<char>, OSArchitecture)> {
    if !(jget(j, "version"@) matches Some(JsonView::Str(_))) {
        None
    } else if !(jget(j, "update"@) matches Some(JsonView::Str(_))) {
        None
    } else if !(jget(j, "architecture"@) matches Some(JsonView::Str(_))) {
        None
    } else {
        match spec_arch_of_str(jget(j, "architecture"@)->Some_0->Str_0) {
            Some(arch) => Some(
                (jget(j, "version"@)->Some_0->Str_0, jget(j, "update"@)->Some_0->Str_0, arch),
            ),
            None => None,
        }
    }
}

fn os_of_json(j: &JsonValue) -> (r: Result<OSDescription, WinDiffError>)
    requires
        view_wf(j@),
    ensures
        match r {
            Ok(os) => spec_os_of(j@) == Some((os.version@, os.update@, os.architecture)),
            Err(_) => spec_os_of(j@) is None,
        },
{
    let version: String = match j.get("version") {
        Some(JsonValue::Str(s)) => s.clone(),
        _ => {
            return Err(WinDiffError::JSONError);
        },
    };
    let update: String = match j.get("update") {
        Some(JsonValue::Str(s)) => s.clone(),
        _ => {
            return Err(WinDiffError::JSONError);
        },
    };
    let arch_tag: &String = match j.get("architecture") {
        Some(JsonValue::Str(s)) => s,
        _ => {
            return Err(WinDiffError::JSONError);
        },
    };
    let architecture = match arch_of_str(arch_tag.as_str()) {
        Some(a) => a,
        None => {
            return Err(WinDiffError::ConfigurationError("unknown architecture".to_owned()));
        },
    };
    Ok(OSDescription { version, update, architecture })
}

/// The mask the token list `items[i..]` denotes; an entry that is not a
/// known token makes the whole list unreadable.
pub open spec fn spec_mask_from(items: Seq<JsonView>, i: int) -> Option<
    BinaryExtractedInformation,
>
    decreases items.len() - i,
{
    if i < 0 || i >= items.len() {
        Some(BinaryExtractedInformation::default_spec())
    } else {
        match items[i] {
            JsonView::Str(s) => match spec_flag_of_str(s) {
                Some(f) => match spec_mask_from(items, i + 1) {
                    Some(m) => Some(m.spec_insert(f)),
                    None => None,
                },
                None => None,
            },
            _ => None,
        }
    }
}

impl BinaryExtractedInformation {
    pub open spec fn default_spec() -> Self {
        BinaryExtractedInformation {
            exports: false,
            debug_symbols: false,
            modules: false,
            types: false,
            syscalls: false,
        }
    }
}

/// A token list that is unreadable at one position is unreadable from
/// every earlier position too.
proof fn lemma_mask_none(items: Seq<JsonView>, j: int, k: int)
    requires
        0 <= j <= k,
        spec_mask_from(items, k) is None,
    ensures
        spec_mask_from(items, j) is None,
    decreases k - j,
{
    if j < k {
        lemma_mask_none(items, j + 1, k);
    }
}

/// The binary description a JSON object denotes: the feature mask its
/// `extracted_information` token list builds.
pub open spec fn spec_binary_desc_of(j: JsonView) -> Option<BinaryExtractedInformation> {
    match jget(j, "extracted_information"@) {
        Some(JsonView::Array(items)) => spec_mask_from(items, 0),
        _ => None,
    }
}

/// Whether `v` is a readable configuration: an `oses` array whose every
/// element is a readable OS descriptor, and a `binaries` object whose
/// every value is a readable binary description.
pub open spec fn spec_config_parses(v: JsonView) -> bool {
    &&& (match jget(v, "oses"@) {
        Some(JsonView::Array(items)) => forall|i: int|
            0 <= i < items.len() ==> spec_os_of(#[trigger] items[i]) is Some,
        _ => false,
    })
    &&& (match jget(v, "binaries"@) {
        Some(JsonView::Object(ents)) => forall|i: int|
            0 <= i < ents.len() ==> spec_binary_desc_of(#[trigger] ents[i].1) is Some,
        _ => false,
    })
}

fn binary_desc_of_json(j: &JsonValue) -> (r: Result<BinaryDescription, WinDiffError>)
    requires
        view_wf(j@),
    ensures
        match r {
            Ok(d) => spec_binary_desc_of(j@) == Some(d.extracted_information),
            Err(_) => spec_binary_desc_of(j@) is None,
        },
{
    let items: &Vec<JsonValue> = match j.get("extracted_information") {
        Some(JsonValue::Array(items)) => items,
        _ => {
            return Err(WinDiffError::JSONError);
        },
    };
    let ghost itemsv = jget(j@, "extracted_information"@)->Some_0->Array_0;
    proof {
        let arr = jget(j@, "extracted_information"@)->Some_0;
        lemma_json_view_arr(JsonValue::Array(*items), 0);
        assert(arr->Array_0 =~= json_view_arr(JsonValue::Array(*items), 0));
    }
    let n = items.len();
    let mut i: usize = n;
    let mut mask = BinaryExtractedInformation::empty();
    while i > 0
        invariant
            i <= n,
            n == items@.len(),
            itemsv.len() == n,
            jget(j@, "extracted_information"@) == Some(JsonView::Array(itemsv)),
            forall|k: int| 0 <= k < n ==> itemsv[k] == json_view(items@[k]),
            spec_mask_from(itemsv, i as int) == Some(mask),
        decreases i,
    {
        i = i - 1;
        let token: &String = match &items[i] {
            JsonValue::Str(s) => s,
            _ => {
                proof {
                    assert(spec_mask_from(itemsv, i as int) is None);
                    lemma_mask_none(itemsv, 0, i as int);
                }
                return Err(WinDiffError::JSONError);
            },
        };
        let f = match flag_of_str(token.as_str()) {
            Some(f) => f,
            None => {
                proof {
                    assert(spec_mask_from(itemsv, i as int) is None);
                    lemma_mask_none(itemsv, 0, i as int);
                }
                return Err(WinDiffError::ConfigurationError("unknown feature token".to_owned()));
            },
        };
        mask.insert(f);
    }
    Ok(BinaryDescription { extracted_information: mask })
}

impl WinDiffConfiguration {
    /// Reads a configuration out of its JSON form: the `oses` array and
    /// the `binaries` map. A malformed shape is `JSONError`; an unknown
    /// architecture tag or feature token is `ConfigurationError`.
    pub fn from_json(v: &JsonValue) -> (r: Result<WinDiffConfiguration, WinDiffError>)
        requires
            view_wf(v@),
        ensures
            match r {
                Ok(cfg) => {
                    &&& cfg.wf()
                    &&& jget(v@, "oses"@) matches Some(JsonView::Array(_))
                    &&& jget(v@, "binaries"@) matches Some(JsonView::Object(_))
                    &&& cfg.oses@.len() == jget(v@, "oses"@)->Some_0->Array_0.len()
                    &&& forall|i: int|
                        0 <= i < cfg.oses@.len() ==> spec_os_of(
                            jget(v@, "oses"@)->Some_0->Array_0[i],
                        ) == Some(
                            (
                                cfg.oses@[i].version@,
                                cfg.oses@[i].update@,
                                cfg.oses@[i].architecture,
                            ),
                        )
                    &&& cfg.binaries@.len() == jget(v@, "binaries"@)->Some_0->Object_0.len()
                    &&& forall|i: int|
                        0 <= i < cfg.binaries@.len() ==> cfg.binaries@[i].0@ == jget(
                            v@,
                            "binaries"@,
                        )->Some_0->Object_0[i].0 && spec_binary_desc_of(
                            jget(v@, "binaries"@)->Some_0->Object_0[i].1,
                        ) == Some(cfg.binaries@[i].1.extracted_information)
                },
                Err(_) => !spec_config_parses(v@),
            },
    {
        let oses_val: &Vec<JsonValue> = match v.get("oses") {
            Some(JsonValue::Array(items)) => items,
            _ => {
                return Err(WinDiffError::JSONError);
            },
        };
        let ghost osesv = jget(v@, "oses"@)->Some_0->Array_0;
        proof {
            lemma_json_view_arr(JsonValue::Array(*oses_val), 0);
            assert(osesv =~= json_view_arr(JsonValue::Array(*oses_val), 0));
            lemma_wf_arr_elements(jget(v@, "oses"@)->Some_0);
        }
        let mut oses: Vec<OSDescription> = Vec::new();
        let n = oses_val.len();
        let mut i: usize = 0;
        while i < n
            invariant
                i <= n,
                n == oses_val@.len(),
                osesv.len() == n,
                jget(v@, "oses"@) == Some(JsonView::Array(osesv)),
                forall|k: int| 0 <= k < n ==> osesv[k] == json_view(oses_val@[k]),
                forall|k: int| 0 <= k < n ==> view_wf(#[trigger] osesv[k]),
                oses@.len() == i as int,
                forall|k: int|
                    0 <= k < i ==> spec_os_of(osesv[k]) == Some(
                        (oses@[k].version@, oses@[k].update@, oses@[k].architecture),
                    ),
            decreases n - i,
        {
            proof {
                assert(view_wf(osesv[i as int]));
                assert(osesv[i as int] == json_view(oses_val@[i as int]));
            }
            let os = match os_of_json(&oses_val[i]) {
                Ok(os) => os,
                Err(e) => {
                    proof {
                        assert(spec_os_of(osesv[i as int]) is None);
                        assert(!spec_config_parses(v@));
                    }
                    return Err(e);
                },
            };
            oses.push(os);
            i = i + 1;
        }
        let bin_entries: &Vec<(String, JsonValue)> = match v.get("binaries") {
            Some(JsonValue::Object(entries)) => entries,
            _ => {
                return Err(WinDiffError::JSONError);
            },
        };
        let ghost binsv = jget(v@, "binaries"@)->Some_0->Object_0;
        proof {
            lemma_json_view_obj(JsonValue::Object(*bin_entries), 0);
            assert(binsv =~= json_view_obj(JsonValue::Object(*bin_entries), 0));
            lemma_wf_obj_elements(jget(v@, "binaries"@)->Some_0);
        }
        let mut binaries: Vec<(String, BinaryDescription)> = Vec::new();
        let bn = bin_entries.len();
        let mut j: usize = 0;
        while j < bn
            invariant
                j <= bn,
                bn == bin_entries@.len(),
                binsv.len() == bn,
                jget(v@, "binaries"@) == Some(JsonView::Object(binsv)),
                jget(v@, "oses"@) == Some(JsonView::Array(osesv)),
                osesv.len() == oses@.len(),
                forall|k: int|
                    0 <= k < oses@.len() ==> spec_os_of(osesv[k]) == Some(
                        (oses@[k].version@, oses@[k].update@, oses@[k].architecture),
                    ),
                forall|k: int|
                    0 <= k < bn ==> binsv[k] == (
                        bin_entries@[k].0@,
                        json_view(bin_entries@[k].1),
                    ),
                forall|k: int| 0 <= k < bn ==> view_wf(#[trigger] binsv[k].1),
                forall|k: int, l: int| 0 <= k < l < bn ==> str_lt(binsv[k].0, binsv[l].0),
                binaries@.len() == j as int,
                forall|k: int|
                    0 <= k < j ==> binaries@[k].0@ == binsv[k].0 && spec_binary_desc_of(
                        binsv[k].1,
                    ) == Some(binaries@[k].1.extracted_information),
            decreases bn - j,
        {
            let name = bin_entries[j].0.clone();
            proof {
                assert(view_wf(binsv[j as int].1));
                assert(binsv[j as int] == (bin_entries@[j as int].0@, json_view(
                    bin_entries@[j as int].1,
                )));
            }
            let desc = match binary_desc_of_json(&bin_entries[j].1) {
                Ok(d) => d,
                Err(e) => {
                    proof {
                        assert(spec_binary_desc_of(binsv[j as int].1) is None);
                        assert(!spec_config_parses(v@));
                    }
                    return Err(e);
                },
            };
            binaries.push((name, desc));
            j = j + 1;
        }
        let cfg = WinDiffConfiguration { oses, binaries };
        proof {
            assert forall|a: int, b: int| 0 <= a < b < cfg.binaries@.len() implies str_lt(
                cfg.binaries@[a].0@,
                cfg.binaries@[b].0@,
            ) by {
                assert(str_lt(binsv[a].0, binsv[b].0));
            }
        }
        Ok(cfg)
    }

    /// Looks a binary name up in the configuration.
    pub fn get_binary<'a>(&'a self, name: &str) -> (r: Option<&'a BinaryDescription>)
        ensures
            match r {
                Some(d) => exists|i: int|
                    0 <= i < self.binaries@.len() && self.binaries@[i].0@ == name@
                        && self.binaries@[i].1 == *d,
                None => forall|i: int|
                    0 <= i < self.binaries@.len() ==> self.binaries@[i].0@ != name@,
            },
    {
        let n = self.binaries.len();
        let mut i: usize = 0;
        while i < n
            invariant
                i <= n,
                n == self.binaries@.len(),
                forall|k: int| 0 <= k < i ==> self.binaries@[k].0@ != name@,
            decreases n - i,
        {
            if str_eq(self.binaries[i].0.as_str(), name) {
                return Some(&self.binaries[i].1);
            }
            i = i + 1;
        }
        None
    }
}

} // verus!
