use vstd::prelude::*;
use vstd::string::*;

use crate::database::{BinaryDatabase, BinaryDatabaseV, BinaryMetadataV, DatabaseIndex, OSVersionV};
use crate::text::{dec_chars, hex_digit_lower, hex_digit_lower_exec, push_dec_u64};

verus! {

// ---------------------------------------------------------------------
// JSON string escaping, exactly as the output format fixes it.
// ---------------------------------------------------------------------

/// How one character appears inside a JSON string: quote and backslash
/// are escaped, the five short control escapes are used where they
/// exist, every other control character becomes `\u00XY` with lowercase
/// hex, and everything else stands as itself.
pub open spec fn json_escape_char(c: char) -> Seq<char> {
    if c == '"' {
        seq!['\\', '"']
    } else if c == '\\' {
        seq!['\\', '\\']
    } else if c == '\u{08}' {
        seq!['\\', 'b']
    } else if c == '\u{09}' {
        seq!['\\', 't']
    } else if c == '\u{0A}' {
        seq!['\\', 'n']
    } else if c == '\u{0C}' {
        seq!['\\', 'f']
    } else if c == '\u{0D}' {
        seq!['\\', 'r']
    } else if (c as u32) < 0x20 {
        seq![
            '\\',
            'u',
            '0',
            '0',
            hex_digit_lower((c as u32 / 16) as int),
            hex_digit_lower((c as u32 % 16) as int),
        ]
    } else {
        seq![c]
    }
}

pub open spec fn json_escaped(s: Seq<char>) -> Seq<char>
    decreases s.len(),
{
    if s.len() == 0 {
        Seq::empty()
    } else {
        json_escape_char(s[0]) + json_escaped(s.skip(1))
    }
}

/// A JSON string: the escaped characters between quotes.
pub open spec fn json_quoted(s: Seq<char>) -> Seq<char> {
    seq!['"'] + json_escaped(s) + seq!['"']
}

proof fn lemma_escaped_append(a: Seq<char>, b: Seq<char>)
    ensures
        json_escaped(a + b) == json_escaped(a) + json_escaped(b),
    decreases a.len(),
{
    if a.len() == 0 {
        assert(a + b =~= b);
        assert(json_escaped(a) + json_escaped(b) =~= json_escaped(b));
    } else {
        lemma_escaped_append(a.skip(1), b);
        assert((a + b).skip(1) =~= a.skip(1) + b);
        assert((a + b)[0] == a[0]);
        assert(json_escape_char(a[0]) + (json_escaped(a.skip(1)) + json_escaped(b))
            =~= (json_escape_char(a[0]) + json_escaped(a.skip(1))) + json_escaped(b));
    }
}

proof fn lemma_escaped_snoc(s: Seq<char>, i: int)
    requires
        0 <= i < s.len(),
    ensures
        json_escaped(s.take(i + 1)) == json_escaped(s.take(i)) + json_escape_char(s[i]),
{
    assert(s.take(i + 1) =~= s.take(i) + seq![s[i]]);
    lemma_escaped_append(s.take(i), seq![s[i]]);
    assert(seq![s[i]].skip(1) =~= Seq::<char>::empty());
    assert(json_escaped(seq![s[i]].skip(1)) == Seq::<char>::empty());
    assert(seq![s[i]][0] == s[i]);
    assert(json_escaped(seq![s[i]]) == json_escape_char(s[i]) + json_escaped(seq![s[i]].skip(1)));
    assert(json_escaped(seq![s[i]]) =~= json_escape_char(s[i]));
}

/// Appends the escaped form of `s` to `out`.
fn push_json_escaped(out: &mut String, s: &str)
    ensures
        final(out)@ == old(out)@ + json_escaped(s@),
{
    let n = s.unicode_len();
    let mut i: usize = 0;
    proof {
        assert(s@.take(0) =~= Seq::<char>::empty());
        assert(out@ =~= old(out)@ + json_escaped(s@.take(0)));
    }
    while i < n
        invariant
            i <= n,
            n == s@.len(),
            out@ == old(out)@ + json_escaped(s@.take(i as int)),
        decreases n - i,
    {
        let ghost prev = out@;
        let c = s.get_char(i);
        if c == '"' {
            out.push('\\');
            out.push('"');
        } else if c == '\\' {
            out.push('\\');
            out.push('\\');
        } else {
            let u = c as u32;
            if u < 0x20 {
                if u == 8 {
                    out.push('\\');
                    out.push('b');
                } else if u == 9 {
                    out.push('\\');
                    out.push('t');
                } else if u == 10 {
                    out.push('\\');
                    out.push('n');
                } else if u == 12 {
                    out.push('\\');
                    out.push('f');
                } else if u == 13 {
                    out.push('\\');
                    out.push('r');
                } else {
                    out.push('\\');
                    out.push('u');
                    out.push('0');
                    out.push('0');
                    let hi = hex_digit_lower_exec((u / 16) as u64);
                    let lo = hex_digit_lower_exec((u % 16) as u64);
                    out.push(hi);
                    out.push(lo);
                }
            } else {
                out.push(c);
            }
        }
        proof {
            lemma_escaped_snoc(s@, i as int);
            assert(out@ =~= prev + json_escape_char(s@[i as int]));
            assert(out@ =~= old(out)@ + json_escaped(s@.take(i + 1)));
        }
        i = i + 1;
    }
    proof {
        assert(s@.take(n as int) =~= s@);
    }
}

/// Appends `s` as a JSON string, quotes and escapes included.
fn push_json_quoted(out: &mut String, s: &str)
    ensures
        final(out)@ == old(out)@ + json_quoted(s@),
{
    out.push('"');
    push_json_escaped(out, s);
    out.push('"');
    proof {
        assert(out@ =~= old(out)@ + json_quoted(s@));
    }
}

// ---------------------------------------------------------------------
// Serialized forms of the collections.
// ---------------------------------------------------------------------

/// `,"item"` for each string from `i` on.
pub open spec fn ser_str_items_from(items: Seq<Seq<char>>, i: int) -> Seq<char>
    decreases items.len() - i,
{
    if i < 0 || i >= items.len() {
        Seq::empty()
    } else {
        seq![','] + json_quoted(items[i]) + ser_str_items_from(items, i + 1)
    }
}

/// A JSON array of strings.
pub open spec fn ser_str_array(items: Seq<Seq<char>>) -> Seq<char> {
    seq!['['] + (if items.len() == 0 {
        Seq::empty()
    } else {
        json_quoted(items[0]) + ser_str_items_from(items, 1)
    }) + seq![']']
}

/// `,"key":"value"` for each entry from `i` on.
pub open spec fn ser_strmap_items_from(entries: Seq<(Seq<char>, Seq<char>)>, i: int) -> Seq<char>
    decreases entries.len() - i,
{
    if i < 0 || i >= entries.len() {
        Seq::empty()
    } else {
        seq![','] + json_quoted(entries[i].0) + seq![':'] + json_quoted(entries[i].1)
            + ser_strmap_items_from(entries, i + 1)
    }
}

/// A JSON object with string keys and string values.
pub open spec fn ser_strmap(entries: Seq<(Seq<char>, Seq<char>)>) -> Seq<char> {
    seq!['{'] + (if entries.len() == 0 {
        Seq::empty()
    } else {
        json_quoted(entries[0].0) + seq![':'] + json_quoted(entries[0].1) + ser_strmap_items_from(
            entries,
            1,
        )
    }) + seq!['}']
}

/// `,"id":"name"` for each syscall from `i` on; ids print in decimal.
pub open spec fn ser_u32map_items_from(entries: Seq<(u32, Seq<char>)>, i: int) -> Seq<char>
    decreases entries.len() - i,
{
    if i < 0 || i >= entries.len() {
        Seq::empty()
    } else {
        seq![','] + json_quoted(dec_chars(entries[i].0 as nat)) + seq![':'] + json_quoted(
            entries[i].1,
        ) + ser_u32map_items_from(entries, i + 1)
    }
}

/// A JSON object keyed by decimal numbers.
pub open spec fn ser_u32map(entries: Seq<(u32, Seq<char>)>) -> Seq<char> {
    seq!['{'] + (if entries.len() == 0 {
        Seq::empty()
    } else {
        json_quoted(dec_chars(entries[0].0 as nat)) + seq![':'] + json_quoted(entries[0].1)
            + ser_u32map_items_from(entries, 1)
    }) + seq!['}']
}

/// One OS version as a JSON object.
pub open spec fn ser_os(o: OSVersionV) -> Seq<char> {
    "{\"version\":"@ + json_quoted(o.version) + ",\"update\":"@ + json_quoted(o.update)
        + ",\"architecture\":"@ + json_quoted(o.architecture) + seq!['}']
}

pub open spec fn ser_os_items_from(items: Seq<OSVersionV>, i: int) -> Seq<char>
    decreases items.len() - i,
{
    if i < 0 || i >= items.len() {
        Seq::empty()
    } else {
        seq![','] + ser_os(items[i]) + ser_os_items_from(items, i + 1)
    }
}

pub open spec fn ser_os_array(items: Seq<OSVersionV>) -> Seq<char> {
    seq!['['] + (if items.len() == 0 {
        Seq::empty()
    } else {
        ser_os(items[0]) + ser_os_items_from(items, 1)
    }) + seq![']']
}

/// The metadata object.
pub open spec fn ser_metadata(m: BinaryMetadataV) -> Seq<char> {
    "{\"name\":"@ + json_quoted(m.name) + ",\"version\":"@ + json_quoted(m.version)
        + ",\"architecture\":"@ + json_quoted(m.architecture) + seq!['}']
}

/// The serialized form of a whole database record. Field order is
/// fixed, every collection appears — empty ones as empty collections —
/// and every collection is already sorted, so equal views give equal
/// bytes.
pub open spec fn spec_serialize_database(db: BinaryDatabaseV) -> Seq<char> {
    "{\"metadata\":"@ + ser_metadata(db.metadata) + ",\"exports\":"@ + ser_str_array(db.exports)
        + ",\"symbols\":"@ + ser_str_array(db.symbols) + ",\"modules\":"@ + ser_str_array(
        db.modules,
    ) + ",\"types\":"@ + ser_strmap(db.types) + ",\"syscalls\":"@ + ser_u32map(db.syscalls)
        + seq!['}']
}

/// The serialized form of the index.
pub open spec fn spec_serialize_index(oses: Seq<OSVersionV>, binaries: Seq<Seq<char>>) -> Seq<
    char,
> {
    "{\"oses\":"@ + ser_os_array(oses) + ",\"binaries\":"@ + ser_str_array(binaries) + seq!['}']
}

/// Serialization depends on nothing but the record's mathematical view:
/// two records with the same view — whatever run, machine or order of
/// construction produced them — serialize to identical bytes.
pub proof fn lemma_serialization_stable(a: BinaryDatabaseV, b: BinaryDatabaseV)
    requires
        a == b,
    ensures
        spec_serialize_database(a) == spec_serialize_database(b),
{
}

/// Two well-formed records that hold the same data serialize to
/// identical bytes, whatever order or repetition built their
/// collections: equal metadata, the same export, symbol and module
/// members, and the same type and syscall bindings leave sortedness no
/// freedom, so the views — and with them the bytes — coincide.
pub proof fn lemma_database_bytes_stable(a: &BinaryDatabase, b: &BinaryDatabase)
    requires
        a.wf(),
        b.wf(),
        a.metadata@ == b.metadata@,
        forall|t: Seq<char>| a.exports.contains_str(t) <==> b.exports.contains_str(t),
        forall|t: Seq<char>| a.symbols.contains_str(t) <==> b.symbols.contains_str(t),
        forall|t: Seq<char>| a.modules.contains_str(t) <==> b.modules.contains_str(t),
        forall|k: Seq<char>| #[trigger] a.types.spec_get(k) == b.types.spec_get(k),
        forall|k: u32| #[trigger] a.syscalls.spec_get(k) == b.syscalls.spec_get(k),
    ensures
        spec_serialize_database(a@) == spec_serialize_database(b@),
{
    crate::strset::OrderedStrSet::lemma_same_members_same_view(&a.exports, &b.exports);
    crate::strset::OrderedStrSet::lemma_same_members_same_view(&a.symbols, &b.symbols);
    crate::strset::OrderedStrSet::lemma_same_members_same_view(&a.modules, &b.modules);
    crate::strmap::OrderedStrMap::lemma_same_bindings_same_view(&a.types, &b.types);
    crate::u32map::U32StrMap::lemma_same_bindings_same_view(&a.syscalls, &b.syscalls);
    assert(a@ =~= b@);
}

/// Two well-formed indexes that hold the same OS versions and binary
/// names serialize to identical bytes: input order and duplication
/// cannot reach the output.
pub proof fn lemma_index_bytes_stable(a: &DatabaseIndex, b: &DatabaseIndex)
    requires
        a.wf(),
        b.wf(),
        forall|t: crate::database::OSVersionV| a.oses.contains_os(t) <==> b.oses.contains_os(t),
        forall|t: Seq<char>| a.binaries.contains_str(t) <==> b.binaries.contains_str(t),
    ensures
        spec_serialize_index(a.oses@, a.binaries@) == spec_serialize_index(b.oses@, b.binaries@),
{
    crate::database::OsVersionSet::lemma_same_members_same_view(&a.oses, &b.oses);
    crate::strset::OrderedStrSet::lemma_same_members_same_view(&a.binaries, &b.binaries);
}

/// The same, for the index.
pub proof fn lemma_index_serialization_stable(
    oses_a: Seq<OSVersionV>,
    binaries_a: Seq<Seq<char>>,
    oses_b: Seq<OSVersionV>,
    binaries_b: Seq<Seq<char>>,
)
    requires
        oses_a == oses_b,
        binaries_a == binaries_b,
    ensures
        spec_serialize_index(oses_a, binaries_a) == spec_serialize_index(oses_b, binaries_b),
{
}

// ---------------------------------------------------------------------
// Executable serialization.
// ---------------------------------------------------------------------

fn push_str_array(out: &mut String, set: &crate::strset::OrderedStrSet)
    ensures
        final(out)@ == old(out)@ + ser_str_array(set@),
{
    out.push('[');
    let n = set.len();
    let mut i: usize = 0;
    while i < n
        invariant
            i <= n,
            n == set@.len(),
            i == 0 ==> out@ == old(out)@ + seq!['['],
            i >= 1 ==> out@ + ser_str_items_from(set@, i as int) + seq![']'] == old(out)@
                + ser_str_array(set@),
        decreases n - i,
    {
        let ghost prev = out@;
        if i > 0 {
            out.push(',');
        }
        push_json_quoted(out, set.get(i).as_str());
        proof {
            if i == 0 {
                assert(out@ =~= prev + json_quoted(set@[0]));
                assert(out@ + ser_str_items_from(set@, 1) + seq![']'] =~= old(out)@
                    + ser_str_array(set@));
            } else {
                assert(out@ =~= prev + seq![','] + json_quoted(set@[i as int]));
                assert(ser_str_items_from(set@, i as int) == seq![','] + json_quoted(
                    set@[i as int],
                ) + ser_str_items_from(set@, i + 1));
                assert(out@ + ser_str_items_from(set@, i + 1) + seq![']'] =~= prev
                    + ser_str_items_from(set@, i as int) + seq![']']);
            }
        }
        i = i + 1;
    }
    out.push(']');
    proof {
        if n == 0 {
            assert(out@ =~= old(out)@ + ser_str_array(set@));
        } else {
            assert(ser_str_items_from(set@, n as int) =~= Seq::<char>::empty());
            assert(out@ =~= old(out)@ + ser_str_array(set@));
        }
    }
}

fn push_strmap(out: &mut String, map: &crate::strmap::OrderedStrMap)
    ensures
        final(out)@ == old(out)@ + ser_strmap(map@),
{
    out.push('{');
    let n = map.len();
    let mut i: usize = 0;
    while i < n
        invariant
            i <= n,
            n == map@.len(),
            i == 0 ==> out@ == old(out)@ + seq!['{'],
            i >= 1 ==> out@ + ser_strmap_items_from(map@, i as int) + seq!['}'] == old(out)@
                + ser_strmap(map@),
        decreases n - i,
    {
        let ghost prev = out@;
        if i > 0 {
            out.push(',');
        }
        let entry = map.entry_at(i);
        push_json_quoted(out, entry.0.as_str());
        out.push(':');
        push_json_quoted(out, entry.1.as_str());
        proof {
            if i == 0 {
                assert(out@ =~= prev + json_quoted(map@[0].0) + seq![':'] + json_quoted(
                    map@[0].1,
                ));
                assert(out@ + ser_strmap_items_from(map@, 1) + seq!['}'] =~= old(out)@
                    + ser_strmap(map@));
            } else {
                assert(out@ =~= prev + seq![','] + json_quoted(map@[i as int].0) + seq![':']
                    + json_quoted(map@[i as int].1));
                assert(ser_strmap_items_from(map@, i as int) == seq![','] + json_quoted(
                    map@[i as int].0,
                ) + seq![':'] + json_quoted(map@[i as int].1) + ser_strmap_items_from(
                    map@,
                    i + 1,
                ));
                assert(out@ + ser_strmap_items_from(map@, i + 1) + seq!['}'] =~= prev
                    + ser_strmap_items_from(map@, i as int) + seq!['}']);
            }
        }
        i = i + 1;
    }
    out.push('}');
    proof {
        if n == 0 {
            assert(out@ =~= old(out)@ + ser_strmap(map@));
        } else {
            assert(ser_strmap_items_from(map@, n as int) =~= Seq::<char>::empty());
            assert(out@ =~= old(out)@ + ser_strmap(map@));
        }
    }
}

fn push_u32map(out: &mut String, map: &crate::u32map::U32StrMap)
    ensures
        final(out)@ == old(out)@ + ser_u32map(map@),
{
    out.push('{');
    let n = map.len();
    let mut i: usize = 0;
    while i < n
        invariant
            i <= n,
            n == map@.len(),
            i == 0 ==> out@ == old(out)@ + seq!['{'],
            i >= 1 ==> out@ + ser_u32map_items_from(map@, i as int) + seq!['}'] == old(out)@
                + ser_u32map(map@),
        decreases n - i,
    {
        let ghost prev = out@;
        if i > 0 {
            out.push(',');
        }
        let entry = map.entry_at(i);
        let mut key = String::new();
        push_dec_u64(&mut key, entry.0 as u64);
        push_json_quoted(out, key.as_str());
        out.push(':');
        push_json_quoted(out, entry.1.as_str());
        proof {
            assert(key@ =~= dec_chars(map@[i as int].0 as nat));
            if i == 0 {
                assert(out@ =~= prev + json_quoted(dec_chars(map@[0].0 as nat)) + seq![':']
                    + json_quoted(map@[0].1));
                assert(out@ + ser_u32map_items_from(map@, 1) + seq!['}'] =~= old(out)@
                    + ser_u32map(map@));
            } else {
                assert(out@ =~= prev + seq![','] + json_quoted(dec_chars(map@[i as int].0 as nat))
                    + seq![':'] + json_quoted(map@[i as int].1));
                assert(ser_u32map_items_from(map@, i as int) == seq![','] + json_quoted(
                    dec_chars(map@[i as int].0 as nat),
                ) + seq![':'] + json_quoted(map@[i as int].1) + ser_u32map_items_from(
                    map@,
                    i + 1,
                ));
                assert(out@ + ser_u32map_items_from(map@, i + 1) + seq!['}'] =~= prev
                    + ser_u32map_items_from(map@, i as int) + seq!['}']);
            }
        }
        i = i + 1;
    }
    out.push('}');
    proof {
        if n == 0 {
            assert(out@ =~= old(out)@ + ser_u32map(map@));
        } else {
            assert(ser_u32map_items_from(map@, n as int) =~= Seq::<char>::empty());
            assert(out@ =~= old(out)@ + ser_u32map(map@));
        }
    }
}

fn push_os(out: &mut String, o: &crate::database::OSVersion)
    ensures
        final(out)@ == old(out)@ + ser_os(o@),
{
    out.append("{\"version\":");
    push_json_quoted(out, o.version.as_str());
    out.append(",\"update\":");
    push_json_quoted(out, o.update.as_str());
    out.append(",\"architecture\":");
    push_json_quoted(out, o.architecture.as_str());
    out.push('}');
    proof {
        assert(out@ =~= old(out)@ + ser_os(o@));
    }
}

fn push_os_array(out: &mut String, set: &crate::database::OsVersionSet)
    ensures
        final(out)@ == old(out)@ + ser_os_array(set@),
{
    out.push('[');
    let n = set.len();
    let mut i: usize = 0;
    while i < n
        invariant
            i <= n,
            n == set@.len(),
            i == 0 ==> out@ == old(out)@ + seq!['['],
            i >= 1 ==> out@ + ser_os_items_from(set@, i as int) + seq![']'] == old(out)@
                + ser_os_array(set@),
        decreases n - i,
    {
        let ghost prev = out@;
        if i > 0 {
            out.push(',');
        }
        push_os(out, set.get(i));
        proof {
            if i == 0 {
                assert(out@ =~= prev + ser_os(set@[0]));
                assert(out@ + ser_os_items_from(set@, 1) + seq![']'] =~= old(out)@ + ser_os_array(
                    set@,
                ));
            } else {
                assert(out@ =~= prev + seq![','] + ser_os(set@[i as int]));
                assert(ser_os_items_from(set@, i as int) == seq![','] + ser_os(set@[i as int])
                    + ser_os_items_from(set@, i + 1));
                assert(out@ + ser_os_items_from(set@, i + 1) + seq![']'] =~= prev
                    + ser_os_items_from(set@, i as int) + seq![']']);
            }
        }
        i = i + 1;
    }
    out.push(']');
    proof {
        if n == 0 {
            assert(out@ =~= old(out)@ + ser_os_array(set@));
        } else {
            assert(ser_os_items_from(set@, n as int) =~= Seq::<char>::empty());
            assert(out@ =~= old(out)@ + ser_os_array(set@));
        }
    }
}

fn push_metadata(out: &mut String, m: &crate::database::BinaryMetadata)
    ensures
        final(out)@ == old(out)@ + ser_metadata(m@),
{
    out.append("{\"name\":");
    push_json_quoted(out, m.name.as_str());
    out.append(",\"version\":");
    push_json_quoted(out, m.version.as_str());
    out.append(",\"architecture\":");
    push_json_quoted(out, m.architecture.as_str());
    out.push('}');
    proof {
        assert(out@ =~= old(out)@ + ser_metadata(m@));
    }
}

/// Serializes a database record to its JSON text, byte-stable: the
/// output is a function of the record's view alone.
pub fn serialize_binary_database(db: &BinaryDatabase) -> (r: String)
    ensures
        r@ == spec_serialize_database(db@),
{
    let mut out: String = "{\"metadata\":".to_owned();
    push_metadata(&mut out, &db.metadata);
    out.append(",\"exports\":");
    push_str_array(&mut out, &db.exports);
    out.append(",\"symbols\":");
    push_str_array(&mut out, &db.symbols);
    out.append(",\"modules\":");
    push_str_array(&mut out, &db.modules);
    out.append(",\"types\":");
    push_strmap(&mut out, &db.types);
    out.append(",\"syscalls\":");
    push_u32map(&mut out, &db.syscalls);
    out.push('}');
    proof {
        assert(out@ =~= spec_serialize_database(db@));
    }
    out
}

/// Serializes the index to its JSON text, byte-stable.
pub fn serialize_database_index(index: &DatabaseIndex) -> (r: String)
    ensures
        r@ == spec_serialize_index(index.oses@, index.binaries@),
{
    let mut out: String = "{\"oses\":".to_owned();
    push_os_array(&mut out, &index.oses);
    out.append(",\"binaries\":");
    push_str_array(&mut out, &index.binaries);
    out.push('}');
    proof {
        assert(out@ =~= spec_serialize_index(index.oses@, index.binaries@));
    }
    out
}

} // verus!
