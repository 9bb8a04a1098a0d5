use vstd::prelude::*;
use vstd::string::*;

verus! {

/// Three-way result of a lexicographic comparison.
#[derive(Debug, Clone, Copy, PartialEq, Eq, Structural)]
pub enum CmpResult {
    Less,
    Equal,
    Greater,
}

/// Lexicographic three-way comparison of two character sequences,
/// ordered by Unicode code point. This is the total order that every
/// sorted collection of this crate uses.
pub open spec fn cmp_chars(a: Seq<char>, b: Seq<char>) -> CmpResult
    decreases a.len(),
{
    if a.len() == 0 && b.len() == 0 {
        CmpResult::Equal
    } else if a.len() == 0 {
        CmpResult::Less
    } else if b.len() == 0 {
        CmpResult::Greater
    } else if (a[0] as u32) < (b[0] as u32) {
        CmpResult::Less
    } else if (b[0] as u32) < (a[0] as u32) {
        CmpResult::Greater
    } else {
        cmp_chars(a.skip(1), b.skip(1))
    }
}

pub open spec fn str_lt(a: Seq<char>, b: Seq<char>) -> bool {
    cmp_chars(a, b) is Less
}

/// Two sequences compare equal exactly when they are the same sequence.
pub proof fn lemma_cmp_equal_iff(a: Seq<char>, b: Seq<char>)
    ensures
        (cmp_chars(a, b) is Equal) <==> (a == b),
    decreases a.len(),
{
    if a.len() == 0 && b.len() == 0 {
        assert(a =~= b);
    } else if a.len() == 0 || b.len() == 0 {
    } else {
        lemma_cmp_equal_iff(a.skip(1), b.skip(1));
        if cmp_chars(a, b) is Equal {
            lemma_char_eq(a[0], b[0]);
            assert(a[0] == b[0]);
            assert(a =~= seq![a[0]] + a.skip(1));
            assert(b =~= seq![b[0]] + b.skip(1));
        } else {
            if a == b {
                assert(a.skip(1) =~= b.skip(1));
            }
        }
    }
}

/// Swapping the arguments swaps `Less` and `Greater`.
pub proof fn lemma_cmp_flip(a: Seq<char>, b: Seq<char>)
    ensures
        (cmp_chars(a, b) is Less) <==> (cmp_chars(b, a) is Greater),
        (cmp_chars(a, b) is Equal) <==> (cmp_chars(b, a) is Equal),
    decreases a.len(),
{
    if a.len() == 0 || b.len() == 0 {
    } else {
        lemma_cmp_flip(a.skip(1), b.skip(1));
    }
}

/// The strict order is transitive.
pub proof fn lemma_cmp_trans_less(a: Seq<char>, b: Seq<char>, c: Seq<char>)
    requires
        cmp_chars(a, b) is Less,
        cmp_chars(b, c) is Less,
    ensures
        cmp_chars(a, c) is Less,
    decreases a.len() + b.len() + c.len(),
{
    if a.len() == 0 {
        assert(b.len() > 0);
        assert(c.len() > 0);
    } else {
        assert(b.len() > 0);
        assert(c.len() > 0);
        if (a[0] as u32) < (b[0] as u32) {
            if (b[0] as u32) < (c[0] as u32) {
            } else {
                assert(b[0] as u32 == c[0] as u32);
            }
        } else {
            assert(a[0] as u32 == b[0] as u32);
            if (b[0] as u32) < (c[0] as u32) {
            } else {
                assert(b[0] as u32 == c[0] as u32);
                lemma_cmp_trans_less(a.skip(1), b.skip(1), c.skip(1));
            }
        }
    }
}

proof fn lemma_char_eq(x: char, y: char)
    requires
        x as u32 == y as u32,
    ensures
        x == y,
{
}

proof fn lemma_skip_skip(s: Seq<char>, i: int)
    requires
        0 <= i < s.len(),
    ensures
        s.skip(i).skip(1) =~= s.skip(i + 1),
{
}

/// Compare the suffixes of `a` and `b` that start at character `i`.
fn str_cmp_from(a: &str, b: &str, i: usize) -> (r: CmpResult)
    requires
        i <= a@.len(),
        i <= b@.len(),
    ensures
        r == cmp_chars(a@.skip(i as int), b@.skip(i as int)),
    decreases a@.len() - i,
{
    let alen = a.unicode_len();
    let blen = b.unicode_len();
    if i == alen && i == blen {
        CmpResult::Equal
    } else if i == alen {
        CmpResult::Less
    } else if i == blen {
        CmpResult::Greater
    } else {
        let ca = a.get_char(i);
        let cb = b.get_char(i);
        assert(a@.skip(i as int)[0] == a@[i as int]);
        assert(b@.skip(i as int)[0] == b@[i as int]);
        if (ca as u32) < (cb as u32) {
            CmpResult::Less
        } else if (cb as u32) < (ca as u32) {
            CmpResult::Greater
        } else {
            proof {
                lemma_skip_skip(a@, i as int);
                lemma_skip_skip(b@, i as int);
            }
            str_cmp_from(a, b, i + 1)
        }
    }
}

/// Three-way lexicographic comparison of two strings.
pub fn str_cmp(a: &str, b: &str) -> (r: CmpResult)
    ensures
        r == cmp_chars(a@, b@),
{
    assert(a@.skip(0) =~= a@);
    assert(b@.skip(0) =~= b@);
    str_cmp_from(a, b, 0)
}

/// Three-way lexicographic comparison of two owned strings.
pub fn string_cmp(a: &String, b: &String) -> (r: CmpResult)
    ensures
        r == cmp_chars(a@, b@),
{
    str_cmp(a.as_str(), b.as_str())
}

/// Whether `a` equals `b` as character sequences.
pub fn str_eq(a: &str, b: &str) -> (r: bool)
    ensures
        r == (a@ == b@),
{
    let c = str_cmp(a, b);
    proof {
        lemma_cmp_equal_iff(a@, b@);
    }
    match c {
        CmpResult::Equal => true,
        _ => false,
    }
}

/// The code point of `c` with an ASCII capital letter folded to its
/// small form; other characters are left as they are.
pub open spec fn lower_code(c: char) -> u32 {
    if 65 <= c as u32 <= 90 {
        (c as u32 + 32) as u32
    } else {
        c as u32
    }
}

/// Character-wise equality up to ASCII case.
pub open spec fn eq_ignore_ascii_case(a: Seq<char>, b: Seq<char>) -> bool {
    a.len() == b.len() && forall|i: int| 0 <= i < a.len() ==> lower_code(a[i]) == lower_code(b[i])
}

fn lower_code_exec(c: char) -> (r: u32)
    ensures
        r == lower_code(c),
{
    let u = c as u32;
    if 65 <= u && u <= 90 {
        u + 32
    } else {
        u
    }
}

/// Whether `a` equals `b` up to ASCII case.
pub fn str_eq_ignore_ascii_case(a: &str, b: &str) -> (r: bool)
    ensures
        r == eq_ignore_ascii_case(a@, b@),
{
    let alen = a.unicode_len();
    let blen = b.unicode_len();
    if alen != blen {
        return false;
    }
    let mut i: usize = 0;
    while i < alen
        invariant
            i <= alen,
            alen == a@.len(),
            alen == b@.len(),
            forall|j: int| 0 <= j < i ==> lower_code(a@[j]) == lower_code(b@[j]),
        decreases alen - i,
    {
        let ca = a.get_char(i);
        let cb = b.get_char(i);
        if lower_code_exec(ca) != lower_code_exec(cb) {
            return false;
        }
        i = i + 1;
    }
    true
}

/// Relies on std's `String::push`: appends one character at the end.
pub assume_specification[ String::push ](s: &mut String, c: char)
    ensures
        final(s)@ == old(s)@.push(c),
;

/// The decimal digit `d` as a character.
pub open spec fn dec_digit(d: int) -> char {
    if d == 0 {
        '0'
    } else if d == 1 {
        '1'
    } else if d == 2 {
        '2'
    } else if d == 3 {
        '3'
    } else if d == 4 {
        '4'
    } else if d == 5 {
        '5'
    } else if d == 6 {
        '6'
    } else if d == 7 {
        '7'
    } else if d == 8 {
        '8'
    } else {
        '9'
    }
}

/// The hexadecimal digit `d` as a lowercase character.
pub open spec fn hex_digit_lower(d: int) -> char {
    if d < 10 {
        dec_digit(d)
    } else if d == 10 {
        'a'
    } else if d == 11 {
        'b'
    } else if d == 12 {
        'c'
    } else if d == 13 {
        'd'
    } else if d == 14 {
        'e'
    } else {
        'f'
    }
}

/// The hexadecimal digit `d` as an uppercase character.
pub open spec fn hex_digit_upper(d: int) -> char {
    if d < 10 {
        dec_digit(d)
    } else if d == 10 {
        'A'
    } else if d == 11 {
        'B'
    } else if d == 12 {
        'C'
    } else if d == 13 {
        'D'
    } else if d == 14 {
        'E'
    } else {
        'F'
    }
}

/// Decimal representation of `n`, without leading zeroes (`0` for zero).
pub open spec fn dec_chars(n: nat) -> Seq<char>
    decreases n,
{
    if n < 10 {
        seq![dec_digit(n as int)]
    } else {
        dec_chars(n / 10).push(dec_digit((n % 10) as int))
    }
}

/// Lowercase hexadecimal representation of `n`, without leading zeroes
/// (`0` for zero); the format that `%x` produces.
pub open spec fn hex_chars_lower(n: nat) -> Seq<char>
    decreases n,
{
    if n < 16 {
        seq![hex_digit_lower(n as int)]
    } else {
        hex_chars_lower(n / 16).push(hex_digit_lower((n % 16) as int))
    }
}

/// Uppercase hexadecimal representation of `n`, zero-padded to exactly
/// `w` digits; the format that `%0wX` produces for values that fit.
pub open spec fn hex_chars_upper_width(n: nat, w: nat) -> Seq<char>
    decreases w,
{
    if w == 0 {
        Seq::empty()
    } else {
        hex_chars_upper_width(n / 16, (w - 1) as nat).push(hex_digit_upper((n % 16) as int))
    }
}

/// Lowercase hexadecimal encoding of a byte sequence, two digits per byte.
pub open spec fn hex_bytes_lower(s: Seq<u8>) -> Seq<char>
    decreases s.len(),
{
    if s.len() == 0 {
        Seq::empty()
    } else {
        seq![
            hex_digit_lower(s[0] as int / 16),
            hex_digit_lower(s[0] as int % 16),
        ] + hex_bytes_lower(s.skip(1))
    }
}

/// The fixed-width form is exactly `w` characters long.
pub proof fn lemma_hex_upper_width_len(n: nat, w: nat)
    ensures
        hex_chars_upper_width(n, w).len() == w,
    decreases w,
{
    if w > 0 {
        lemma_hex_upper_width_len(n / 16, (w - 1) as nat);
    }
}

/// The byte encoding is two characters per byte.
pub proof fn lemma_hex_bytes_lower_len(s: Seq<u8>)
    ensures
        hex_bytes_lower(s).len() == 2 * s.len(),
    decreases s.len(),
{
    if s.len() > 0 {
        lemma_hex_bytes_lower_len(s.skip(1));
    }
}

pub fn dec_digit_exec(d: u64) -> (c: char)
    requires
        d < 10,
    ensures
        c == dec_digit(d as int),
{
    match d {
        0 => '0',
        1 => '1',
        2 => '2',
        3 => '3',
        4 => '4',
        5 => '5',
        6 => '6',
        7 => '7',
        8 => '8',
        _ => '9',
    }
}

pub fn hex_digit_lower_exec(d: u64) -> (c: char)
    requires
        d < 16,
    ensures
        c == hex_digit_lower(d as int),
{
    if d < 10 {
        dec_digit_exec(d)
    } else {
        match d {
            10 => 'a',
            11 => 'b',
            12 => 'c',
            13 => 'd',
            14 => 'e',
            _ => 'f',
        }
    }
}

pub fn hex_digit_upper_exec(d: u64) -> (c: char)
    requires
        d < 16,
    ensures
        c == hex_digit_upper(d as int),
{
    if d < 10 {
        dec_digit_exec(d)
    } else {
        match d {
            10 => 'A',
            11 => 'B',
            12 => 'C',
            13 => 'D',
            14 => 'E',
            _ => 'F',
        }
    }
}

/// Appends the decimal representation of `n` to `out`.
pub fn push_dec_u64(out: &mut String, n: u64)
    ensures
        final(out)@ == old(out)@ + dec_chars(n as nat),
    decreases n,
{
    if n < 10 {
        let c = dec_digit_exec(n);
        out.push(c);
        assert(out@ =~= old(out)@ + dec_chars(n as nat));
    } else {
        push_dec_u64(out, n / 10);
        let c = dec_digit_exec(n % 10);
        out.push(c);
        assert(out@ =~= old(out)@ + dec_chars(n as nat));
    }
}

/// Appends the lowercase hexadecimal representation of `n` to `out`.
pub fn push_hex_lower_u64(out: &mut String, n: u64)
    ensures
        final(out)@ == old(out)@ + hex_chars_lower(n as nat),
    decreases n,
{
    if n < 16 {
        let c = hex_digit_lower_exec(n);
        out.push(c);
        assert(out@ =~= old(out)@ + hex_chars_lower(n as nat));
    } else {
        push_hex_lower_u64(out, n / 16);
        let c = hex_digit_lower_exec(n % 16);
        out.push(c);
        assert(out@ =~= old(out)@ + hex_chars_lower(n as nat));
    }
}

/// Appends the uppercase, `w`-digit, zero-padded hexadecimal
/// representation of `n` to `out`.
pub fn push_hex_upper_width_u64(out: &mut String, n: u64, w: u64)
    ensures
        final(out)@ == old(out)@ + hex_chars_upper_width(n as nat, w as nat),
    decreases w,
{
    if w == 0 {
        assert(out@ =~= old(out)@ + hex_chars_upper_width(n as nat, 0));
    } else {
        push_hex_upper_width_u64(out, n / 16, w - 1);
        let c = hex_digit_upper_exec(n % 16);
        out.push(c);
        assert(out@ =~= old(out)@ + hex_chars_upper_width(n as nat, w as nat));
    }
}

/// Appends the lowercase hexadecimal encoding of `bytes` to `out`,
/// two digits per byte.
pub fn push_hex_bytes_lower(out: &mut String, bytes: &[u8])
    ensures
        final(out)@ == old(out)@ + hex_bytes_lower(bytes@),
{
    let n = bytes.len();
    let mut i: usize = 0;
    proof {
        assert(bytes@.skip(0) =~= bytes@);
    }
    while i < n
        invariant
            i <= n,
            n == bytes@.len(),
            out@ + hex_bytes_lower(bytes@.skip(i as int)) == old(out)@ + hex_bytes_lower(bytes@),
        decreases n - i,
    {
        let ghost prev = out@;
        let b = bytes[i];
        let hi = hex_digit_lower_exec((b / 16) as u64);
        let lo = hex_digit_lower_exec((b % 16) as u64);
        out.push(hi);
        out.push(lo);
        proof {
            assert(bytes@.skip(i as int)[0] == bytes@[i as int]);
            assert(bytes@.skip(i as int).skip(1) =~= bytes@.skip(i as int + 1));
            assert(out@ + hex_bytes_lower(bytes@.skip(i as int + 1)) =~= prev + hex_bytes_lower(
                bytes@.skip(i as int),
            ));
        }
        i = i + 1;
    }
    assert(bytes@.skip(n as int) =~= Seq::<u8>::empty());
    assert(out@ =~= old(out)@ + hex_bytes_lower(bytes@));
}

} // verus!
