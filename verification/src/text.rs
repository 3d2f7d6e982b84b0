//! Character and string helpers: ASCII case folding, string equality,
//! decimal rendering and parsing.

use vstd::prelude::*;
use vstd::string::StrSliceExecFns;
use vstd::string::StringExecFns;

verus! {

/// The character is an ASCII decimal digit.
pub open spec fn is_digit(c: char) -> bool {
    48 <= c as u32 && c as u32 <= 57
}

/// Numeric value of an ASCII decimal digit.
pub open spec fn digit_val(c: char) -> nat
    recommends
        is_digit(c),
{
    (c as u32 - 48) as nat
}

/// Lower-case image of an ASCII upper-case letter; any other character is unchanged.
pub open spec fn lower_char(c: char) -> char {
    if 65 <= c as u32 && c as u32 <= 90 {
        ((c as u32 + 32) as u8) as char
    } else {
        c
    }
}

/// ASCII-lower-cased image of a character sequence.
pub open spec fn lower(s: Seq<char>) -> Seq<char> {
    s.map_values(|c: char| lower_char(c))
}

/// Relies on String::push: appends the given character to the end of the string.
#[verifier::external_body]
pub(crate) fn push_char(s: &mut String, c: char)
    ensures
        final(s)@ == old(s)@.push(c),
{
    s.push(c);
}

/// Exact string equality, decided character by character.
pub fn str_eq(a: &str, b: &str) -> (r: bool)
    ensures
        r == (a@ == b@),
{
    let alen = a.unicode_len();
    let blen = b.unicode_len();
    if alen != blen {
        return false;
    }
    let mut i: usize = 0;
    while i < alen
        invariant
            i <= alen,
            alen == a@.len(),
            alen == b@.len(),
            forall|j: int| 0 <= j < i ==> a@[j] == b@[j],
        decreases alen - i,
    {
        if a.get_char(i) != b.get_char(i) {
            return false;
        }
        i += 1;
    }
    proof {
        assert(a@ =~= b@);
    }
    true
}

/// String equality up to ASCII case, decided character by character.
pub fn str_eq_ignore_ascii_case(a: &str, b: &str) -> (r: bool)
    ensures
        r == (lower(a@) == lower(b@)),
{
    let alen = a.unicode_len();
    let blen = b.unicode_len();
    if alen != blen {
        proof {
            assert(lower(a@).len() != lower(b@).len());
        }
        return false;
    }
    let mut i: usize = 0;
    while i < alen
        invariant
            i <= alen,
            alen == a@.len(),
            alen == b@.len(),
            forall|j: int| 0 <= j < i ==> lower(a@)[j] == lower(b@)[j],
        decreases alen - i,
    {
        let ca = lower_char_exec(a.get_char(i));
        let cb = lower_char_exec(b.get_char(i));
        if ca != cb {
            proof {
                assert(lower(a@)[i as int] != lower(b@)[i as int]);
            }
            return false;
        }
        i += 1;
    }
    proof {
        assert(lower(a@) =~= lower(b@));
    }
    true
}

/// Lower-cases one ASCII letter.
pub fn lower_char_exec(c: char) -> (r: char)
    ensures
        r == lower_char(c),
{
    let n = c as u32;
    if 65 <= n && n <= 90 {
        ((n + 32) as u8) as char
    } else {
        c
    }
}

/// Decimal digit character of a value below ten.
pub open spec fn dec_digit(d: nat) -> char
    recommends
        d < 10,
{
    ((d + 48) as u8) as char
}

/// Decimal representation of a natural number, most significant digit first,
/// with no leading zeros (a single zero digit for zero).
pub open spec fn dec_nat(n: nat) -> Seq<char>
    decreases n,
{
    if n < 10 {
        seq![dec_digit(n)]
    } else {
        dec_nat(n / 10).push(dec_digit(n % 10))
    }
}

/// Decimal representation of a signed number: a minus sign before the
/// magnitude when negative.
pub open spec fn dec_int(n: int) -> Seq<char> {
    if n < 0 {
        seq!['-'] + dec_nat((-n) as nat)
    } else {
        dec_nat(n as nat)
    }
}

/// Renders an unsigned number in decimal.
pub fn u64_dec(n: u64) -> (r: String)
    ensures
        r@ == dec_nat(n as nat),
    decreases n,
{
    if n < 10 {
        let mut s = String::new();
        push_char(&mut s, ((n as u8) + 48) as char);
        s
    } else {
        proof {
            assert(n / 10 < n) by (nonlinear_arith)
                requires
                    n >= 10,
            ;
        }
        let mut s = u64_dec(n / 10);
        push_char(&mut s, (((n % 10) as u8) + 48) as char);
        s
    }
}

/// Renders a signed number in decimal.
pub fn i64_dec(n: i64) -> (r: String)
    ensures
        r@ == dec_int(n as int),
{
    if n >= 0 {
        u64_dec(n as u64)
    } else {
        let mag: u64 = (-(n as i128)) as u64;
        let mut s = String::from_str("-");
        proof {
            reveal_strlit("-");
            assert(s@ =~= seq!['-']);
        }
        let d = u64_dec(mag);
        s.append(d.as_str());
        s
    }
}

/// Sixteen to the given power.
pub open spec fn pow16(w: nat) -> nat
    decreases w,
{
    if w == 0 {
        1
    } else {
        16 * pow16((w - 1) as nat)
    }
}

/// Lower-case hexadecimal digit character of a value below sixteen.
pub open spec fn hex_digit(d: nat) -> char
    recommends
        d < 16,
{
    if d < 10 {
        ((d + 48) as u8) as char
    } else {
        ((d + 87) as u8) as char
    }
}

/// Fixed-width lower-case hexadecimal representation, most significant digit
/// first, padded with zeros.
pub open spec fn hex_fixed(w: nat, v: nat) -> Seq<char>
    decreases w,
{
    if w == 0 {
        Seq::empty()
    } else {
        hex_fixed((w - 1) as nat, v / 16).push(hex_digit(v % 16))
    }
}

/// Two distinct values below the width's range render differently.
pub proof fn lemma_hex_fixed_injective(w: nat, v1: nat, v2: nat)
    requires
        v1 < pow16(w),
        v2 < pow16(w),
        hex_fixed(w, v1) == hex_fixed(w, v2),
    ensures
        v1 == v2,
    decreases w,
{
    if w > 0 {
        assert(hex_fixed(w, v1) == hex_fixed((w - 1) as nat, v1 / 16).push(hex_digit(v1 % 16)));
        assert(hex_fixed(w, v2) == hex_fixed((w - 1) as nat, v2 / 16).push(hex_digit(v2 % 16)));
        assert(hex_fixed(w, v1).last() == hex_digit(v1 % 16));
        assert(hex_fixed(w, v2).last() == hex_digit(v2 % 16));
        assert(hex_digit(v1 % 16) == hex_digit(v2 % 16));
        assert(v1 % 16 == v2 % 16) by {
            if v1 % 16 != v2 % 16 {
                assert(hex_digit(v1 % 16) as u32 != hex_digit(v2 % 16) as u32);
            }
        }
        assert(hex_fixed(w, v1).drop_last() =~= hex_fixed((w - 1) as nat, v1 / 16));
        assert(hex_fixed(w, v2).drop_last() =~= hex_fixed((w - 1) as nat, v2 / 16));
        assert(v1 / 16 < pow16((w - 1) as nat) && v2 / 16 < pow16((w - 1) as nat))
            by (nonlinear_arith)
            requires
                v1 < pow16(w),
                v2 < pow16(w),
                pow16(w) == 16 * pow16((w - 1) as nat),
        ;
        lemma_hex_fixed_injective((w - 1) as nat, v1 / 16, v2 / 16);
        assert(v1 == 16 * (v1 / 16) + v1 % 16);
        assert(v2 == 16 * (v2 / 16) + v2 % 16);
    }
}

/// Length and digit alphabet of the fixed-width rendering.
pub proof fn lemma_hex_fixed_chars(w: nat, v: nat)
    ensures
        hex_fixed(w, v).len() == w,
        forall|i: int|
            0 <= i < w ==> exists|d: nat| d < 16 && #[trigger] hex_fixed(w, v)[i] == hex_digit(d),
    decreases w,
{
    if w > 0 {
        lemma_hex_fixed_chars((w - 1) as nat, v / 16);
        let prev = hex_fixed((w - 1) as nat, v / 16);
        assert forall|i: int| 0 <= i < w implies exists|d: nat|
            d < 16 && #[trigger] hex_fixed(w, v)[i] == hex_digit(d) by {
            if i < w - 1 {
                assert(hex_fixed(w, v)[i] == prev[i]);
            } else {
                let d0 = v % 16;
                assert(d0 < 16 && hex_fixed(w, v)[i] == hex_digit(d0));
            }
        }
    }
}

/// Lower-case hexadecimal digit character of a value below sixteen.
pub fn hex_digit_exec(d: u8) -> (c: char)
    requires
        d < 16,
    ensures
        c == hex_digit(d as nat),
{
    if d < 10 {
        (d + 48) as char
    } else {
        (d + 87) as char
    }
}

/// Renders a value in fixed-width lower-case hexadecimal.
pub fn hex_fixed_exec(w: usize, v: u64) -> (r: String)
    ensures
        r@ == hex_fixed(w as nat, v as nat),
    decreases w,
{
    if w == 0 {
        let s = String::new();
        proof {
            assert(s@ =~= hex_fixed(0, v as nat));
        }
        s
    } else {
        let mut s = hex_fixed_exec(w - 1, v / 16);
        let d: u8 = (v % 16) as u8;
        let c: char = if d < 10 {
            (d + 48) as char
        } else {
            (d + 87) as char
        };
        push_char(&mut s, c);
        s
    }
}

/// Every character of the sequence is an ASCII decimal digit.
pub open spec fn all_digits(s: Seq<char>) -> bool {
    forall|i: int| 0 <= i < s.len() ==> is_digit(#[trigger] s[i])
}

/// Value of a digit string read in base ten.
pub open spec fn digits_val(s: Seq<char>) -> nat
    decreases s.len(),
{
    if s.len() == 0 {
        0
    } else {
        digits_val(s.drop_last()) * 10 + digit_val(s.last())
    }
}

/// What parsing a decimal number must return: the value of a non-empty,
/// all-digit string whose value fits in 64 bits, and nothing otherwise.
pub open spec fn parse_u64_spec(s: Seq<char>) -> Option<u64> {
    if s.len() > 0 && all_digits(s) && digits_val(s) <= u64::MAX {
        Some(digits_val(s) as u64)
    } else {
        None
    }
}

/// A longer digit string never has a smaller value: the value of a prefix is
/// bounded by the value of the whole.
proof fn lemma_digits_val_prefix_le(s: Seq<char>, i: int)
    requires
        0 <= i <= s.len(),
    ensures
        digits_val(s.take(i)) <= digits_val(s),
    decreases s.len() - i,
{
    if i < s.len() {
        lemma_digits_val_prefix_le(s, i + 1);
        assert(s.take(i + 1).drop_last() =~= s.take(i));
        assert(digits_val(s.take(i + 1)) == digits_val(s.take(i)) * 10 + digit_val(
            s.take(i + 1).last(),
        ));
        assert(digits_val(s.take(i)) * 10 >= digits_val(s.take(i))) by (nonlinear_arith);
    } else {
        assert(s.take(i) =~= s);
    }
}

/// Parses a decimal number, rejecting empty input, non-digits and overflow.
pub fn parse_u64(s: &str) -> (r: Option<u64>)
    ensures
        r == parse_u64_spec(s@),
{
    let n = s.unicode_len();
    if n == 0 {
        return None;
    }
    let mut acc: u64 = 0;
    let mut i: usize = 0;
    while i < n
        invariant
            0 < n == s@.len(),
            i <= n,
            all_digits(s@.take(i as int)),
            acc == digits_val(s@.take(i as int)),
        decreases n - i,
    {
        let c = s.get_char(i);
        let cv = c as u32;
        if cv < 48 || cv > 57 {
            proof {
                assert(!is_digit(s@[i as int]));
            }
            return None;
        }
        let d: u64 = (cv - 48) as u64;
        if acc > (u64::MAX - d) / 10 {
            proof {
                assert(s@.take(i + 1).drop_last() =~= s@.take(i as int));
                assert(digits_val(s@.take(i + 1)) > u64::MAX) by (nonlinear_arith)
                    requires
                        digits_val(s@.take(i + 1)) == digits_val(s@.take(i as int)) * 10
                            + digit_val(s@[i as int]),
                        acc == digits_val(s@.take(i as int)),
                        acc > (u64::MAX - d) / 10,
                        d == digit_val(s@[i as int]),
                        d <= 9,
                ;
                lemma_digits_val_prefix_le(s@, i + 1);
            }
            return None;
        }
        proof {
            assert(acc * 10 + d <= u64::MAX) by (nonlinear_arith)
                requires
                    acc <= (u64::MAX - d) / 10,
                    d <= 9,
            ;
            assert(s@.take(i + 1).drop_last() =~= s@.take(i as int));
        }
        acc = acc * 10 + d;
        i += 1;
    }
    proof {
        assert(s@.take(n as int) =~= s@);
    }
    Some(acc)
}

} // verus!
