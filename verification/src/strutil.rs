//! Small string-building helpers: appending single characters and
//! rendering unsigned integers in decimal and lowercase hexadecimal.
use vstd::prelude::*;

verus! {

/// Relies on `String::push`: appends one character to the end of the string.
#[verifier::external_body]
pub(crate) fn push_char(s: &mut String, c: char)
    ensures
        final(s)@ == old(s)@.push(c),
{
    s.push(c);
}

/// Character-by-character string equality, decided without assuming
/// anything of the standard library's comparison.
pub(crate) fn str_eq(a: &str, b: &str) -> (r: bool)
    ensures
        r == (a@ == b@),
{
    let an = a.unicode_len();
    let bn = b.unicode_len();
    if an != bn {
        return false;
    }
    let mut i: usize = 0;
    while i < an
        invariant
            i <= an,
            an == a@.len(),
            an == b@.len(),
            forall|j: int| 0 <= j < i ==> a@[j] == b@[j],
        decreases an - i,
    {
        if a.get_char(i) != b.get_char(i) {
            return false;
        }
        i = i + 1;
    }
    proof {
        assert(a@ =~= b@);
    }
    true
}

/// Every character of the string is below 128.
pub open spec fn all_below_128(s: Seq<char>) -> bool {
    forall|i: int| 0 <= i < s.len() ==> ((#[trigger] s[i]) as u32) < 128
}

/// The lowercase hexadecimal digit for a value below 16.
pub open spec fn hex_digit_char(v: u8) -> char
    recommends
        v < 16,
{
    if v < 10 {
        (48 + v) as char
    } else {
        (87 + v) as char
    }
}

/// The decimal digit character for a value below 10.
pub open spec fn dec_digit_char(v: u8) -> char
    recommends
        v < 10,
{
    (48 + v) as char
}

/// The decimal rendering of `n`, without leading zeros (`0` for zero).
pub open spec fn spec_u64_to_dec(n: u64) -> Seq<char>
    decreases n,
{
    if n < 10 {
        seq![dec_digit_char(n as u8)]
    } else {
        spec_u64_to_dec(n / 10).push(dec_digit_char((n % 10) as u8))
    }
}

/// The lowercase hexadecimal rendering of `n`, without leading zeros and
/// without a `0x` prefix (`0` for zero).
pub open spec fn spec_u64_to_hex(n: u64) -> Seq<char>
    decreases n,
{
    if n < 16 {
        seq![hex_digit_char(n as u8)]
    } else {
        spec_u64_to_hex(n / 16).push(hex_digit_char((n % 16) as u8))
    }
}

pub(crate) fn exec_dec_digit(v: u8) -> (c: char)
    requires
        v < 10,
    ensures
        c == dec_digit_char(v),
{
    (48 + v) as char
}

pub(crate) fn exec_hex_digit(v: u8) -> (c: char)
    requires
        v < 16,
    ensures
        c == hex_digit_char(v),
{
    if v < 10 {
        (48 + v) as char
    } else {
        (87 + v) as char
    }
}

/// Appends the decimal rendering of `n` to `out`.
pub(crate) fn append_u64_dec(out: &mut String, n: u64)
    ensures
        final(out)@ == old(out)@ + spec_u64_to_dec(n),
    decreases n,
{
    if n < 10 {
        push_char(out, exec_dec_digit(n as u8));
        proof {
            assert(spec_u64_to_dec(n) =~= seq![dec_digit_char(n as u8)]);
            assert(out@ =~= old(out)@ + spec_u64_to_dec(n));
        }
    } else {
        append_u64_dec(out, n / 10);
        push_char(out, exec_dec_digit((n % 10) as u8));
        proof {
            assert(out@ =~= old(out)@ + spec_u64_to_dec(n));
        }
    }
}

/// Appends the lowercase hexadecimal rendering of `n` to `out`.
pub(crate) fn append_u64_hex(out: &mut String, n: u64)
    ensures
        final(out)@ == old(out)@ + spec_u64_to_hex(n),
    decreases n,
{
    if n < 16 {
        push_char(out, exec_hex_digit(n as u8));
        proof {
            assert(out@ =~= old(out)@ + spec_u64_to_hex(n));
        }
    } else {
        append_u64_hex(out, n / 16);
        push_char(out, exec_hex_digit((n % 16) as u8));
        proof {
            assert(out@ =~= old(out)@ + spec_u64_to_hex(n));
        }
    }
}

/// The decimal rendering of `n` as a fresh string.
pub(crate) fn u64_to_dec_string(n: u64) -> (r: String)
    ensures
        r@ == spec_u64_to_dec(n),
{
    let mut out = String::from_str("");
    proof {
        reveal_strlit("");
        assert(out@ =~= Seq::<char>::empty());
    }
    append_u64_dec(&mut out, n);
    proof {
        assert(out@ =~= spec_u64_to_dec(n));
    }
    out
}

} // verus!
