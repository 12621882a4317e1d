//! Hexadecimal text for keys, through `rustc_serialize`.
use vstd::prelude::*;
use rustc_serialize::hex::{FromHex, ToHex};
use crate::util::opt_view;

verus! {

/// The lower-case hexadecimal digit for a value below 16.
pub open spec fn hex_digit(d: int) -> char {
    if d < 10 {
        (48 + d) as char
    } else {
        (87 + d) as char
    }
}

/// Two lower-case hexadecimal digits for each byte, high half first.
pub open spec fn spec_to_hex(b: Seq<u8>) -> Seq<char>
    decreases b.len(),
{
    if b.len() == 0 {
        Seq::empty()
    } else {
        seq![hex_digit((b[0] / 16) as int), hex_digit((b[0] % 16) as int)] + spec_to_hex(b.drop_first())
    }
}

/// The value of a hexadecimal digit of either case.
pub open spec fn hex_value(c: char) -> Option<u8> {
    if '0' <= c <= '9' {
        Some((c as int - 48) as u8)
    } else if 'a' <= c <= 'f' {
        Some((c as int - 87) as u8)
    } else if 'A' <= c <= 'F' {
        Some((c as int - 55) as u8)
    } else {
        None
    }
}

/// The white space that hexadecimal text may hold anywhere.
pub open spec fn is_hex_space(c: char) -> bool {
    c == ' ' || c == '\r' || c == '\n' || c == '\t'
}

/// The digit values of hexadecimal text, white space left out; `None` when
/// it holds any other character.
pub open spec fn hex_digits(s: Seq<char>) -> Option<Seq<u8>>
    decreases s.len(),
{
    if s.len() == 0 {
        Some(Seq::empty())
    } else if is_hex_space(s[0]) {
        hex_digits(s.drop_first())
    } else {
        match (hex_value(s[0]), hex_digits(s.drop_first())) {
            (Some(d), Some(rest)) => Some(seq![d] + rest),
            _ => None,
        }
    }
}

/// Bytes from pairs of digit values, high half first.
pub open spec fn pair_up(d: Seq<u8>) -> Seq<u8>
    decreases d.len(),
{
    if d.len() < 2 {
        Seq::empty()
    } else {
        seq![(d[0] * 16 + d[1]) as u8] + pair_up(d.subrange(2, d.len() as int))
    }
}

/// The bytes that hexadecimal text stands for: `None` when it holds a
/// character that is neither a digit nor white space, or an odd number of digits.
pub open spec fn spec_from_hex(s: Seq<char>) -> Option<Seq<u8>> {
    match hex_digits(s) {
        Some(d) => if d.len() % 2 == 0 {
            Some(pair_up(d))
        } else {
            None
        },
        None => None,
    }
}

/// Hexadecimal text of `bytes`.
///
/// Calls `rustc_serialize::hex::ToHex::to_hex`, which writes for each byte two
/// lower-case digits, high half first; the contract states exactly that.
#[verifier::external_body]
pub(crate) fn to_hex(bytes: &[u8]) -> (r: String)
    ensures
        r@ == spec_to_hex(bytes@),
{
    bytes.to_hex()
}

/// The bytes that hexadecimal text stands for.
///
/// Calls `rustc_serialize::hex::FromHex::from_hex`, which skips spaces, tabs,
/// carriage returns and line feeds, reads digits of either case, and fails on
/// any other character or an odd number of digits; the contract states exactly
/// that, without the kind of failure.
#[verifier::external_body]
pub(crate) fn from_hex(text: &str) -> (r: Option<Vec<u8>>)
    ensures
        opt_view(r) == spec_from_hex(text@),
{
    text.from_hex().ok()
}

/// The digit values of the hexadecimal text of `b`: each byte's halves.
proof fn lemma_hex_digits_to_hex(b: Seq<u8>)
    ensures
        hex_digits(spec_to_hex(b)) is Some,
        hex_digits(spec_to_hex(b))->0.len() == 2 * b.len(),
        pair_up(hex_digits(spec_to_hex(b))->0) == b,
    decreases b.len(),
{
    if b.len() > 0 {
        lemma_hex_digits_to_hex(b.drop_first());
        let s = spec_to_hex(b);
        let hi = b[0] / 16;
        let lo = b[0] % 16;
        let tail = spec_to_hex(b.drop_first());
        assert(s == seq![hex_digit(hi as int), hex_digit(lo as int)] + tail);
        assert(s[0] == hex_digit(hi as int));
        assert(s.drop_first() =~= seq![hex_digit(lo as int)] + tail);
        assert(s.drop_first()[0] == hex_digit(lo as int));
        assert(s.drop_first().drop_first() =~= tail);
        assert(hex_value(hex_digit(hi as int)) == Some(hi as u8));
        assert(hex_value(hex_digit(lo as int)) == Some(lo as u8));
        let rest = hex_digits(tail)->0;
        assert(hex_digits(s.drop_first()) == Some(seq![lo as u8] + rest));
        let d = seq![hi as u8] + (seq![lo as u8] + rest);
        assert(hex_digits(s) == Some(d));
        assert(d.subrange(2, d.len() as int) =~= rest);
        assert(pair_up(d) == seq![(d[0] * 16 + d[1]) as u8] + pair_up(rest));
        assert(pair_up(d) =~= b);
    }
}

/// Reading back the hexadecimal text of bytes gives the bytes.
pub proof fn lemma_from_hex_to_hex(b: Seq<u8>)
    ensures
        spec_from_hex(spec_to_hex(b)) == Some(b),
{
    lemma_hex_digits_to_hex(b);
}

} // verus!
