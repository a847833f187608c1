//! Text forms of numbers and byte lists, for human-readable rendering.

use vstd::prelude::*;
use vstd::string::*;

verus! {

/// The character of a decimal digit.
pub open spec fn digit_char(d: nat) -> char
    recommends
        d < 10,
{
    ((d + 48) as u8) as char
}

/// The decimal digits of `n`, most significant first, without leading zeros.
pub open spec fn decimal(n: nat) -> Seq<char>
    decreases n,
{
    if n < 10 {
        seq![digit_char(n)]
    } else {
        decimal(n / 10).push(digit_char(n % 10))
    }
}

/// The numbers of `s` in decimal, separated by a comma and a space.
pub open spec fn list_items(s: Seq<u8>) -> Seq<char>
    decreases s.len(),
{
    if s.len() == 0 {
        Seq::empty()
    } else if s.len() == 1 {
        decimal(s[0] as nat)
    } else {
        list_items(s.drop_last()) + ", "@ + decimal(s.last() as nat)
    }
}

/// The bytes of `s` as a bracketed list: `[82, 117]`.
pub open spec fn byte_list(s: Seq<u8>) -> Seq<char> {
    "["@ + list_items(s) + "]"@
}

/// Relies on `ToString` for `u32` (its `Display`): the decimal digits of the
/// value, with no sign, padding or separators.
#[verifier::external_body]
pub(crate) fn decimal_text(x: u32) -> (r: String)
    ensures
        r@ == decimal(x as nat),
{
    x.to_string()
}

/// Appends the bracketed list of the bytes of `s` to `out`.
pub fn push_byte_list(out: &mut String, s: &[u8])
    ensures
        final(out)@ == old(out)@ + byte_list(s@),
{
    out.append("[");
    let ghost start = out@;
    let mut i: usize = 0;
    while i < s.len()
        invariant
            i <= s@.len(),
            start == old(out)@ + "["@,
            out@ == start + list_items(s@.subrange(0, i as int)),
        decreases s@.len() - i,
    {
        let ghost before = s@.subrange(0, i as int);
        let ghost after = s@.subrange(0, i + 1);
        assert(after.drop_last() =~= before);
        if i > 0 {
            out.append(", ");
        }
        let digits = decimal_text(s[i] as u32);
        out.append(digits.as_str());
        i = i + 1;
        assert(out@ =~= start + list_items(s@.subrange(0, i as int))) by {
            if i == 1 {
                assert(before =~= Seq::<u8>::empty());
            }
        }
    }
    assert(s@.subrange(0, s@.len() as int) =~= s@);
    out.append("]");
    assert(out@ =~= old(out)@ + byte_list(s@));
}

} // verus!
