//! Text helpers: comparison and decimal digits.

use vstd::prelude::*;

verus! {

/// Whether two texts hold the same characters.
pub(crate) fn same_text(a: &str, b: &str) -> (r: bool)
    ensures
        r == (a@ == b@),
{
    a.to_owned() == b.to_owned()
}

/// The octets of a text in UTF-8.
pub open spec fn octets(text: &str) -> Seq<u8> {
    vstd::utf8::encode_utf8(text@)
}

/// A text of ASCII characters is encoded character by character.
pub proof fn lemma_ascii_octets(chars: Seq<char>)
    requires
        forall|i: int| 0 <= i < chars.len() ==> (#[trigger] chars[i]) as u32 <= 0x7F,
    ensures
        vstd::utf8::encode_utf8(chars).len() == chars.len(),
        forall|i: int|
            0 <= i < chars.len() ==> (#[trigger] vstd::utf8::encode_utf8(chars)[i]) as u32
                == chars[i] as u32,
    decreases chars.len(),
{
    if chars.len() > 0 {
        let rest = chars.drop_first();
        assert forall|i: int| 0 <= i < rest.len() implies (#[trigger] rest[i]) as u32 <= 0x7F by {
            assert(rest[i] == chars[i + 1]);
        }
        lemma_ascii_octets(rest);
        let first = chars[0] as u32;
        assert((first & 0x7F) as u8 == first) by (bit_vector)
            requires
                first <= 0x7F,
        ;
        let all = vstd::utf8::encode_utf8(chars);
        assert(all =~= seq![first as u8] + vstd::utf8::encode_utf8(rest));
        assert forall|i: int| 0 <= i < chars.len() implies (#[trigger] all[i]) as u32
            == chars[i] as u32 by {
            if i > 0 {
                assert(all[i] == vstd::utf8::encode_utf8(rest)[i - 1]);
                assert(rest[i - 1] == chars[i]);
            }
        }
    }
}

/// The decimal digits of a number, the most significant first.
pub open spec fn decimal_digits(value: nat) -> Seq<char>
    decreases value,
{
    let last = seq![(('0' as u32) + (value % 10) as u32) as char];
    if value < 10 {
        last
    } else {
        decimal_digits(value / 10) + last
    }
}

/// The text of one decimal digit.
fn digit(value: u64) -> (r: &'static str)
    requires
        value < 10,
    ensures
        r@ == decimal_digits(value as nat),
{
    proof {
        reveal_strlit("0");
        reveal_strlit("1");
        reveal_strlit("2");
        reveal_strlit("3");
        reveal_strlit("4");
        reveal_strlit("5");
        reveal_strlit("6");
        reveal_strlit("7");
        reveal_strlit("8");
        reveal_strlit("9");
    }
    match value {
        0 => "0",
        1 => "1",
        2 => "2",
        3 => "3",
        4 => "4",
        5 => "5",
        6 => "6",
        7 => "7",
        8 => "8",
        _ => "9",
    }
}

/// A number in decimal, without a sign and without leading zeros.
pub(crate) fn decimal(value: u64) -> (r: String)
    ensures
        r@ == decimal_digits(value as nat),
    decreases value,
{
    let last: &'static str = digit(value % 10);
    if value < 10 {
        return last.to_owned();
    }
    let earlier: String = decimal(value / 10);
    join(earlier.as_str(), last)
}

/// One text behind another.
pub(crate) fn join(a: &str, b: &str) -> (r: String)
    ensures
        r@ == a@ + b@,
{
    a.to_owned().concat(b)
}

} // verus!
