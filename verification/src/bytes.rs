//! Octet strings: big-endian numbers, fixed-size pieces and joining.

use vstd::prelude::*;

verus! {

/// The number that `bytes` write in base 256, the most significant octet first.
pub open spec fn be_value(bytes: Seq<u8>) -> nat
    decreases bytes.len(),
{
    if bytes.len() == 0 {
        0
    } else {
        be_value(bytes.drop_last()) * 256 + bytes.last() as nat
    }
}

/// `value` in base 256 over `width` octets, the most significant first.
pub open spec fn be_bytes(value: nat, width: nat) -> Seq<u8>
    decreases width,
{
    if width == 0 {
        Seq::empty()
    } else {
        be_bytes(value / 256, (width - 1) as nat).push((value % 256) as u8)
    }
}

/// How many values `width` octets tell apart.
pub open spec fn octet_range(width: nat) -> nat
    decreases width,
{
    if width == 0 {
        1
    } else {
        256 * octet_range((width - 1) as nat)
    }
}

pub proof fn lemma_octet_ranges()
    ensures
        octet_range(1) == 0x100,
        octet_range(2) == 0x1_0000,
        octet_range(4) == 0x1_0000_0000,
        octet_range(8) == 0x1_0000_0000_0000_0000,
{
    reveal_with_fuel(octet_range, 9);
}

pub proof fn lemma_octet_range_grows(a: nat, b: nat)
    requires
        a <= b,
    ensures
        octet_range(a) <= octet_range(b),
    decreases b,
{
    if a < b {
        lemma_octet_range_grows(a, (b - 1) as nat);
    }
}

/// `be_bytes` fills exactly its width.
pub proof fn lemma_be_bytes_len(value: nat, width: nat)
    ensures
        be_bytes(value, width).len() == width,
    decreases width,
{
    if width > 0 {
        lemma_be_bytes_len(value / 256, (width - 1) as nat);
    }
}

/// Writing a number that fits and reading it back gives the number.
pub proof fn lemma_be_round_trip(value: nat, width: nat)
    requires
        value < octet_range(width),
    ensures
        be_value(be_bytes(value, width)) == value,
    decreases width,
{
    if width > 0 {
        lemma_be_round_trip(value / 256, (width - 1) as nat);
        let whole = be_bytes(value, width);
        assert(whole.drop_last() =~= be_bytes(value / 256, (width - 1) as nat));
    }
}

/// Reading octets and writing the number over as many octets gives them back.
pub proof fn lemma_be_value_round_trip(bytes: Seq<u8>)
    ensures
        be_bytes(be_value(bytes), bytes.len()) == bytes,
        be_value(bytes) < octet_range(bytes.len()),
    decreases bytes.len(),
{
    if bytes.len() > 0 {
        lemma_be_value_round_trip(bytes.drop_last());
        let high = be_value(bytes.drop_last());
        let value = be_value(bytes);
        assert(value / 256 == high);
        assert(value % 256 == bytes.last() as nat);
        assert(bytes =~= bytes.drop_last().push(bytes.last()));
    } else {
        assert(be_bytes(0, 0) =~= bytes);
    }
}

/// Octets that write the same number over the same width are the same.
pub proof fn lemma_be_bytes_injective(a: nat, b: nat, width: nat)
    requires
        a < octet_range(width),
        b < octet_range(width),
        be_bytes(a, width) == be_bytes(b, width),
    ensures
        a == b,
{
    lemma_be_round_trip(a, width);
    lemma_be_round_trip(b, width);
}

/// Writes `value` big-endian over `width` octets.
pub(crate) fn be_vec(value: u64, width: usize) -> (r: Vec<u8>)
    ensures
        r@ == be_bytes(value as nat, width as nat),
        r@.len() == width,
{
    let mut out: Vec<u8> = Vec::new();
    out.resize(width, 0);
    let mut rest: u64 = value;
    let mut i: usize = width;
    while i > 0
        invariant
            i <= width,
            out@.len() == width,
            be_bytes(value as nat, width as nat) =~= be_bytes(rest as nat, i as nat) + out@.subrange(
                i as int,
                width as int,
            ),
        decreases i,
    {
        let low: u64 = rest % 256;
        let ghost before = out@;
        out[i - 1] = low as u8;
        assert(out@.subrange(i - 1, width as int) =~= seq![low as u8] + before.subrange(
            i as int,
            width as int,
        ));
        rest = rest / 256;
        i -= 1;
        proof {
            lemma_be_bytes_len(rest as nat, i as nat);
        }
    }
    proof {
        lemma_be_bytes_len(value as nat, width as nat);
    }
    assert(out@.subrange(0, width as int) =~= out@);
    out
}

/// Reads `width` octets from `at` on as a big-endian number.
pub(crate) fn read_be(bytes: &[u8], at: usize, width: usize) -> (r: u64)
    requires
        at + width <= bytes@.len(),
        width <= 8,
    ensures
        r == be_value(bytes@.subrange(at as int, at + width)),
        r < octet_range(width as nat),
{
    let total: usize = bytes.len();
    let mut value: u64 = 0;
    let mut i: usize = 0;
    assert(bytes@.subrange(at as int, at as int) =~= Seq::<u8>::empty());
    while i < width
        invariant
            i <= width <= 8,
            total == bytes@.len(),
            at + width <= total,
            value == be_value(bytes@.subrange(at as int, at + i)),
            value < octet_range(i as nat),
        decreases width - i,
    {
        let ghost grown = bytes@.subrange(at as int, at + i + 1);
        proof {
            assert(grown.drop_last() =~= bytes@.subrange(at as int, at + i));
            lemma_octet_range_grows((i + 1) as nat, 8);
            lemma_octet_ranges();
            assert(value * 256 + 255 < octet_range((i + 1) as nat));
        }
        value = value * 256 + bytes[at + i] as u64;
        i += 1;
    }
    value
}

/// The `N` octets from `at` on.
pub(crate) fn take_array<const N: usize>(bytes: &[u8], at: usize) -> (r: [u8; N])
    requires
        at + N <= bytes@.len(),
    ensures
        r@ == bytes@.subrange(at as int, at + N),
{
    let total: usize = bytes.len();
    let mut out: [u8; N] = [0u8; N];
    let mut i: usize = 0;
    while i < N
        invariant
            i <= N,
            total == bytes@.len(),
            at + N <= total,
            out@.len() == N,
            forall|j: int| 0 <= j < i ==> out@[j] == bytes@[at + j],
        decreases N - i,
    {
        out[i] = bytes[at + i];
        i += 1;
    }
    assert(out@ =~= bytes@.subrange(at as int, at + N));
    out
}

/// The octets from `from` up to `to`.
pub(crate) fn piece(bytes: &[u8], from: usize, to: usize) -> (r: Vec<u8>)
    requires
        from <= to <= bytes@.len(),
    ensures
        r@ == bytes@.subrange(from as int, to as int),
{
    let mut out: Vec<u8> = Vec::new();
    append(&mut out, &bytes[from..to]);
    out
}

/// A copy of `bytes`.
pub(crate) fn copy_of(bytes: &[u8]) -> (r: Vec<u8>)
    ensures
        r@ == bytes@,
{
    let mut out: Vec<u8> = Vec::new();
    append(&mut out, bytes);
    out
}

/// Puts `bytes` behind what `out` holds.
pub(crate) fn append(out: &mut Vec<u8>, bytes: &[u8])
    ensures
        final(out)@ == old(out)@ + bytes@,
{
    out.extend_from_slice(bytes);
    assert(out@ =~= old(out)@ + bytes@);
}

/// Whether two octet strings are the same.
pub(crate) fn same_bytes(a: &[u8], b: &[u8]) -> (r: bool)
    ensures
        r == (a@ == b@),
{
    if a.len() != b.len() {
        return false;
    }
    let mut i: usize = 0;
    while i < a.len()
        invariant
            i <= a@.len(),
            a@.len() == b@.len(),
            forall|j: int| 0 <= j < i ==> a@[j] == b@[j],
        decreases a.len() - i,
    {
        if a[i] != b[i] {
            return false;
        }
        i += 1;
    }
    assert(a@ =~= b@);
    true
}

} // verus!
