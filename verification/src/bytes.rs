//! Byte strings read as big-endian numbers.
use vstd::prelude::*;

verus! {

/// The number that a byte string spells in big-endian order.
pub open spec fn be_value(s: Seq<u8>) -> nat
    decreases s.len(),
{
    if s.len() == 0 {
        0
    } else {
        be_value(s.drop_last()) * 256 + s.last() as nat
    }
}

/// The `width` bytes that spell `n` (modulo `256^width`) in big-endian order.
pub open spec fn be_bytes(n: nat, width: nat) -> Seq<u8>
    decreases width,
{
    if width == 0 {
        Seq::empty()
    } else {
        be_bytes(n / 256, (width - 1) as nat).push((n % 256) as u8)
    }
}

/// `count` zero bytes.
pub open spec fn zeros(count: nat) -> Seq<u8> {
    Seq::new(count, |i: int| 0u8)
}

/// The number in the 32-byte word that starts at `at`.
pub open spec fn word(data: Seq<u8>, at: int) -> nat {
    be_value(data.subrange(at, at + 32))
}

/// `256^width`, the number of values that `width` bytes can spell.
pub open spec fn byte_range(width: nat) -> nat
    decreases width,
{
    if width == 0 {
        1
    } else {
        256 * byte_range((width - 1) as nat)
    }
}

/// `be_bytes` yields as many bytes as it was asked for.
pub proof fn lemma_be_bytes_len(n: nat, width: nat)
    ensures
        be_bytes(n, width).len() == width,
    decreases width,
{
    if width > 0 {
        lemma_be_bytes_len(n / 256, (width - 1) as nat);
    }
}

/// Reading the bytes of a number gives the number back.
pub proof fn lemma_be_value_of_bytes(n: nat, width: nat)
    requires
        n < byte_range(width),
    ensures
        be_value(be_bytes(n, width)) == n,
    decreases width,
{
    lemma_be_bytes_len(n, width);
    if width > 0 {
        let rest = be_bytes(n / 256, (width - 1) as nat);
        lemma_be_value_of_bytes(n / 256, (width - 1) as nat);
        lemma_be_bytes_len(n / 256, (width - 1) as nat);
        assert(be_bytes(n, width).drop_last() =~= rest);
    }
}

/// A byte string of length 20 as an array.
pub fn array20(bytes: &[u8]) -> (out: [u8; 20])
    requires
        bytes@.len() == 20,
    ensures
        out@ == bytes@,
{
    let mut out: [u8; 20] = [0u8; 20];
    let mut i: usize = 0;
    while i < 20
        invariant
            i <= 20,
            bytes@.len() == 20,
            forall|j: int| 0 <= j < i ==> out@[j] == bytes@[j],
        decreases 20 - i,
    {
        out[i] = bytes[i];
        i = i + 1;
    }
    assert(out@ =~= bytes@);
    out
}

/// A byte string spells the number that its front spells, moved up by the length of its back, and
/// the number that its back spells. A single byte spells itself, and no byte spells zero.
pub proof fn law_be_value_splits(front: Seq<u8>, back: Seq<u8>)
    ensures
        be_value(front + back) == be_value(front) * byte_range(back.len()) + be_value(back),
        be_value(Seq::<u8>::empty()) == 0,
        forall|b: u8| #[trigger] be_value(seq![b]) == b,
        byte_range(0) == 1,
        byte_range(back.len() + 1) == 256 * byte_range(back.len()),
    decreases back.len(),
{
    reveal_with_fuel(be_value, 2);
    assert forall|b: u8| #[trigger] be_value(seq![b]) == b by {
        assert(seq![b].drop_last() =~= Seq::<u8>::empty());
    }
    if back.len() == 0 {
        assert(front + back =~= front);
        assert(be_value(front) * byte_range(back.len()) == be_value(front)) by (nonlinear_arith)
            requires
                byte_range(back.len()) == 1,
        ;
    } else {
        let rest = back.drop_last();
        law_be_value_splits(front, rest);
        assert((front + back).drop_last() =~= front + rest);
        assert((front + back).last() == back.last());
        assert(byte_range(back.len()) == 256 * byte_range(rest.len()));
        assert((be_value(front) * byte_range(rest.len()) + be_value(rest)) * 256 == be_value(front)
            * (256 * byte_range(rest.len())) + be_value(rest) * 256) by (nonlinear_arith);
    }
}

/// Zeros in front do not change the number.
pub proof fn law_leading_zeros_spell_nothing(count: nat, s: Seq<u8>)
    ensures
        be_value(zeros(count) + s) == be_value(s),
        zeros(count).len() == count,
        forall|i: int| 0 <= i < count ==> #[trigger] zeros(count)[i] == 0,
    decreases count + s.len(),
{
    let t = zeros(count) + s;
    if s.len() > 0 {
        assert(t.drop_last() =~= zeros(count) + s.drop_last());
        law_leading_zeros_spell_nothing(count, s.drop_last());
    } else if count > 0 {
        assert(t.drop_last() =~= zeros((count - 1) as nat) + s);
        law_leading_zeros_spell_nothing((count - 1) as nat, s);
    } else {
        assert(t =~= s);
    }
}

/// Byte strings of one length that spell the same number are the same.
pub proof fn law_spelling_is_unique(a: Seq<u8>, b: Seq<u8>)
    requires
        a.len() == b.len(),
        be_value(a) == be_value(b),
    ensures
        a == b,
    decreases a.len(),
{
    if a.len() > 0 {
        law_spelling_is_unique(a.drop_last(), b.drop_last());
        assert(a.drop_last().push(a.last()) =~= a);
        assert(b.drop_last().push(b.last()) =~= b);
    } else {
        assert(a =~= b);
    }
}

/// The number that four bytes spell.
pub proof fn lemma_be_value_of_four(s: Seq<u8>)
    requires
        s.len() == 4,
    ensures
        be_value(s) == s[0] * 0x100_0000 + s[1] * 0x1_0000 + s[2] * 0x100 + s[3],
{
    reveal_with_fuel(be_value, 5);
}

/// The number that twenty bytes spell, four at a time.
pub proof fn lemma_be_value_of_twenty(s: Seq<u8>)
    requires
        s.len() == 20,
    ensures
        be_value(s) == be_value(s.subrange(0, 4))
            * 0x1_0000_0000_0000_0000_0000_0000_0000_0000nat + be_value(s.subrange(4, 8))
            * 0x1_0000_0000_0000_0000_0000_0000nat + be_value(s.subrange(8, 12))
            * 0x1_0000_0000_0000_0000nat + be_value(s.subrange(12, 16)) * 0x1_0000_0000nat
            + be_value(s.subrange(16, 20)),
{
    lemma_be_value_append_four(s.subrange(0, 4), s.subrange(4, 8));
    assert(s.subrange(0, 4) + s.subrange(4, 8) =~= s.subrange(0, 8));
    lemma_be_value_append_four(s.subrange(0, 8), s.subrange(8, 12));
    assert(s.subrange(0, 8) + s.subrange(8, 12) =~= s.subrange(0, 12));
    lemma_be_value_append_four(s.subrange(0, 12), s.subrange(12, 16));
    assert(s.subrange(0, 12) + s.subrange(12, 16) =~= s.subrange(0, 16));
    lemma_be_value_append_four(s.subrange(0, 16), s.subrange(16, 20));
    assert(s.subrange(0, 16) + s.subrange(16, 20) =~= s);
}

/// Four bytes behind others move these up by `2^32`.
pub proof fn lemma_be_value_append_four(front: Seq<u8>, back: Seq<u8>)
    requires
        back.len() == 4,
    ensures
        be_value(front + back) == be_value(front) * 0x1_0000_0000nat + be_value(back),
{
    law_be_value_splits(front, back);
    assert(byte_range(4) == 0x1_0000_0000nat) by {
        reveal_with_fuel(byte_range, 5);
    }
    assert(be_value(front) * byte_range(4) == be_value(front) * 0x1_0000_0000nat)
        by (nonlinear_arith)
        requires
            byte_range(4) == 0x1_0000_0000nat,
    ;
}

/// A byte string spells a number below `256` to the power of its length.
pub proof fn law_be_value_bound(s: Seq<u8>)
    ensures
        be_value(s) < byte_range(s.len()),
    decreases s.len(),
{
    if s.len() > 0 {
        law_be_value_bound(s.drop_last());
    }
}

/// The number that twenty bytes spell, byte by byte.
pub proof fn lemma_twenty_bytes(a: Seq<u8>)
    requires
        a.len() == 20,
    ensures
        be_value(a) == (a[0] * 0x100_0000 + a[1] * 0x1_0000 + a[2] * 0x100 + a[3])
            * 0x1_0000_0000_0000_0000_0000_0000_0000_0000int + (a[4] * 0x100_0000 + a[5] * 0x1_0000
            + a[6] * 0x100 + a[7]) * 0x1_0000_0000_0000_0000_0000_0000int + (a[8] * 0x100_0000
            + a[9] * 0x1_0000 + a[10] * 0x100 + a[11]) * 0x1_0000_0000_0000_0000int + (a[12]
            * 0x100_0000 + a[13] * 0x1_0000 + a[14] * 0x100 + a[15]) * 0x1_0000_0000int + (a[16]
            * 0x100_0000 + a[17] * 0x1_0000 + a[18] * 0x100 + a[19]),
{
    lemma_be_value_of_twenty(a);
    lemma_be_value_of_four(a.subrange(0, 4));
    lemma_be_value_of_four(a.subrange(4, 8));
    lemma_be_value_of_four(a.subrange(8, 12));
    lemma_be_value_of_four(a.subrange(12, 16));
    lemma_be_value_of_four(a.subrange(16, 20));
}

} // verus!
