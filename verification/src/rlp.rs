//! Recursive length prefix (RLP) encoding of addresses and numbers.
use crate::bytes::{be_bytes, be_value, byte_range, lemma_be_bytes_len, zeros};
use crate::types::Address;
use crate::u256::{lemma_two_256, two_256, u256_to_big_endian, U256};
use vstd::prelude::*;

verus! {

/// The shortest big-endian spelling of a number. Zero takes one byte.
pub open spec fn shortest_be(n: nat) -> Seq<u8>
    decreases n,
{
    if n < 256 {
        seq![n as u8]
    } else {
        shortest_be(n / 256).push((n % 256) as u8)
    }
}

/// A number as an RLP item: itself, as a single byte, below 128, and otherwise its shortest
/// spelling behind a byte that gives the spelling's length.
pub open spec fn rlp_number(n: nat) -> Seq<u8> {
    if n < 0x80 {
        seq![n as u8]
    } else {
        seq![(0x80 + shortest_be(n).len()) as u8] + shortest_be(n)
    }
}

/// An address as an RLP item: its 20 bytes behind their length.
pub open spec fn rlp_address(address: Seq<u8>) -> Seq<u8> {
    seq![0x94u8] + address
}

/// The number that an RLP item of a number stands for.
pub open spec fn rlp_item_value(item: Seq<u8>) -> nat {
    if item.len() == 1 {
        be_value(item)
    } else {
        be_value(item.skip(1))
    }
}

/// The shortest spelling spells the number, starts with no zero byte (but for zero itself), and
/// is what is left of any wide enough spelling without its leading zeros.
proof fn lemma_shortest_be(n: nat, width: nat)
    requires
        n < byte_range(width),
        width >= 1,
    ensures
        1 <= shortest_be(n).len() <= width,
        be_value(shortest_be(n)) == n,
        n > 0 ==> shortest_be(n)[0] != 0,
        n >= 256 ==> shortest_be(n).len() > 1,
        be_bytes(n, width) == zeros((width - shortest_be(n).len()) as nat) + shortest_be(n),
    decreases n,
{
    let short = shortest_be(n);
    let rest = be_bytes(n / 256, (width - 1) as nat);
    lemma_be_bytes_len(n / 256, (width - 1) as nat);
    if n < 256 {
        lemma_zero_bytes((width - 1) as nat);
        assert(short.drop_last() =~= Seq::empty());
        assert(be_value(short.drop_last()) == 0);
        assert(be_bytes(n, width) =~= zeros((width - 1) as nat) + short);
    } else {
        assert(width >= 2) by {
            reveal_with_fuel(byte_range, 2);
        }
        lemma_shortest_be(n / 256, (width - 1) as nat);
        let before = shortest_be(n / 256);
        assert(short.drop_last() =~= before);
        assert(be_bytes(n, width) =~= zeros((width - short.len()) as nat) + short);
    }
}

/// Zero is spelt by zero bytes.
proof fn lemma_zero_bytes(width: nat)
    ensures
        be_bytes(0, width) == zeros(width),
    decreases width,
{
    if width > 0 {
        lemma_zero_bytes((width - 1) as nat);
    }
    assert(be_bytes(0, width) =~= zeros(width));
}

/// RLP of an address.
pub fn rlp_encode_address(addr: &Address) -> (out: Vec<u8>)
    ensures
        out@ == rlp_address(addr@),
{
    let mut out: Vec<u8> = Vec::with_capacity(21);
    out.push(0x80 + 20);
    out.extend_from_slice(addr.as_slice());
    assert(out@ =~= rlp_address(addr@));
    out
}

/// RLP of a number.
pub fn rlp_encode_u256(value: U256) -> (out: Vec<u8>)
    ensures
        out@ == rlp_number(value@),
{
    let bytes = u256_to_big_endian(&value);
    let ghost n = value@;
    proof {
        lemma_two_256();
        lemma_shortest_be(n, 32);
    }
    let ghost short = shortest_be(n);
    let ghost skipped = 32 - short.len();
    let mut start: usize = 0;
    while start < 31 && bytes[start] == 0
        invariant
            start <= 31,
            bytes@ == zeros(skipped as nat) + short,
            skipped == 32 - short.len(),
            0 <= skipped <= 31,
            n > 0 ==> short[0] != 0,
            n == 0 ==> short == seq![0u8],
            start <= skipped,
        decreases 31 - start,
    {
        proof {
            if start == skipped {
                assert(bytes@[start as int] == short[0]);
            }
        }
        start = start + 1;
    }
    proof {
        if start < skipped {
            assert(bytes@[start as int] == zeros(skipped as nat)[start as int]);
        }
    }
    let significant = vstd::slice::slice_subrange(bytes.as_slice(), start, 32);
    assert(significant@ =~= short);
    proof {
        if n < 256 {
            assert(short == seq![n as u8]);
        }
    }
    if significant.len() == 1 && significant[0] < 0x80 {
        vstd::slice::slice_to_vec(significant)
    } else {
        let mut out: Vec<u8> = Vec::with_capacity(significant.len() + 1);
        out.push(0x80 + significant.len() as u8);
        out.extend_from_slice(significant);
        assert(out@ =~= rlp_number(n));
        out
    }
}

/// An RLP item gives its number back, so no two numbers share an item.
pub proof fn law_rlp_number_reads_back(n: nat)
    requires
        n < two_256(),
    ensures
        rlp_item_value(rlp_number(n)) == n,
{
    lemma_two_256();
    lemma_shortest_be(n, 32);
    if n < 0x80 {
        assert(rlp_number(n).drop_last() =~= Seq::empty());
        assert(be_value(rlp_number(n).drop_last()) == 0);
    } else {
        assert(rlp_number(n).skip(1) =~= shortest_be(n));
    }
}

/// An RLP item of a number is canonical: at most 33 bytes, its first byte gives the length of
/// what follows unless the item is a single byte below 128, and what follows starts with no
/// zero byte and spells the number.
pub proof fn law_rlp_number_is_canonical(n: nat)
    requires
        n < two_256(),
    ensures
        1 <= rlp_number(n).len() <= 33,
        rlp_number(n).len() == 1 <==> n < 0x80,
        rlp_number(n).len() > 1 ==> rlp_number(n)[0] == 0x80 + (rlp_number(n).len() - 1),
        rlp_number(n).len() > 1 ==> rlp_number(n)[1] != 0,
        rlp_number(n).len() == 1 ==> rlp_number(n)[0] == n,
        rlp_number(n).len() > 1 ==> be_value(rlp_number(n).skip(1)) == n,
{
    lemma_two_256();
    lemma_shortest_be(n, 32);
    if n >= 0x80 {
        assert(rlp_number(n).skip(1) =~= shortest_be(n));
    }
}

/// An RLP item of an address is 21 bytes long, and no two addresses share one.
pub proof fn law_rlp_address_reads_back(address: Seq<u8>)
    requires
        address.len() == 20,
    ensures
        rlp_address(address).len() == 21,
        rlp_address(address)[0] == 0x80 + 20,
        rlp_address(address).skip(1) == address,
{
    assert(rlp_address(address).skip(1) =~= address);
}

} // verus!
