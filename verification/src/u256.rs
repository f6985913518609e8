//! 256-bit unsigned integers.
//!
//! A value is held as the four 64-bit limbs that `ethers::types::U256` holds.
//! Reading, writing, multiplying and dividing are done by that type.
use crate::bytes::{be_bytes, be_value, byte_range, word};
use vstd::prelude::*;

verus! {

/// A 256-bit unsigned integer as four 64-bit limbs, least significant first.
#[derive(Clone, Copy, Debug)]
pub struct U256 {
    pub limbs: [u64; 4],
}

/// `2^64`.
#[verifier::inline]
pub open spec fn two_64() -> nat {
    0x1_0000_0000_0000_0000nat
}

/// `2^128`.
#[verifier::inline]
pub open spec fn two_128() -> nat {
    0x1_0000_0000_0000_0000_0000_0000_0000_0000nat
}

/// `2^192`.
#[verifier::inline]
pub open spec fn two_192() -> nat {
    0x1_0000_0000_0000_0000_0000_0000_0000_0000_0000_0000_0000_0000nat
}

/// `2^256`.
#[verifier::inline]
pub open spec fn two_256() -> nat {
    0x1_0000_0000_0000_0000_0000_0000_0000_0000_0000_0000_0000_0000_0000_0000_0000_0000nat
}

/// `2^256` is the number of values that 32 bytes can spell.
pub proof fn lemma_two_256()
    ensures
        two_256() == byte_range(32),
{
    reveal_with_fuel(byte_range, 33);
}

impl View for U256 {
    type V = nat;

    /// The number that the limbs stand for.
    open spec fn view(&self) -> nat {
        self.limbs@[0] as nat + self.limbs@[1] as nat * two_64() + self.limbs@[2] as nat
            * two_128() + self.limbs@[3] as nat * two_192()
    }
}

/// Calls `ethers::types::U256::from_big_endian`: the number that the bytes spell,
/// most significant byte first. The outside function panics on more than 32 bytes.
#[verifier::external_body]
pub(crate) fn u256_from_big_endian(bytes: &[u8]) -> (r: U256)
    requires
        bytes@.len() <= 32,
    ensures
        r@ == be_value(bytes@),
{
    U256 { limbs: ethers::types::U256::from_big_endian(bytes).0 }
}

/// Calls `ethers::types::U256::to_big_endian` on a buffer of 32 bytes: the bytes of the
/// number, most significant first, padded with zeros in front.
#[verifier::external_body]
pub(crate) fn u256_to_big_endian(x: &U256) -> (r: [u8; 32])
    ensures
        r@ == be_bytes(x@, 32),
{
    let mut bytes = [0u8; 32];
    ethers::types::U256(x.limbs).to_big_endian(&mut bytes);
    bytes
}

/// Calls the `*` of `ethers::types::U256`: the product, where it fits. The outside
/// function panics where it does not.
#[verifier::external_body]
pub(crate) fn u256_mul(a: &U256, b: &U256) -> (r: U256)
    requires
        a@ * b@ < two_256(),
    ensures
        r@ == a@ * b@,
{
    U256 { limbs: (ethers::types::U256(a.limbs) * ethers::types::U256(b.limbs)).0 }
}

/// Calls the `/` of `ethers::types::U256`: the quotient, rounded down. The outside
/// function panics on a zero divisor.
#[verifier::external_body]
pub(crate) fn u256_div(a: &U256, b: &U256) -> (r: U256)
    requires
        b@ != 0,
    ensures
        r@ == a@ / b@,
{
    U256 { limbs: (ethers::types::U256(a.limbs) / ethers::types::U256(b.limbs)).0 }
}

/// The number in the 32-byte word that starts at `at`.
pub fn read_word(data: &[u8], at: usize) -> (r: U256)
    requires
        at + 32 <= data.len(),
    ensures
        r@ == word(data@, at as int),
{
    u256_from_big_endian(vstd::slice::slice_subrange(data, at, at + 32))
}

impl U256 {
    /// Zero.
    pub fn zero() -> (r: U256)
        ensures
            r@ == 0,
    {
        U256 { limbs: [0, 0, 0, 0] }
    }

    /// The 256-bit form of a 128-bit number.
    pub fn from_u128(x: u128) -> (r: U256)
        ensures
            r@ == x,
    {
        let low: u64 = (x % 0x1_0000_0000_0000_0000) as u64;
        let high: u64 = (x / 0x1_0000_0000_0000_0000) as u64;
        U256 { limbs: [low, high, 0, 0] }
    }

    /// Whether the number is zero.
    pub fn is_zero(&self) -> (r: bool)
        ensures
            r == (self@ == 0),
    {
        self.limbs[0] == 0 && self.limbs[1] == 0 && self.limbs[2] == 0 && self.limbs[3] == 0
    }

    /// Whether the number fits in 128 bits.
    pub fn fits_u128(&self) -> (r: bool)
        ensures
            r == (self@ < two_128()),
    {
        self.limbs[2] == 0 && self.limbs[3] == 0
    }

    /// Whether the number fits in 64 bits.
    pub fn fits_u64(&self) -> (r: bool)
        ensures
            r == (self@ < two_64()),
    {
        self.limbs[1] == 0 && self.limbs[2] == 0 && self.limbs[3] == 0
    }

    /// Whether the number is at most another.
    pub fn at_most(&self, other: &U256) -> (r: bool)
        ensures
            r == (self@ <= other@),
    {
        if self.limbs[3] != other.limbs[3] {
            self.limbs[3] < other.limbs[3]
        } else if self.limbs[2] != other.limbs[2] {
            self.limbs[2] < other.limbs[2]
        } else if self.limbs[1] != other.limbs[1] {
            self.limbs[1] < other.limbs[1]
        } else {
            self.limbs[0] <= other.limbs[0]
        }
    }

    /// The number as a `u128`.
    pub fn as_u128(&self) -> (r: u128)
        requires
            self@ < two_128(),
        ensures
            r == self@,
    {
        self.limbs[1] as u128 * 0x1_0000_0000_0000_0000 + self.limbs[0] as u128
    }

    /// The number as a `u64`.
    pub fn as_u64(&self) -> (r: u64)
        requires
            self@ < two_64(),
        ensures
            r == self@,
    {
        self.limbs[0]
    }

    /// The number as a `usize`, or nothing where it does not fit.
    pub fn to_usize(&self) -> (r: Option<usize>)
        ensures
            r == if self@ <= usize::MAX {
                Some(self@ as usize)
            } else {
                None
            },
    {
        if self.fits_u64() && self.limbs[0] <= usize::MAX as u64 {
            Some(self.limbs[0] as usize)
        } else {
            None
        }
    }
}

/// Every number below `2^256` has one form, and no form stands for more. The lowest limb alone
/// stands for itself, and each further limb for `2^64` times as much as the one below it.
pub proof fn law_numbers_have_one_form(a: U256, b: U256)
    ensures
        a@ < 0x1_0000_0000_0000_0000_0000_0000_0000_0000_0000_0000_0000_0000_0000_0000_0000_0000nat,
        a@ == b@ <==> a.limbs@ == b.limbs@,
        a.limbs@[1] == 0 && a.limbs@[2] == 0 && a.limbs@[3] == 0 ==> a@ == a.limbs@[0],
        a.limbs@[3] == 0 && b.limbs@[0] == 0 && b.limbs@[1] == a.limbs@[0] && b.limbs@[2]
            == a.limbs@[1] && b.limbs@[3] == a.limbs@[2] ==> b@ == a@ * 0x1_0000_0000_0000_0000nat,
{
    lemma_limbs_are_digits(a.limbs@, b.limbs@);
    if a@ == b@ {
        assert(a.limbs@ =~= b.limbs@);
    }
}

/// The number that four limbs stand for tells each of them.
proof fn lemma_limbs_are_digits(a: Seq<u64>, b: Seq<u64>)
    requires
        a.len() == 4,
        b.len() == 4,
    ensures
        a[0] as nat + a[1] as nat * two_64() + a[2] as nat * two_128() + a[3] as nat * two_192()
            == b[0] as nat + b[1] as nat * two_64() + b[2] as nat * two_128() + b[3] as nat
            * two_192() ==> a[0] == b[0] && a[1] == b[1] && a[2] == b[2] && a[3] == b[3],
{
    let (a0, a1, a2, a3) = (a[0] as int, a[1] as int, a[2] as int, a[3] as int);
    let (b0, b1, b2, b3) = (b[0] as int, b[1] as int, b[2] as int, b[3] as int);
    let a_high = a1 + a2 * two_64() + a3 * two_128();
    let b_high = b1 + b2 * two_64() + b3 * two_128();
    if a0 + a_high * two_64() == b0 + b_high * two_64() {
        assert(a_high == b_high && a0 == b0);
        let a_top = a2 + a3 * two_64();
        let b_top = b2 + b3 * two_64();
        assert(a1 + a_top * two_64() == b1 + b_top * two_64());
        assert(a_top == b_top && a1 == b1);
        assert(a2 == b2 && a3 == b3);
    }
}

} // verus!
