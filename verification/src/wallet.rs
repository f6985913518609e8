//! The key that signs transactions.
use crate::bytes::be_value;
use crate::hexadecimal::{has_0x, hex_bytes, is_hex};
use vstd::prelude::*;
use vstd::string::StringSliceAdditionalSpecFns;

verus! {

/// The chain of Arbitrum One.
pub const ARBITRUM_CHAIN_ID: u64 = 42161;

/// A signing key and the chain that it signs for.
#[derive(Clone, Copy, PartialEq, Eq)]
pub struct Wallet {
    pub key: [u8; 32],
    pub chain_id: u64,
}

/// The order of the curve `secp256k1`, which every key is below.
pub open spec fn curve_order() -> nat {
    0xffff_ffff_ffff_ffff_ffff_ffff_ffff_fffe_baae_dce6_af48_a03b_bfd2_5e8c_d036_4141nat
}

/// Text that starts with `0X`.
pub open spec fn has_upper_0x(text: Seq<u8>) -> bool {
    text.len() >= 2 && text[0] == 0x30 && text[1] == 0x58
}

/// The digits of the text of a key: what stands behind an optional `0X`, and behind one more
/// optional `0x` or `0X`.
pub open spec fn key_digits(text: Seq<u8>) -> Seq<u8> {
    let rest = if has_upper_0x(text) {
        text.skip(2)
    } else {
        text
    };
    if has_0x(rest) || has_upper_0x(rest) {
        rest.skip(2)
    } else {
        rest
    }
}

/// The key that a text spells, if it spells one: 64 hexadecimal digits that spell a number above
/// zero and below the order of the curve.
pub open spec fn key_in(text: Seq<u8>) -> Option<Seq<u8>> {
    let digits = key_digits(text);
    if is_hex(digits) && digits.len() == 64 && 0 < be_value(hex_bytes(digits)) < curve_order() {
        Some(hex_bytes(digits))
    } else {
        None
    }
}

/// Calls the `from_str` of `ethers::signers::LocalWallet`: the 32 bytes of the key, where the
/// text spells a key of the curve.
#[verifier::external_body]
pub(crate) fn key_from_str(text: &str) -> (r: Option<[u8; 32]>)
    ensures
        r is Some <==> key_in(text.spec_bytes()) is Some,
        r matches Some(key) ==> key_in(text.spec_bytes()) == Some(key@),
{
    text.parse::<ethers::signers::LocalWallet>().ok().map(|w| w.signer().to_bytes().into())
}

} // verus!
