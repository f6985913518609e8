//! Hexadecimal text and addresses written in it.
use crate::types::Address;
use std::str::FromStr;
use vstd::prelude::*;
use vstd::string::StringSliceAdditionalSpecFns;

verus! {

/// The error of `hex::decode`.
#[verifier::external_type_specification]
#[verifier::external_body]
pub struct ExFromHexError(hex::FromHexError);

/// The value of a hexadecimal digit in either case, or nothing for any other byte.
pub open spec fn hex_digit(c: u8) -> Option<int> {
    if 0x30 <= c <= 0x39 {
        Some(c - 0x30)
    } else if 0x61 <= c <= 0x66 {
        Some(c - 0x61 + 10)
    } else if 0x41 <= c <= 0x46 {
        Some(c - 0x41 + 10)
    } else {
        None
    }
}

/// An even number of hexadecimal digits.
pub open spec fn is_hex(text: Seq<u8>) -> bool {
    &&& text.len() % 2 == 0
    &&& forall|i: int| 0 <= i < text.len() ==> (#[trigger] hex_digit(text[i])) is Some
}

/// The bytes that pairs of hexadecimal digits spell.
pub open spec fn hex_bytes(text: Seq<u8>) -> Seq<u8> {
    Seq::new(
        text.len() / 2,
        |i: int| (16 * hex_digit(text[2 * i])->0 + hex_digit(text[2 * i + 1])->0) as u8,
    )
}

/// Text that starts with `0x`.
pub open spec fn has_0x(text: Seq<u8>) -> bool {
    text.len() >= 2 && text[0] == 0x30 && text[1] == 0x78
}

/// The text without a leading `0x`.
pub open spec fn without_0x(text: Seq<u8>) -> Seq<u8> {
    if has_0x(text) {
        text.skip(2)
    } else {
        text
    }
}

/// Blanks, which the text of an address may hold anywhere behind its prefix.
pub open spec fn is_blank(c: u8) -> bool {
    c == 0x20 || c == 0x0d || c == 0x0a || c == 0x09
}

/// The digits of the text of an address.
pub open spec fn address_digits(text: Seq<u8>) -> Seq<u8> {
    without_0x(text).filter(|c: u8| !is_blank(c))
}

/// The text of an address: 40 hexadecimal digits, with or without `0x` in front.
pub open spec fn is_address(text: Seq<u8>) -> bool {
    address_digits(text).len() == 40 && is_hex(address_digits(text))
}

/// Calls `hex::decode`: the bytes that the digits spell, where the text is an even number
/// of hexadecimal digits, and an error otherwise.
#[verifier::external_body]
pub(crate) fn hex_decode(text: &[u8]) -> (r: Result<Vec<u8>, hex::FromHexError>)
    ensures
        r is Ok <==> is_hex(text@),
        r matches Ok(bytes) ==> bytes@ == hex_bytes(text@),
{
    hex::decode(text)
}

/// Calls the `from_str` of `ethers::types::Address`: the 20 bytes that the text spells,
/// where it spells 20 bytes. A leading `0x` is dropped and blanks are skipped.
#[verifier::external_body]
fn address_from_str(text: &str) -> (r: Option<Address>)
    ensures
        r is Some <==> is_address(text.spec_bytes()),
        r matches Some(a) ==> a@ == hex_bytes(address_digits(text.spec_bytes())),
{
    ethers::types::Address::from_str(text).ok().map(|a| a.0)
}

/// The address that the text spells, or nothing where it spells none.
pub fn parse_address(text: &str) -> (r: Option<Address>)
    ensures
        r is Some <==> is_address(text.spec_bytes()),
        r matches Some(a) ==> a@ == hex_bytes(address_digits(text.spec_bytes())),
{
    address_from_str(text)
}

/// The address that the text spells.
pub fn addr(text: &str) -> (r: Address)
    requires
        is_address(text.spec_bytes()),
    ensures
        r@ == hex_bytes(address_digits(text.spec_bytes())),
{
    address_from_str(text).unwrap()
}

/// The text without a leading `0x`.
pub(crate) fn strip_0x(text: &[u8]) -> (r: &[u8])
    ensures
        r@ == without_0x(text@),
{
    if text.len() >= 2 && text[0] == 0x30 && text[1] == 0x78 {
        vstd::slice::slice_subrange(text, 2, text.len())
    } else {
        text
    }
}

/// A leading `0x` is dropped once, and nothing else is.
pub proof fn law_only_the_prefix_is_dropped(text: Seq<u8>)
    ensures
        without_0x(seq![0x30u8, 0x78u8] + text) == text,
        text.len() < 2 || text[0] != 0x30 || text[1] != 0x78 ==> without_0x(text) == text,
{
    assert((seq![0x30u8, 0x78u8] + text).skip(2) =~= text);
}

} // verus!
