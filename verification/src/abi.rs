//! Contract ABI encoding of calls, and decoding of what they return.
use crate::bytes::{be_bytes, zeros};
use crate::types::Address;
use crate::u256::U256;
use ethers::abi::{ParamType, Token};
use vstd::prelude::*;

verus! {

/// The error of `ethers::abi::decode`.
#[verifier::external_type_specification]
#[verifier::external_body]
pub struct ExAbiError(ethers::abi::Error);

/// An argument of a contract call.
#[derive(Debug)]
pub enum AbiArg<'a> {
    /// `address`.
    Address(Address),
    /// `uint256`.
    Uint(U256),
    /// `bool`.
    Bool(bool),
    /// `(address,bytes)[]`: calls, each with its target and calldata.
    Calls(&'a [(Address, Vec<u8>)]),
}

/// An argument of a contract call, over byte strings and numbers.
pub enum AbiValue {
    Address(Seq<u8>),
    Uint(nat),
    Bool(bool),
    Calls(Seq<(Seq<u8>, Seq<u8>)>),
}

/// Calls over byte strings.
pub open spec fn calls_view(calls: Seq<(Address, Vec<u8>)>) -> Seq<(Seq<u8>, Seq<u8>)> {
    calls.map_values(|call: (Address, Vec<u8>)| (call.0@, call.1@))
}

impl<'a> View for AbiArg<'a> {
    type V = AbiValue;

    open spec fn view(&self) -> AbiValue {
        match self {
            AbiArg::Address(a) => AbiValue::Address(a@),
            AbiArg::Uint(n) => AbiValue::Uint(n@),
            AbiArg::Bool(b) => AbiValue::Bool(*b),
            AbiArg::Calls(calls) => AbiValue::Calls(calls_view(calls@)),
        }
    }
}

/// Arguments over byte strings and numbers.
pub open spec fn args_view(args: Seq<AbiArg<'_>>) -> Seq<AbiValue> {
    args.map_values(|arg: AbiArg<'_>| arg@)
}

/// The number of bytes that calls take behind the word that points to them: their count, and
/// of each call its offset, target, the place and length of its calldata, and the calldata in
/// whole words.
pub open spec fn calls_size(calls: Seq<(Seq<u8>, Seq<u8>)>) -> nat
    decreases calls.len(),
{
    if calls.len() == 0 {
        32
    } else {
        calls_size(calls.drop_last()) + 128 + (calls.last().1.len() + 31) / 32 * 32
    }
}

/// The number of bytes that an argument takes.
pub open spec fn arg_size(arg: AbiValue) -> nat {
    match arg {
        AbiValue::Calls(calls) => 32 + calls_size(calls),
        _ => 32,
    }
}

/// The number of bytes that arguments take.
pub open spec fn args_size(args: Seq<AbiValue>) -> nat
    decreases args.len(),
{
    if args.len() == 0 {
        0
    } else {
        args_size(args.drop_last()) + arg_size(args.last())
    }
}

/// How many zeros fill up the last word of a byte string.
pub open spec fn padding(len: nat) -> nat {
    ((32 - len % 32) % 32) as nat
}

/// A call among the calls: its target, where its calldata starts, how long that is, and the
/// calldata in whole words.
pub open spec fn call_body(call: (Seq<u8>, Seq<u8>)) -> Seq<u8> {
    zeros(12) + call.0 + be_bytes(64, 32) + be_bytes(call.1.len(), 32) + call.1 + zeros(
        padding(call.1.len()),
    )
}

/// Calls, one behind the other.
pub open spec fn call_bodies(calls: Seq<(Seq<u8>, Seq<u8>)>) -> Seq<u8>
    decreases calls.len(),
{
    if calls.len() == 0 {
        Seq::empty()
    } else {
        call_bodies(calls.drop_last()) + call_body(calls.last())
    }
}

/// Where each of the first `n` calls starts, counted from the first of these words.
pub open spec fn call_offsets(calls: Seq<(Seq<u8>, Seq<u8>)>, n: nat) -> Seq<u8>
    decreases n,
{
    if n == 0 {
        Seq::empty()
    } else {
        call_offsets(calls, (n - 1) as nat) + be_bytes(
            32 * calls.len() + call_bodies(calls.take(n - 1)).len(),
            32,
        )
    }
}

/// The part of an argument that stands behind all words: of calls, their number, where each
/// starts, and the calls.
pub open spec fn arg_tail(arg: AbiValue) -> Seq<u8> {
    match arg {
        AbiValue::Calls(calls) => be_bytes(calls.len(), 32) + call_offsets(calls, calls.len())
            + call_bodies(calls),
        _ => Seq::empty(),
    }
}

/// The parts of arguments that stand behind all words.
pub open spec fn arg_tails(args: Seq<AbiValue>) -> Seq<u8>
    decreases args.len(),
{
    if args.len() == 0 {
        Seq::empty()
    } else {
        arg_tails(args.drop_last()) + arg_tail(args.last())
    }
}

/// The word of an argument: its value, or where its tail starts.
pub open spec fn arg_word(arg: AbiValue, tail_at: nat) -> Seq<u8> {
    match arg {
        AbiValue::Address(a) => zeros(12) + a,
        AbiValue::Uint(n) => be_bytes(n, 32),
        AbiValue::Bool(b) => zeros(31).push(if b { 1u8 } else { 0u8 }),
        AbiValue::Calls(_) => be_bytes(tail_at, 32),
    }
}

/// The words of the first `n` arguments.
pub open spec fn arg_words(args: Seq<AbiValue>, n: nat) -> Seq<u8>
    decreases n,
{
    if n == 0 {
        Seq::empty()
    } else {
        arg_words(args, (n - 1) as nat) + arg_word(
            args[n - 1],
            32 * args.len() + arg_tails(args.take(n - 1)).len(),
        )
    }
}

/// The encoding of arguments: a word for each, and the tails behind them.
pub open spec fn abi_encoding(args: Seq<AbiValue>) -> Seq<u8> {
    arg_words(args, args.len()) + arg_tails(args)
}

/// Arguments that `ethers::abi::encode` takes: it counts bytes in 32 bits, and sets aside a word
/// for each byte.
pub open spec fn args_fit(args: Seq<AbiValue>) -> bool {
    args_size(args) <= u32::MAX && 32 * args_size(args) <= isize::MAX
}

/// What `ethers::abi::decode` returns for bytes that hold a `(bool,bytes)[]`: the fields of each
/// element, or nothing where the bytes hold no such array.
pub uninterp spec fn abi_results(data: Seq<u8>) -> Option<Seq<(bool, Seq<u8>)>>;

/// Calls `ethers::abi::encode`: the encoding of the arguments by the contract ABI. The outside
/// function panics on arguments that do not fit.
#[verifier::external_body]
pub(crate) fn abi_encode(args: &[AbiArg<'_>]) -> (r: Vec<u8>)
    requires
        args_fit(args_view(args@)),
    ensures
        r@ == abi_encoding(args_view(args@)),
{
    let tuple = |call: &(Address, Vec<u8>)| {
        Token::Tuple(vec![Token::Address(call.0.into()), Token::Bytes(call.1.clone())])
    };
    let token = |arg: &AbiArg<'_>| match arg {
        AbiArg::Address(a) => Token::Address((*a).into()),
        AbiArg::Uint(n) => Token::Uint(ethers::types::U256(n.limbs)),
        AbiArg::Bool(b) => Token::Bool(*b),
        AbiArg::Calls(calls) => Token::Array(calls.iter().map(tuple).collect()),
    };
    ethers::abi::encode(&args.iter().map(token).collect::<Vec<Token>>())
}

/// The calldata of a call: its selector, and its encoded arguments behind it.
pub fn calldata(selector: [u8; 4], args: &[u8]) -> (r: Vec<u8>)
    ensures
        r@ == selector@ + args@,
{
    let mut data: Vec<u8> = Vec::new();
    data.push(selector[0]);
    data.push(selector[1]);
    data.push(selector[2]);
    data.push(selector[3]);
    data.extend_from_slice(args);
    assert(data@ =~= selector@ + args@);
    data
}

/// Results over byte strings.
pub open spec fn results_view(results: Seq<(bool, Vec<u8>)>) -> Seq<(bool, Seq<u8>)> {
    results.map_values(|result: (bool, Vec<u8>)| (result.0, result.1@))
}

/// Calls `ethers::abi::decode` for a `(bool,bytes)[]`: the fields of each element, or an error,
/// as a function of the bytes. The outside function adds to offsets of up to 32 bits, and panics
/// where a `usize` cannot hold the sum.
#[verifier::external_body]
pub(crate) fn abi_decode_results(data: &[u8]) -> (r: Result<
    Vec<(bool, Vec<u8>)>,
    ethers::abi::Error,
>)
    requires
        usize::MAX > 0x1_0000_0020,
    ensures
        match r {
            Ok(results) => abi_results(data@) == Some(results_view(results@)),
            Err(_) => abi_results(data@) is None,
        },
{
    let element = ParamType::Tuple(vec![ParamType::Bool, ParamType::Bytes]);
    let tokens = ethers::abi::decode(&[ParamType::Array(Box::new(element))], data)?;
    let array = tokens.into_iter().next().and_then(Token::into_array).unwrap_or_default();
    Ok(array.into_iter().map(|token| {
        let mut fields = token.into_tuple().unwrap_or_default().into_iter();
        let success = fields.next().and_then(Token::into_bool).unwrap_or_default();
        (success, fields.next().and_then(Token::into_bytes).unwrap_or_default())
    }).collect())
}

} // verus!
