//! Discovery of pools: which factories to ask for which pairs of tokens.
use crate::abi::{
    abi_encode, abi_encoding, arg_tails, arg_words, args_size, args_view, calldata, calls_view,
    AbiArg, AbiValue,
};
use crate::bytes::{
    be_bytes, be_value, byte_range, law_be_value_bound, law_be_value_splits, lemma_be_bytes_len,
    lemma_be_value_of_bytes, lemma_be_value_of_four, zeros,
};
use crate::multicall::{lemma_calls_size_bound, multicall_fits};
use crate::pools::{
    addresses_of, factories, token_addresses, CAMELOT_FACTORY, SUSHISWAP_FACTORY,
    UNISWAP_V3_FACTORY,
};
use crate::types::Address;
use crate::u256::{lemma_two_256, U256};
use vstd::prelude::*;

verus! {

/// `getPool(address,address,uint24)`.
pub const GET_POOL: [u8; 4] = [0x16, 0x98, 0xee, 0x82];

/// `getPair(address,address)`.
pub const GET_PAIR: [u8; 4] = [0xe6, 0xa4, 0x39, 0x05];

/// A question to a factory: which pool trades the two tokens?
#[derive(Clone, Copy, Debug)]
pub struct PoolLookup {
    pub factory: Address,
    pub token0: Address,
    pub token1: Address,
    /// Whether the factory is one of V3 pools.
    pub is_v3: bool,
    /// The fee: of a V3 pool in hundredths of a basis point, of a V2 pool in basis points.
    pub fee: u32,
}

/// The first byte in which two addresses differ is smaller in `a`.
pub open spec fn precedes(a: Seq<u8>, b: Seq<u8>) -> bool {
    exists|k: int|
        0 <= k < a.len() && k < b.len() && #[trigger] a[k] < b[k] && a.take(k) == b.take(k)
}

/// Two tokens in the order in which factories keep them.
pub open spec fn in_order(a: Address, b: Address) -> (Address, Address) {
    if precedes(a@, b@) {
        (a, b)
    } else {
        (b, a)
    }
}

/// Whether the first byte in which two addresses differ is smaller in `a`.
fn address_precedes(a: &Address, b: &Address) -> (r: bool)
    ensures
        r == precedes(a@, b@),
{
    let mut i: usize = 0;
    while i < 20
        invariant
            i <= 20,
            a@.take(i as int) == b@.take(i as int),
        decreases 20 - i,
    {
        if a[i] != b[i] {
            proof {
                if a@[i as int] < b@[i as int] {
                    assert(precedes(a@, b@));
                } else if precedes(a@, b@) {
                    let k = choose|k: int|
                        0 <= k < a@.len() && k < b@.len() && #[trigger] a@[k] < b@[k] && a@.take(k)
                            == b@.take(k);
                    if k < i {
                        assert(a@.take(i as int)[k] == b@.take(i as int)[k]);
                    } else {
                        assert(a@.take(k)[i as int] == b@.take(k)[i as int]);
                    }
                }
            }
            return a[i] < b[i];
        }
        assert(a@.take(i + 1) =~= a@.take(i as int).push(a@[i as int]));
        assert(b@.take(i + 1) =~= b@.take(i as int).push(b@[i as int]));
        i = i + 1;
    }
    proof {
        assert(a@.take(20) =~= a@ && b@.take(20) =~= b@);
        assert(!precedes(a@, b@));
    }
    false
}

/// What to ask about two tokens: Uniswap V3 for each of its three fees, SushiSwap and Camelot.
pub open spec fn pair_lookups(a: Address, b: Address) -> Seq<PoolLookup> {
    let (token0, token1) = in_order(a, b);
    seq![
        PoolLookup { factory: UNISWAP_V3_FACTORY, token0, token1, is_v3: true, fee: 500 },
        PoolLookup { factory: UNISWAP_V3_FACTORY, token0, token1, is_v3: true, fee: 3000 },
        PoolLookup { factory: UNISWAP_V3_FACTORY, token0, token1, is_v3: true, fee: 10000 },
        PoolLookup { factory: SUSHISWAP_FACTORY, token0, token1, is_v3: false, fee: 30 },
        PoolLookup { factory: CAMELOT_FACTORY, token0, token1, is_v3: false, fee: 30 },
    ]
}

/// What to ask about token `i` and each later token before `end`.
pub open spec fn row_lookups(tokens: Seq<Address>, i: int, end: int) -> Seq<PoolLookup>
    decreases end,
{
    if end <= i + 1 || i < 0 {
        Seq::empty()
    } else {
        row_lookups(tokens, i, end - 1) + pair_lookups(tokens[i], tokens[end - 1])
    }
}

/// What to ask about each of the first `rows` tokens and each later token.
pub open spec fn table_lookups(tokens: Seq<Address>, rows: int) -> Seq<PoolLookup>
    decreases rows,
{
    if rows <= 0 {
        Seq::empty()
    } else {
        table_lookups(tokens, rows - 1) + row_lookups(tokens, rows - 1, tokens.len() as int)
    }
}

/// What to ask about every pair of tokens.
pub open spec fn lookups_for(tokens: Seq<Address>) -> Seq<PoolLookup> {
    table_lookups(tokens, tokens.len() as int)
}

/// What to ask about every pair of tokens.
pub fn pool_lookups(tokens: &[(&'static str, Address)]) -> (r: Vec<PoolLookup>)
    ensures
        r@ == lookups_for(addresses_of(tokens@)),
{
    let (v3_factory, sushi_factory, camelot_factory) = factories();
    let ghost addresses = addresses_of(tokens@);
    let mut out: Vec<PoolLookup> = Vec::new();
    let mut i: usize = 0;
    while i < tokens.len()
        invariant
            i <= tokens@.len(),
            addresses == addresses_of(tokens@),
            v3_factory == UNISWAP_V3_FACTORY,
            sushi_factory == SUSHISWAP_FACTORY,
            camelot_factory == CAMELOT_FACTORY,
            out@ == table_lookups(addresses, i as int),
        decreases tokens@.len() - i,
    {
        let mut j: usize = i + 1;
        assert(out@ =~= table_lookups(addresses, i as int) + row_lookups(
            addresses,
            i as int,
            j as int,
        ));
        while j < tokens.len()
            invariant
                i < j <= tokens@.len(),
                addresses == addresses_of(tokens@),
                v3_factory == UNISWAP_V3_FACTORY,
                sushi_factory == SUSHISWAP_FACTORY,
                camelot_factory == CAMELOT_FACTORY,
                out@ == table_lookups(addresses, i as int) + row_lookups(
                    addresses,
                    i as int,
                    j as int,
                ),
            decreases tokens@.len() - j,
        {
            let ghost before = out@;
            let t0: Address = tokens[i].1;
            let t1: Address = tokens[j].1;
            let (token0, token1): (Address, Address) = if address_precedes(&t0, &t1) {
                (t0, t1)
            } else {
                (t1, t0)
            };
            out.push(PoolLookup { factory: v3_factory, token0, token1, is_v3: true, fee: 500 });
            out.push(PoolLookup { factory: v3_factory, token0, token1, is_v3: true, fee: 3000 });
            out.push(PoolLookup { factory: v3_factory, token0, token1, is_v3: true, fee: 10000 });
            out.push(PoolLookup { factory: sushi_factory, token0, token1, is_v3: false, fee: 30 });
            out.push(
                PoolLookup { factory: camelot_factory, token0, token1, is_v3: false, fee: 30 },
            );
            proof {
                assert(addresses[i as int] == t0 && addresses[j as int] == t1);
                assert(out@ =~= before + pair_lookups(t0, t1));
                assert(out@ =~= table_lookups(addresses, i as int) + row_lookups(
                    addresses,
                    i as int,
                    j + 1,
                ));
            }
            j = j + 1;
        }
        i = i + 1;
    }
    out
}

/// The calldata of a lookup.
pub open spec fn lookup_calldata(lookup: PoolLookup) -> Seq<u8> {
    let tokens = zeros(12) + lookup.token0@ + (zeros(12) + lookup.token1@);
    if lookup.is_v3 {
        GET_POOL@ + (tokens + be_bytes(lookup.fee as nat, 32))
    } else {
        GET_PAIR@ + tokens
    }
}

/// The call of a lookup.
pub open spec fn lookup_call(lookup: PoolLookup) -> (Seq<u8>, Seq<u8>) {
    (lookup.factory@, lookup_calldata(lookup))
}

/// The calls of lookups.
pub open spec fn lookup_calls(lookups: Seq<PoolLookup>) -> Seq<(Seq<u8>, Seq<u8>)> {
    lookups.map_values(|lookup: PoolLookup| lookup_call(lookup))
}

/// The calls that ask each lookup's question.
pub fn discovery_calls(lookups: &[PoolLookup]) -> (r: Vec<(Address, Vec<u8>)>)
    ensures
        calls_view(r@) == lookup_calls(lookups@),
{
    let mut out: Vec<(Address, Vec<u8>)> = Vec::new();
    let mut i: usize = 0;
    while i < lookups.len()
        invariant
            i <= lookups@.len(),
            out@.len() == i,
            forall|k: int|
                0 <= k < i ==> ((#[trigger] out@[k]).0@, out@[k].1@) == lookup_call(lookups@[k]),
        decreases lookups@.len() - i,
    {
        let lookup: PoolLookup = lookups[i];
        let data: Vec<u8> = if lookup.is_v3 {
            let args: [AbiArg<'_>; 3] = [
                AbiArg::Address(lookup.token0),
                AbiArg::Address(lookup.token1),
                AbiArg::Uint(U256::from_u128(lookup.fee as u128)),
            ];
            proof {
                lemma_lookup_encoding(lookup);
                assert(args_view(args@) =~= seq![
                    AbiValue::Address(lookup.token0@),
                    AbiValue::Address(lookup.token1@),
                ].push(AbiValue::Uint(lookup.fee as nat)));
            }
            calldata(GET_POOL, abi_encode(&args).as_slice())
        } else {
            let args: [AbiArg<'_>; 2] = [
                AbiArg::Address(lookup.token0),
                AbiArg::Address(lookup.token1),
            ];
            proof {
                lemma_lookup_encoding(lookup);
                assert(args_view(args@) =~= seq![
                    AbiValue::Address(lookup.token0@),
                    AbiValue::Address(lookup.token1@),
                ]);
            }
            calldata(GET_PAIR, abi_encode(&args).as_slice())
        };
        out.push((lookup.factory, data));
        i = i + 1;
    }
    assert(calls_view(out@) =~= lookup_calls(lookups@));
    out
}

/// The encoding of a lookup's arguments.
proof fn lemma_lookup_encoding(lookup: PoolLookup)
    ensures
        ({
            let pair = seq![AbiValue::Address(lookup.token0@), AbiValue::Address(lookup.token1@)];
            let triple = pair.push(AbiValue::Uint(lookup.fee as nat));
            let words = zeros(12) + lookup.token0@ + (zeros(12) + lookup.token1@);
            &&& abi_encoding(pair) == words
            &&& abi_encoding(triple) == words + be_bytes(lookup.fee as nat, 32)
            &&& args_size(pair) == 64
            &&& args_size(triple) == 96
        }),
{
    let one = seq![AbiValue::Address(lookup.token0@)];
    let pair = seq![AbiValue::Address(lookup.token0@), AbiValue::Address(lookup.token1@)];
    let triple = pair.push(AbiValue::Uint(lookup.fee as nat));
    assert(one.drop_last() =~= Seq::empty());
    assert(pair.drop_last() =~= one);
    assert(triple.drop_last() =~= pair);
    reveal_with_fuel(args_size, 4);
    reveal_with_fuel(arg_tails, 4);
    reveal_with_fuel(arg_words, 4);
    assert(abi_encoding(pair) =~= zeros(12) + lookup.token0@ + (zeros(12) + lookup.token1@));
    assert(abi_encoding(triple) =~= zeros(12) + lookup.token0@ + (zeros(12) + lookup.token1@)
        + be_bytes(lookup.fee as nat, 32));
}

/// Addresses that differ after a common start of `k` bytes stand in one order or the other.
proof fn lemma_first_difference(a: Seq<u8>, b: Seq<u8>, k: int)
    requires
        a.len() == b.len(),
        0 <= k <= a.len(),
        a.take(k) == b.take(k),
        a != b,
    ensures
        precedes(a, b) || precedes(b, a),
    decreases a.len() - k,
{
    if k == a.len() {
        assert(a.take(k) =~= a && b.take(k) =~= b);
    } else if a[k] == b[k] {
        assert(a.take(k + 1) =~= a.take(k).push(a[k]));
        assert(b.take(k + 1) =~= b.take(k).push(b[k]));
        lemma_first_difference(a, b, k + 1);
    }
}

/// Of two different addresses exactly one stands before the other, and none stands before
/// itself.
pub proof fn law_address_order_is_total(a: Seq<u8>, b: Seq<u8>)
    requires
        a.len() == b.len(),
    ensures
        a != b ==> (precedes(a, b) <==> !precedes(b, a)),
        a == b ==> !precedes(a, b),
{
    if a != b {
        assert(a.take(0) =~= b.take(0));
        lemma_first_difference(a, b, 0);
        if precedes(a, b) && precedes(b, a) {
            let k = choose|k: int|
                0 <= k < a.len() && k < b.len() && #[trigger] a[k] < b[k] && a.take(k) == b.take(
                    k,
                );
            let m = choose|m: int|
                0 <= m < b.len() && m < a.len() && #[trigger] b[m] < a[m] && b.take(m) == a.take(
                    m,
                );
            if k < m {
                assert(a.take(m)[k] == b.take(m)[k]);
            } else if m < k {
                assert(a.take(k)[m] == b.take(k)[m]);
            }
        }
    }
}

proof fn lemma_row_lookups(tokens: Seq<Address>, i: int, end: int)
    requires
        0 <= i < tokens.len(),
        i < end <= tokens.len(),
    ensures
        row_lookups(tokens, i, end).len() == 5 * (end - i - 1),
        forall|l: int|
            0 <= l < row_lookups(tokens, i, end).len() ==> #[trigger] row_lookups(
                tokens,
                i,
                end,
            )[l] == pair_lookups(tokens[i], tokens[i + 1 + l / 5])[l % 5],
    decreases end,
{
    if end > i + 1 {
        lemma_row_lookups(tokens, i, end - 1);
        let shorter = row_lookups(tokens, i, end - 1);
        assert forall|l: int|
            0 <= l < row_lookups(tokens, i, end).len() implies #[trigger] row_lookups(
            tokens,
            i,
            end,
        )[l] == pair_lookups(tokens[i], tokens[i + 1 + l / 5])[l % 5] by {
            if l < shorter.len() {
                assert(row_lookups(tokens, i, end)[l] == shorter[l]);
            } else {
                assert(l / 5 == end - i - 2 && l % 5 == l - shorter.len());
            }
        }
    }
}

/// The number of lookups in a table of `rows` rows over `n` tokens.
spec fn table_size(n: int, rows: int) -> int
    decreases rows,
{
    if rows <= 0 {
        0
    } else {
        table_size(n, rows - 1) + 5 * (n - rows)
    }
}

proof fn lemma_table_size(n: int, rows: int)
    requires
        0 <= rows <= n,
    ensures
        2 * table_size(n, rows) == 5 * (rows * (2 * n - rows - 1)),
    decreases rows,
{
    if rows > 0 {
        lemma_table_size(n, rows - 1);
        assert(rows * (2 * n - rows - 1) == (rows - 1) * (2 * n - (rows - 1) - 1) + 2 * (n - rows))
            by (nonlinear_arith);
    } else {
        assert(rows * (2 * n - rows - 1) == 0) by (nonlinear_arith)
            requires
                rows == 0,
        ;
    }
}

proof fn lemma_table_len(tokens: Seq<Address>, rows: int)
    requires
        0 <= rows <= tokens.len(),
    ensures
        table_lookups(tokens, rows).len() == table_size(tokens.len() as int, rows),
    decreases rows,
{
    if rows > 0 {
        lemma_table_len(tokens, rows - 1);
        lemma_row_lookups(tokens, rows - 1, tokens.len() as int);
    }
}

/// There are five lookups for every pair of tokens.
pub proof fn law_five_lookups_per_pair(tokens: Seq<Address>)
    ensures
        2 * lookups_for(tokens).len() == 5 * (tokens.len() * (tokens.len() - 1)),
{
    let n = tokens.len() as int;
    lemma_table_len(tokens, n);
    lemma_table_size(n, n);
    assert(n * (2 * n - n - 1) == n * (n - 1)) by (nonlinear_arith);
}

proof fn lemma_table_contains(tokens: Seq<Address>, rows: int, i: int, j: int, kind: int)
    requires
        0 <= i < j < tokens.len(),
        i < rows <= tokens.len(),
        0 <= kind < 5,
    ensures
        table_lookups(tokens, rows).contains(pair_lookups(tokens[i], tokens[j])[kind]),
    decreases rows,
{
    let rest = table_lookups(tokens, rows - 1);
    let row = row_lookups(tokens, rows - 1, tokens.len() as int);
    let wanted = pair_lookups(tokens[i], tokens[j])[kind];
    if i < rows - 1 {
        lemma_table_contains(tokens, rows - 1, i, j, kind);
        let l = choose|l: int| 0 <= l < rest.len() && rest[l] == wanted;
        assert(table_lookups(tokens, rows)[l] == wanted);
    } else {
        lemma_row_lookups(tokens, i, tokens.len() as int);
        let l = 5 * (j - i - 1) + kind;
        assert(l / 5 == j - i - 1 && l % 5 == kind);
        assert(row[l] == wanted);
        assert(table_lookups(tokens, rows)[rest.len() + l] == wanted);
    }
}

/// Every pair of tokens is asked about, at each factory and for each fee.
pub proof fn law_every_pair_is_asked_about(tokens: Seq<Address>, i: int, j: int, kind: int)
    requires
        0 <= i < j < tokens.len(),
        0 <= kind < 5,
    ensures
        lookups_for(tokens).contains(pair_lookups(tokens[i], tokens[j])[kind]),
{
    lemma_table_contains(tokens, tokens.len() as int, i, j, kind);
}

/// A lookup in a table is one of some pair of tokens.
proof fn lemma_table_lookup(tokens: Seq<Address>, rows: int, l: int) -> (r: (int, int, int))
    requires
        0 <= rows <= tokens.len(),
        0 <= l < table_lookups(tokens, rows).len(),
    ensures
        ({
            let (i, j, kind) = r;
            &&& 0 <= i < j < tokens.len()
            &&& 0 <= kind < 5
            &&& table_lookups(tokens, rows)[l] == pair_lookups(tokens[i], tokens[j])[kind]
        }),
    decreases rows,
{
    let rest = table_lookups(tokens, rows - 1);
    if l < rest.len() {
        lemma_table_lookup(tokens, rows - 1, l)
    } else {
        lemma_row_lookups(tokens, rows - 1, tokens.len() as int);
        let at = l - rest.len();
        assert(table_lookups(tokens, rows)[l] == row_lookups(
            tokens,
            rows - 1,
            tokens.len() as int,
        )[at]);
        (rows - 1, rows + at / 5, at % 5)
    }
}

/// Every lookup asks one of the three factories about two of the tokens, the smaller address
/// first: Uniswap V3 for a fee of 0.05%, 0.3% or 1%, and the other two at 30 basis points.
pub proof fn law_lookups_are_in_order(tokens: Seq<Address>, l: int)
    requires
        0 <= l < lookups_for(tokens).len(),
    ensures
        ({
            let lookup = lookups_for(tokens)[l];
            &&& tokens.contains(lookup.token0)
            &&& tokens.contains(lookup.token1)
            &&& lookup.token0@ != lookup.token1@ ==> precedes(lookup.token0@, lookup.token1@)
            &&& lookup.is_v3 <==> lookup.factory == UNISWAP_V3_FACTORY
            &&& lookup.is_v3 ==> lookup.fee == 500 || lookup.fee == 3000 || lookup.fee == 10000
            &&& !lookup.is_v3 ==> lookup.fee == 30 && (lookup.factory == SUSHISWAP_FACTORY
                || lookup.factory == CAMELOT_FACTORY)
        }),
{
    let (i, j, kind) = lemma_table_lookup(tokens, tokens.len() as int, l);
    law_address_order_is_total(tokens[i]@, tokens[j]@);
    assert(UNISWAP_V3_FACTORY@[0] == 0x1f && SUSHISWAP_FACTORY@[0] == 0xc3 && CAMELOT_FACTORY@[0]
        == 0x6e);
}

/// The calls of a discovery over the known tokens are few and short enough to be sent at once.
pub proof fn law_discovery_fits()
    ensures
        lookups_for(token_addresses()).len() == 330,
        multicall_fits(lookup_calls(lookups_for(token_addresses()))),
{
    let lookups = lookups_for(token_addresses());
    let calls = lookup_calls(lookups);
    law_five_lookups_per_pair(token_addresses());
    assert(token_addresses().len() == 12);
    assert(12 * (12 - 1) == 132);
    assert forall|l: int| 0 <= l < calls.len() implies (#[trigger] calls[l]).1.len() <= 32 * 4 by {
        lemma_be_bytes_len(lookups[l].fee as nat, 32);
        assert(calls[l] == lookup_call(lookups[l]));
    }
    lemma_calls_size_bound(calls, 4);
    assert(calls.len() == 330);
    assert(330 * (128 + 32 * 4) == 84480);
}

/// Addresses stand in the order of the numbers that they spell.
pub proof fn law_address_order_is_numeric(a: Seq<u8>, b: Seq<u8>)
    requires
        a.len() == b.len(),
    ensures
        precedes(a, b) <==> be_value(a) < be_value(b),
{
    if precedes(a, b) {
        lemma_precedes_is_less(a, b);
    } else {
        law_address_order_is_total(a, b);
        if a != b {
            lemma_precedes_is_less(b, a);
        }
    }
}

proof fn lemma_precedes_is_less(a: Seq<u8>, b: Seq<u8>)
    requires
        a.len() == b.len(),
        precedes(a, b),
    ensures
        be_value(a) < be_value(b),
{
    let k = choose|k: int|
        0 <= k < a.len() && k < b.len() && #[trigger] a[k] < b[k] && a.take(k) == b.take(k);
    let a1 = a.take(k + 1);
    let b1 = b.take(k + 1);
    let a2 = a.skip(k + 1);
    let b2 = b.skip(k + 1);
    assert(a1.drop_last() =~= a.take(k));
    assert(b1.drop_last() =~= b.take(k));
    assert(a1 + a2 =~= a);
    assert(b1 + b2 =~= b);
    law_be_value_splits(a1, a2);
    law_be_value_splits(b1, b2);
    law_be_value_bound(a2);
    let range = byte_range(a2.len());
    assert(be_value(a1) < be_value(b1));
    assert(be_value(a1) * range + range <= be_value(b1) * range) by (nonlinear_arith)
        requires
            be_value(a1) + 1 <= be_value(b1),
    ;
}

/// A lookup asks a factory about two tokens, in either order, at the given fee.
pub open spec fn asks(
    lookup: PoolLookup,
    factory: Address,
    is_v3: bool,
    fee: u32,
    a: Address,
    b: Address,
) -> bool {
    &&& lookup.factory == factory
    &&& lookup.is_v3 == is_v3
    &&& lookup.fee == fee
    &&& (lookup.token0 == a && lookup.token1 == b) || (lookup.token0 == b && lookup.token1 == a)
    &&& be_value(lookup.token0@) <= be_value(lookup.token1@)
}

proof fn lemma_table_place(tokens: Seq<Address>, rows: int, i: int, j: int, kind: int)
    requires
        0 <= i < j < tokens.len(),
        i < rows <= tokens.len(),
        0 <= kind < 5,
    ensures
        ({
            let at = table_size(tokens.len() as int, i) + 5 * (j - i - 1) + kind;
            &&& 0 <= at < table_lookups(tokens, rows).len()
            &&& table_lookups(tokens, rows)[at] == pair_lookups(tokens[i], tokens[j])[kind]
        }),
    decreases rows,
{
    let n = tokens.len() as int;
    let rest = table_lookups(tokens, rows - 1);
    let row = row_lookups(tokens, rows - 1, n);
    lemma_table_len(tokens, rows - 1);
    if i < rows - 1 {
        lemma_table_place(tokens, rows - 1, i, j, kind);
        let at = table_size(n, i) + 5 * (j - i - 1) + kind;
        assert(table_lookups(tokens, rows)[at] == rest[at]);
    } else {
        lemma_row_lookups(tokens, i, n);
        let l = 5 * (j - i - 1) + kind;
        assert(l / 5 == j - i - 1 && l % 5 == kind);
        assert(table_lookups(tokens, rows)[rest.len() + l] == row[l]);
    }
}

/// About every two tokens five questions are asked, one behind the other: Uniswap V3 is asked for
/// each of its three fees, and SushiSwap and Camelot at 30 basis points. The pairs stand in the
/// order of their first and then of their second token, so that `pair` others come before them.
pub proof fn law_all_factories_are_asked(tokens: Seq<Address>, i: int, j: int, pair: int)
    requires
        0 <= i < j < tokens.len(),
        2 * pair == i * (2 * tokens.len() - i - 1) + 2 * (j - i - 1),
    ensures
        ({
            let all = lookups_for(tokens);
            let (a, b) = (tokens[i], tokens[j]);
            &&& 0 <= 5 * pair && 5 * pair + 5 <= all.len()
            &&& asks(all[5 * pair], UNISWAP_V3_FACTORY, true, 500, a, b)
            &&& asks(all[5 * pair + 1], UNISWAP_V3_FACTORY, true, 3000, a, b)
            &&& asks(all[5 * pair + 2], UNISWAP_V3_FACTORY, true, 10000, a, b)
            &&& asks(all[5 * pair + 3], SUSHISWAP_FACTORY, false, 30, a, b)
            &&& asks(all[5 * pair + 4], CAMELOT_FACTORY, false, 30, a, b)
        }),
{
    let n = tokens.len() as int;
    let (a, b) = (tokens[i], tokens[j]);
    law_address_order_is_numeric(a@, b@);
    lemma_table_size(n, i);
    assert(5 * pair == table_size(n, i) + 5 * (j - i - 1));
    lemma_table_place(tokens, n, i, j, 0);
    lemma_table_place(tokens, n, i, j, 1);
    lemma_table_place(tokens, n, i, j, 2);
    lemma_table_place(tokens, n, i, j, 3);
    lemma_table_place(tokens, n, i, j, 4);
}

/// A lookup goes to its factory and asks for `getPool` with both tokens and the fee on V3, and for
/// `getPair` with both tokens on V2, each as a word.
pub proof fn law_lookup_call_reads_back(lookup: PoolLookup)
    ensures
        ({
            let (target, data) = lookup_call(lookup);
            &&& target == lookup.factory@
            &&& lookup.is_v3 ==> data.len() == 100 && be_value(data.take(4)) == 0x1698ee82
                && be_value(data.subrange(68, 100)) == lookup.fee
            &&& !lookup.is_v3 ==> data.len() == 68 && be_value(data.take(4)) == 0xe6a43905
            &&& data.subrange(16, 36) == lookup.token0@
            &&& data.subrange(48, 68) == lookup.token1@
            &&& forall|i: int| 4 <= i < 16 || 36 <= i < 48 ==> #[trigger] data[i] == 0
        }),
{
    let (_, data) = lookup_call(lookup);
    lemma_two_256();
    lemma_be_bytes_len(lookup.fee as nat, 32);
    lemma_be_value_of_bytes(lookup.fee as nat, 32);
    lemma_be_value_of_four(data.take(4));
    assert(data.subrange(16, 36) =~= lookup.token0@);
    assert(data.subrange(48, 68) =~= lookup.token1@);
    if lookup.is_v3 {
        assert(data.subrange(68, 100) =~= be_bytes(lookup.fee as nat, 32));
    }
}

/// There is one call for each lookup, in order, and what is said of calls is said of their targets
/// and calldata.
pub proof fn law_one_call_per_lookup(
    lookups: Seq<PoolLookup>,
    calls: Seq<(Address, Vec<u8>)>,
    i: int,
)
    requires
        calls_view(calls) == lookup_calls(lookups),
        0 <= i < lookups.len(),
    ensures
        calls.len() == lookups.len(),
        (calls[i].0@, calls[i].1@) == lookup_call(lookups[i]),
{
    assert(calls_view(calls).len() == calls.len());
    assert(calls_view(calls)[i] == lookup_calls(lookups)[i]);
}

} // verus!
