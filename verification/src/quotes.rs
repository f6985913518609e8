//! Round trips through two pools, and what each brings back.
use crate::hot_path::address_eq;
use crate::pools::PoolData;
use crate::seqs::{lemma_filter_all, lemma_filter_none};
use crate::types::Address;
use vstd::prelude::*;

verus! {

/// The amounts of ether to try, in wei: a tenth, a half, one and five.
pub const TEST_AMOUNTS: [u128; 4] = [
    100_000_000_000_000_000,
    500_000_000_000_000_000,
    1_000_000_000_000_000_000,
    5_000_000_000_000_000_000,
];

/// What buying a token for ether in one pool and selling it in another brings back.
#[derive(Clone, Copy, Debug)]
pub struct Quote {
    pub token_name: &'static str,
    pub buy_pool: Address,
    pub sell_pool: Address,
    /// Ether spent, in wei.
    pub amount_in: u128,
    /// Ether brought back, in wei.
    pub weth_out: u128,
}

/// The pool trades the token for ether.
pub open spec fn trades(pool: PoolData, weth: Address, token: Address) -> bool {
    (pool.token0 == weth && pool.token1 == token) || (pool.token0 == token && pool.token1 == weth)
}

/// How much of the token a pool pays for ether.
pub open spec fn bought(buy: PoolData, amount_in: int, weth: Address) -> int {
    buy.amount_out(amount_in, buy.token0 == weth)
}

/// How much ether the second pool pays for what the first one paid.
pub open spec fn brought_back(buy: PoolData, sell: PoolData, amount_in: int, weth: Address) -> int {
    sell.amount_out(bought(buy, amount_in, weth), sell.token0 != weth)
}

/// The arithmetic of a round trip stays within 128 bits.
pub open spec fn trip_fits(buy: PoolData, sell: PoolData, amount_in: int, weth: Address) -> bool {
    &&& buy.amount_out_fits(amount_in, buy.token0 == weth)
    &&& bought(buy, amount_in, weth) != 0 ==> sell.amount_out_fits(
        bought(buy, amount_in, weth),
        sell.token0 != weth,
    )
}

/// The quote for an amount through two pools.
pub open spec fn trip_quote(
    name: &'static str,
    weth: Address,
    buy: PoolData,
    sell: PoolData,
    amount_in: u128,
) -> Quote {
    Quote {
        token_name: name,
        buy_pool: buy.address,
        sell_pool: sell.address,
        amount_in,
        weth_out: brought_back(buy, sell, amount_in as int, weth) as u128,
    }
}

/// The quotes for the first `n` amounts through two pools. A round trip that pays nothing on
/// the way or at the end has none.
pub open spec fn trip_quotes(
    name: &'static str,
    weth: Address,
    buy: PoolData,
    sell: PoolData,
    n: int,
) -> Seq<Quote>
    decreases n,
{
    if n <= 0 {
        Seq::empty()
    } else {
        let before = trip_quotes(name, weth, buy, sell, n - 1);
        let amount_in = TEST_AMOUNTS@[n - 1];
        if bought(buy, amount_in as int, weth) != 0 && brought_back(
            buy,
            sell,
            amount_in as int,
            weth,
        ) != 0 {
            before.push(trip_quote(name, weth, buy, sell, amount_in))
        } else {
            before
        }
    }
}

/// A pool other than `buy` that trades the token for ether.
pub open spec fn can_sell(buy: PoolData, sell: PoolData, weth: Address, token: Address) -> bool {
    trades(sell, weth, token) && buy.address != sell.address
}

/// The quotes for buying in one pool and selling in one of the first `n`.
pub open spec fn buyer_quotes(
    pools: Seq<PoolData>,
    token: (&'static str, Address),
    weth: Address,
    buy: PoolData,
    n: int,
) -> Seq<Quote>
    decreases n,
{
    if n <= 0 {
        Seq::empty()
    } else {
        let before = buyer_quotes(pools, token, weth, buy, n - 1);
        if can_sell(buy, pools[n - 1], weth, token.1) {
            before + trip_quotes(token.0, weth, buy, pools[n - 1], TEST_AMOUNTS@.len() as int)
        } else {
            before
        }
    }
}

/// The quotes for a token, buying in one of the first `n` pools.
pub open spec fn token_quotes(
    pools: Seq<PoolData>,
    token: (&'static str, Address),
    weth: Address,
    n: int,
) -> Seq<Quote>
    decreases n,
{
    if n <= 0 {
        Seq::empty()
    } else {
        let before = token_quotes(pools, token, weth, n - 1);
        if trades(pools[n - 1], weth, token.1) {
            before + buyer_quotes(pools, token, weth, pools[n - 1], pools.len() as int)
        } else {
            before
        }
    }
}

/// The quotes for the first `n` tokens. Ether itself is left out.
pub open spec fn quotes_upto(
    pools: Seq<PoolData>,
    tokens: Seq<(&'static str, Address)>,
    weth: Address,
    n: int,
) -> Seq<Quote>
    decreases n,
{
    if n <= 0 {
        Seq::empty()
    } else {
        let before = quotes_upto(pools, tokens, weth, n - 1);
        if tokens[n - 1].1 != weth {
            before + token_quotes(pools, tokens[n - 1], weth, pools.len() as int)
        } else {
            before
        }
    }
}

/// The quotes for every token, every two pools that trade it, and every amount.
pub open spec fn all_quotes(
    pools: Seq<PoolData>,
    tokens: Seq<(&'static str, Address)>,
    weth: Address,
) -> Seq<Quote> {
    quotes_upto(pools, tokens, weth, tokens.len() as int)
}

/// The arithmetic of every amount through two pools stays within 128 bits.
pub open spec fn trips_fit(buy: PoolData, sell: PoolData, weth: Address) -> bool {
    forall|k: int|
        0 <= k < TEST_AMOUNTS@.len() ==> trip_fits(
            buy,
            sell,
            #[trigger] TEST_AMOUNTS@[k] as int,
            weth,
        )
}

/// The arithmetic of every round trip that buys in the given pool stays within 128 bits.
pub open spec fn buyer_fits(
    pools: Seq<PoolData>,
    token: Address,
    weth: Address,
    buy: PoolData,
) -> bool {
    forall|s: int|
        0 <= s < pools.len() && can_sell(buy, #[trigger] pools[s], weth, token) ==> trips_fit(
            buy,
            pools[s],
            weth,
        )
}

/// The arithmetic of every round trip through the token stays within 128 bits.
pub open spec fn token_fits(pools: Seq<PoolData>, token: Address, weth: Address) -> bool {
    forall|b: int|
        0 <= b < pools.len() && trades(#[trigger] pools[b], weth, token) ==> buyer_fits(
            pools,
            token,
            weth,
            pools[b],
        )
}

/// The arithmetic of every quote stays within 128 bits.
pub open spec fn quotes_fit(
    pools: Seq<PoolData>,
    tokens: Seq<(&'static str, Address)>,
    weth: Address,
) -> bool {
    forall|t: int|
        0 <= t < tokens.len() && (#[trigger] tokens[t]).1 != weth ==> token_fits(
            pools,
            tokens[t].1,
            weth,
        )
}

/// Whether the pool trades the token for ether.
fn pool_trades(pool: &PoolData, weth: &Address, token: &Address) -> (r: bool)
    ensures
        r == trades(*pool, *weth, *token),
{
    (address_eq(&pool.token0, weth) && address_eq(&pool.token1, token)) || (address_eq(
        &pool.token0,
        token,
    ) && address_eq(&pool.token1, weth))
}

/// Adds the quotes through two pools, or stops where the arithmetic leaves 128 bits.
fn quote_trips(
    out: &mut Vec<Quote>,
    name: &'static str,
    weth: &Address,
    buy: &PoolData,
    sell: &PoolData,
) -> (r: bool)
    ensures
        r == trips_fit(*buy, *sell, *weth),
        r ==> final(out)@ == old(out)@ + trip_quotes(
            name,
            *weth,
            *buy,
            *sell,
            TEST_AMOUNTS@.len() as int,
        ),
{
    let ghost before = out@;
    let buy_zero_for_one: bool = address_eq(&buy.token0, weth);
    let sell_zero_for_one: bool = !address_eq(&sell.token0, weth);
    let mut k: usize = 0;
    assert(out@ =~= before + trip_quotes(name, *weth, *buy, *sell, 0));
    while k < 4
        invariant
            k <= 4,
            buy_zero_for_one == (buy.token0 == *weth),
            sell_zero_for_one == (sell.token0 != *weth),
            out@ == before + trip_quotes(name, *weth, *buy, *sell, k as int),
            forall|m: int|
                0 <= m < k ==> trip_fits(*buy, *sell, #[trigger] TEST_AMOUNTS@[m] as int, *weth),
        decreases 4 - k,
    {
        let amount_in: u128 = TEST_AMOUNTS[k];
        let ghost so_far = out@;
        match buy.checked_amount_out(amount_in, buy_zero_for_one) {
            Some(tokens_bought) => {
                if tokens_bought != 0 {
                    match sell.checked_amount_out(tokens_bought, sell_zero_for_one) {
                        Some(weth_out) => {
                            if weth_out != 0 {
                                out.push(
                                    Quote {
                                        token_name: name,
                                        buy_pool: buy.address,
                                        sell_pool: sell.address,
                                        amount_in,
                                        weth_out,
                                    },
                                );
                            }
                        },
                        None => {
                            assert(!trip_fits(*buy, *sell, TEST_AMOUNTS@[k as int] as int, *weth));
                            return false;
                        },
                    }
                }
            },
            None => {
                assert(!trip_fits(*buy, *sell, TEST_AMOUNTS@[k as int] as int, *weth));
                return false;
            },
        }
        assert(out@ =~= before + trip_quotes(name, *weth, *buy, *sell, k + 1));
        k = k + 1;
    }
    true
}

/// Adds the quotes that buy in the given pool, or stops where the arithmetic leaves 128 bits.
fn quote_buyer(
    out: &mut Vec<Quote>,
    pools: &[PoolData],
    token: (&'static str, Address),
    weth: &Address,
    buy: &PoolData,
) -> (r: bool)
    ensures
        r == buyer_fits(pools@, token.1, *weth, *buy),
        r ==> final(out)@ == old(out)@ + buyer_quotes(
            pools@,
            token,
            *weth,
            *buy,
            pools@.len() as int,
        ),
{
    let ghost before = out@;
    let mut s: usize = 0;
    assert(out@ =~= before + buyer_quotes(pools@, token, *weth, *buy, 0));
    while s < pools.len()
        invariant
            s <= pools@.len(),
            out@ == before + buyer_quotes(pools@, token, *weth, *buy, s as int),
            forall|m: int|
                0 <= m < s && can_sell(*buy, #[trigger] pools@[m], *weth, token.1) ==> trips_fit(
                    *buy,
                    pools@[m],
                    *weth,
                ),
        decreases pools@.len() - s,
    {
        let sell: &PoolData = &pools[s];
        if pool_trades(sell, weth, &token.1) && !address_eq(&buy.address, &sell.address) {
            assert(can_sell(*buy, pools@[s as int], *weth, token.1));
            if !quote_trips(out, token.0, weth, buy, sell) {
                return false;
            }
        }
        assert(out@ =~= before + buyer_quotes(pools@, token, *weth, *buy, s + 1));
        s = s + 1;
    }
    true
}

/// Adds the quotes for a token, or stops where the arithmetic leaves 128 bits.
fn quote_token(
    out: &mut Vec<Quote>,
    pools: &[PoolData],
    token: (&'static str, Address),
    weth: &Address,
) -> (r: bool)
    ensures
        r == token_fits(pools@, token.1, *weth),
        r ==> final(out)@ == old(out)@ + token_quotes(pools@, token, *weth, pools@.len() as int),
{
    let ghost before = out@;
    let mut b: usize = 0;
    assert(out@ =~= before + token_quotes(pools@, token, *weth, 0));
    while b < pools.len()
        invariant
            b <= pools@.len(),
            out@ == before + token_quotes(pools@, token, *weth, b as int),
            forall|m: int|
                0 <= m < b && trades(#[trigger] pools@[m], *weth, token.1) ==> buyer_fits(
                    pools@,
                    token.1,
                    *weth,
                    pools@[m],
                ),
        decreases pools@.len() - b,
    {
        let buy: &PoolData = &pools[b];
        if pool_trades(buy, weth, &token.1) {
            assert(trades(pools@[b as int], *weth, token.1));
            if !quote_buyer(out, pools, token, weth, buy) {
                return false;
            }
        }
        assert(out@ =~= before + token_quotes(pools@, token, *weth, b + 1));
        b = b + 1;
    }
    true
}

/// The quotes for every token, every two pools that trade it, and every amount: none where the
/// arithmetic leaves 128 bits.
pub fn checked_quotes(
    pools: &[PoolData],
    tokens: &[(&'static str, Address)],
    weth: Address,
) -> (r: Option<Vec<Quote>>)
    ensures
        r is Some <==> quotes_fit(pools@, tokens@, weth),
        r matches Some(quotes) ==> quotes@ == all_quotes(pools@, tokens@, weth),
{
    let mut out: Vec<Quote> = Vec::new();
    let mut t: usize = 0;
    while t < tokens.len()
        invariant
            t <= tokens@.len(),
            out@ == quotes_upto(pools@, tokens@, weth, t as int),
            forall|m: int|
                0 <= m < t && (#[trigger] tokens@[m]).1 != weth ==> token_fits(
                    pools@,
                    tokens@[m].1,
                    weth,
                ),
        decreases tokens@.len() - t,
    {
        let token: (&'static str, Address) = tokens[t];
        if !address_eq(&token.1, &weth) {
            assert(tokens@[t as int].1 != weth);
            if !quote_token(&mut out, pools, token, &weth) {
                return None;
            }
        }
        t = t + 1;
    }
    Some(out)
}

/// The quote is one of a round trip through two of the pools.
pub open spec fn is_round_trip(
    quote: Quote,
    pools: Seq<PoolData>,
    weth: Address,
    token: (&'static str, Address),
    b: int,
    s: int,
) -> bool {
    &&& 0 <= b < pools.len()
    &&& 0 <= s < pools.len()
    &&& trades(pools[b], weth, token.1)
    &&& can_sell(pools[b], pools[s], weth, token.1)
    &&& TEST_AMOUNTS@.contains(quote.amount_in)
    &&& quote.token_name == token.0
    &&& quote.buy_pool == pools[b].address
    &&& quote.sell_pool == pools[s].address
    &&& quote.weth_out == brought_back(pools[b], pools[s], quote.amount_in as int, weth) as u128
    &&& brought_back(pools[b], pools[s], quote.amount_in as int, weth) != 0
}

proof fn lemma_trip_quote(
    pools: Seq<PoolData>,
    token: (&'static str, Address),
    weth: Address,
    b: int,
    s: int,
    n: int,
    k: int,
)
    requires
        0 <= b < pools.len(),
        0 <= s < pools.len(),
        trades(pools[b], weth, token.1),
        can_sell(pools[b], pools[s], weth, token.1),
        0 <= n <= TEST_AMOUNTS@.len(),
        0 <= k < trip_quotes(token.0, weth, pools[b], pools[s], n).len(),
    ensures
        is_round_trip(
            trip_quotes(token.0, weth, pools[b], pools[s], n)[k],
            pools,
            weth,
            token,
            b,
            s,
        ),
    decreases n,
{
    if k < trip_quotes(token.0, weth, pools[b], pools[s], n - 1).len() {
        lemma_trip_quote(pools, token, weth, b, s, n - 1, k);
    } else {
        assert(TEST_AMOUNTS@.contains(TEST_AMOUNTS@[n - 1]));
    }
}

proof fn lemma_buyer_quote(
    pools: Seq<PoolData>,
    token: (&'static str, Address),
    weth: Address,
    b: int,
    n: int,
    k: int,
) -> (s: int)
    requires
        0 <= b < pools.len(),
        trades(pools[b], weth, token.1),
        0 <= n <= pools.len(),
        0 <= k < buyer_quotes(pools, token, weth, pools[b], n).len(),
    ensures
        is_round_trip(
            buyer_quotes(pools, token, weth, pools[b], n)[k],
            pools,
            weth,
            token,
            b,
            s,
        ),
    decreases n,
{
    let before = buyer_quotes(pools, token, weth, pools[b], n - 1);
    if k < before.len() {
        lemma_buyer_quote(pools, token, weth, b, n - 1, k)
    } else {
        lemma_trip_quote(
            pools,
            token,
            weth,
            b,
            n - 1,
            TEST_AMOUNTS@.len() as int,
            k - before.len(),
        );
        n - 1
    }
}

proof fn lemma_token_quote(
    pools: Seq<PoolData>,
    token: (&'static str, Address),
    weth: Address,
    n: int,
    k: int,
) -> (r: (int, int))
    requires
        0 <= n <= pools.len(),
        0 <= k < token_quotes(pools, token, weth, n).len(),
    ensures
        is_round_trip(token_quotes(pools, token, weth, n)[k], pools, weth, token, r.0, r.1),
    decreases n,
{
    let before = token_quotes(pools, token, weth, n - 1);
    if k < before.len() {
        lemma_token_quote(pools, token, weth, n - 1, k)
    } else {
        let s = lemma_buyer_quote(
            pools,
            token,
            weth,
            n - 1,
            pools.len() as int,
            k - before.len(),
        );
        (n - 1, s)
    }
}

proof fn lemma_quote_upto(
    pools: Seq<PoolData>,
    tokens: Seq<(&'static str, Address)>,
    weth: Address,
    n: int,
    k: int,
) -> (r: (int, int, int))
    requires
        0 <= n <= tokens.len(),
        0 <= k < quotes_upto(pools, tokens, weth, n).len(),
    ensures
        0 <= r.0 < tokens.len(),
        tokens[r.0].1 != weth,
        is_round_trip(
            quotes_upto(pools, tokens, weth, n)[k],
            pools,
            weth,
            tokens[r.0],
            r.1,
            r.2,
        ),
    decreases n,
{
    let before = quotes_upto(pools, tokens, weth, n - 1);
    if k < before.len() {
        lemma_quote_upto(pools, tokens, weth, n - 1, k)
    } else {
        let (b, s) = lemma_token_quote(
            pools,
            tokens[n - 1],
            weth,
            pools.len() as int,
            k - before.len(),
        );
        (n - 1, b, s)
    }
}

/// Every quote is one of a round trip: ether into a token of the list in one pool, and back in
/// another.
pub proof fn law_quotes_are_round_trips(
    pools: Seq<PoolData>,
    tokens: Seq<(&'static str, Address)>,
    weth: Address,
    k: int,
)
    requires
        0 <= k < all_quotes(pools, tokens, weth).len(),
    ensures
        exists|t: int, b: int, s: int|
            0 <= t < tokens.len() && tokens[t].1 != weth && #[trigger] is_round_trip(
                all_quotes(pools, tokens, weth)[k],
                pools,
                weth,
                tokens[t],
                b,
                s,
            ),
{
    let (t, b, s) = lemma_quote_upto(pools, tokens, weth, tokens.len() as int, k);
    assert(is_round_trip(all_quotes(pools, tokens, weth)[k], pools, weth, tokens[t], b, s));
}

proof fn lemma_trip_is_quoted(
    name: &'static str,
    weth: Address,
    buy: PoolData,
    sell: PoolData,
    n: int,
    a: int,
)
    requires
        0 <= a < n <= TEST_AMOUNTS@.len(),
        bought(buy, TEST_AMOUNTS@[a] as int, weth) != 0,
        brought_back(buy, sell, TEST_AMOUNTS@[a] as int, weth) != 0,
    ensures
        trip_quotes(name, weth, buy, sell, n).contains(
            trip_quote(name, weth, buy, sell, TEST_AMOUNTS@[a]),
        ),
    decreases n,
{
    let wanted = trip_quote(name, weth, buy, sell, TEST_AMOUNTS@[a]);
    let before = trip_quotes(name, weth, buy, sell, n - 1);
    let now = trip_quotes(name, weth, buy, sell, n);
    if a < n - 1 {
        lemma_trip_is_quoted(name, weth, buy, sell, n - 1, a);
        let k = choose|k: int| 0 <= k < before.len() && before[k] == wanted;
        assert(now[k] == wanted);
    } else {
        assert(now[before.len() as int] == wanted);
    }
}

proof fn lemma_buyer_is_quoted(
    pools: Seq<PoolData>,
    token: (&'static str, Address),
    weth: Address,
    buy: PoolData,
    n: int,
    s: int,
    quote: Quote,
)
    requires
        0 <= s < n <= pools.len(),
        can_sell(buy, pools[s], weth, token.1),
        trip_quotes(token.0, weth, buy, pools[s], TEST_AMOUNTS@.len() as int).contains(quote),
    ensures
        buyer_quotes(pools, token, weth, buy, n).contains(quote),
    decreases n,
{
    let before = buyer_quotes(pools, token, weth, buy, n - 1);
    let now = buyer_quotes(pools, token, weth, buy, n);
    if s < n - 1 {
        lemma_buyer_is_quoted(pools, token, weth, buy, n - 1, s, quote);
        let k = choose|k: int| 0 <= k < before.len() && before[k] == quote;
        assert(now[k] == quote);
    } else {
        let own = trip_quotes(token.0, weth, buy, pools[s], TEST_AMOUNTS@.len() as int);
        let k = choose|k: int| 0 <= k < own.len() && own[k] == quote;
        assert(now[before.len() + k] == quote);
    }
}

proof fn lemma_token_is_quoted(
    pools: Seq<PoolData>,
    token: (&'static str, Address),
    weth: Address,
    n: int,
    b: int,
    quote: Quote,
)
    requires
        0 <= b < n <= pools.len(),
        trades(pools[b], weth, token.1),
        buyer_quotes(pools, token, weth, pools[b], pools.len() as int).contains(quote),
    ensures
        token_quotes(pools, token, weth, n).contains(quote),
    decreases n,
{
    let before = token_quotes(pools, token, weth, n - 1);
    let now = token_quotes(pools, token, weth, n);
    if b < n - 1 {
        lemma_token_is_quoted(pools, token, weth, n - 1, b, quote);
        let k = choose|k: int| 0 <= k < before.len() && before[k] == quote;
        assert(now[k] == quote);
    } else {
        let own = buyer_quotes(pools, token, weth, pools[b], pools.len() as int);
        let k = choose|k: int| 0 <= k < own.len() && own[k] == quote;
        assert(now[before.len() + k] == quote);
    }
}

proof fn lemma_upto_is_quoted(
    pools: Seq<PoolData>,
    tokens: Seq<(&'static str, Address)>,
    weth: Address,
    n: int,
    t: int,
    quote: Quote,
)
    requires
        0 <= t < n <= tokens.len(),
        tokens[t].1 != weth,
        token_quotes(pools, tokens[t], weth, pools.len() as int).contains(quote),
    ensures
        quotes_upto(pools, tokens, weth, n).contains(quote),
    decreases n,
{
    let before = quotes_upto(pools, tokens, weth, n - 1);
    let now = quotes_upto(pools, tokens, weth, n);
    if t < n - 1 {
        lemma_upto_is_quoted(pools, tokens, weth, n - 1, t, quote);
        let k = choose|k: int| 0 <= k < before.len() && before[k] == quote;
        assert(now[k] == quote);
    } else {
        let own = token_quotes(pools, tokens[t], weth, pools.len() as int);
        let k = choose|k: int| 0 <= k < own.len() && own[k] == quote;
        assert(now[before.len() + k] == quote);
    }
}

/// No round trip is missed: for every token but ether, every two pools that trade it and every
/// amount, there is a quote, unless the trip pays nothing.
pub proof fn law_every_round_trip_is_quoted(
    pools: Seq<PoolData>,
    tokens: Seq<(&'static str, Address)>,
    weth: Address,
    t: int,
    b: int,
    s: int,
    a: int,
)
    requires
        0 <= t < tokens.len(),
        0 <= b < pools.len(),
        0 <= s < pools.len(),
        0 <= a < TEST_AMOUNTS@.len(),
        tokens[t].1 != weth,
        trades(pools[b], weth, tokens[t].1),
        can_sell(pools[b], pools[s], weth, tokens[t].1),
        bought(pools[b], TEST_AMOUNTS@[a] as int, weth) != 0,
        brought_back(pools[b], pools[s], TEST_AMOUNTS@[a] as int, weth) != 0,
    ensures
        all_quotes(pools, tokens, weth).contains(
            trip_quote(tokens[t].0, weth, pools[b], pools[s], TEST_AMOUNTS@[a]),
        ),
{
    let quote = trip_quote(tokens[t].0, weth, pools[b], pools[s], TEST_AMOUNTS@[a]);
    lemma_trip_is_quoted(
        tokens[t].0,
        weth,
        pools[b],
        pools[s],
        TEST_AMOUNTS@.len() as int,
        a,
    );
    lemma_buyer_is_quoted(pools, tokens[t], weth, pools[b], pools.len() as int, s, quote);
    lemma_token_is_quoted(pools, tokens[t], weth, pools.len() as int, b, quote);
    lemma_upto_is_quoted(pools, tokens, weth, tokens.len() as int, t, quote);
}

/// Quotes that go through no pool of the given address.
pub open spec fn quotes_without(address: Address) -> spec_fn(Quote) -> bool {
    |quote: Quote| quote.buy_pool != address && quote.sell_pool != address
}

/// No pool of a list has the given address.
pub open spec fn is_new(pools: Seq<PoolData>, address: Address) -> bool {
    forall|i: int| 0 <= i < pools.len() ==> (#[trigger] pools[i]).address != address
}

/// How many of the first `n` pools were there before one was put in at `at`.
spec fn old_count(at: int, n: int) -> int {
    if n <= at {
        n
    } else {
        n - 1
    }
}

proof fn lemma_trip_pools(
    name: &'static str,
    weth: Address,
    buy: PoolData,
    sell: PoolData,
    n: int,
)
    ensures
        forall|k: int|
            0 <= k < trip_quotes(name, weth, buy, sell, n).len() ==> (#[trigger] trip_quotes(
                name,
                weth,
                buy,
                sell,
                n,
            )[k]).buy_pool == buy.address && trip_quotes(name, weth, buy, sell, n)[k].sell_pool
                == sell.address,
    decreases n,
{
    if n > 0 {
        lemma_trip_pools(name, weth, buy, sell, n - 1);
        let before = trip_quotes(name, weth, buy, sell, n - 1);
        let now = trip_quotes(name, weth, buy, sell, n);
        assert forall|k: int| 0 <= k < now.len() implies (#[trigger] now[k]).buy_pool
            == buy.address && now[k].sell_pool == sell.address by {
            if k < before.len() {
                assert(now[k] == before[k]);
            }
        }
    }
}

proof fn lemma_trip_filter(
    name: &'static str,
    weth: Address,
    buy: PoolData,
    sell: PoolData,
    n: int,
    address: Address,
)
    ensures
        trip_quotes(name, weth, buy, sell, n).filter(quotes_without(address)) == if buy.address
            == address || sell.address == address {
            Seq::<Quote>::empty()
        } else {
            trip_quotes(name, weth, buy, sell, n)
        },
{
    lemma_trip_pools(name, weth, buy, sell, n);
    if buy.address == address || sell.address == address {
        lemma_filter_none(trip_quotes(name, weth, buy, sell, n), quotes_without(address));
    } else {
        lemma_filter_all(trip_quotes(name, weth, buy, sell, n), quotes_without(address));
    }
}

proof fn lemma_buyer_filter(
    pools: Seq<PoolData>,
    at: int,
    new: PoolData,
    token: (&'static str, Address),
    weth: Address,
    buy: PoolData,
    n: int,
)
    requires
        is_new(pools, new.address),
        0 <= at <= pools.len(),
        0 <= n <= pools.len() + 1,
    ensures
        buyer_quotes(pools.insert(at, new), token, weth, buy, n).filter(
            quotes_without(new.address),
        ) == if buy.address == new.address {
            Seq::<Quote>::empty()
        } else {
            buyer_quotes(pools, token, weth, buy, old_count(at, n))
        },
    decreases n,
{
    let more = pools.insert(at, new);
    let pred = quotes_without(new.address);
    reveal(Seq::filter);
    if n > 0 {
        pools.insert_ensures(at, new);
        lemma_buyer_filter(pools, at, new, token, weth, buy, n - 1);
        let sell = more[n - 1];
        let own = trip_quotes(token.0, weth, buy, sell, TEST_AMOUNTS@.len() as int);
        let before = buyer_quotes(more, token, weth, buy, n - 1);
        lemma_trip_filter(
            token.0,
            weth,
            buy,
            sell,
            TEST_AMOUNTS@.len() as int,
            new.address,
        );
        Seq::filter_distributes_over_add(before, own, pred);
        if n - 1 == at {
            assert(sell == new);
            assert(before.filter(pred) + Seq::<Quote>::empty() =~= before.filter(pred));
        } else {
            assert(sell == pools[old_count(at, n) - 1]);
            assert(Seq::<Quote>::empty() + Seq::<Quote>::empty() =~= Seq::<Quote>::empty());
        }
    }
}

proof fn lemma_token_filter(
    pools: Seq<PoolData>,
    at: int,
    new: PoolData,
    token: (&'static str, Address),
    weth: Address,
    n: int,
)
    requires
        is_new(pools, new.address),
        0 <= at <= pools.len(),
        0 <= n <= pools.len() + 1,
    ensures
        token_quotes(pools.insert(at, new), token, weth, n).filter(quotes_without(new.address))
            == token_quotes(pools, token, weth, old_count(at, n)),
    decreases n,
{
    let more = pools.insert(at, new);
    let pred = quotes_without(new.address);
    reveal(Seq::filter);
    if n > 0 {
        pools.insert_ensures(at, new);
        lemma_token_filter(pools, at, new, token, weth, n - 1);
        let buy = more[n - 1];
        let own = buyer_quotes(more, token, weth, buy, more.len() as int);
        let before = token_quotes(more, token, weth, n - 1);
        lemma_buyer_filter(pools, at, new, token, weth, buy, more.len() as int);
        Seq::filter_distributes_over_add(before, own, pred);
        if n - 1 == at {
            assert(buy == new);
            assert(before.filter(pred) + Seq::<Quote>::empty() =~= before.filter(pred));
        } else {
            assert(buy == pools[old_count(at, n) - 1]);
        }
    }
}

/// The quotes that do not go through a new pool are the quotes without it.
pub proof fn lemma_upto_filter(
    pools: Seq<PoolData>,
    at: int,
    new: PoolData,
    tokens: Seq<(&'static str, Address)>,
    weth: Address,
    n: int,
)
    requires
        is_new(pools, new.address),
        0 <= at <= pools.len(),
        0 <= n <= tokens.len(),
    ensures
        quotes_upto(pools.insert(at, new), tokens, weth, n).filter(quotes_without(new.address))
            == quotes_upto(pools, tokens, weth, n),
    decreases n,
{
    let more = pools.insert(at, new);
    let pred = quotes_without(new.address);
    reveal(Seq::filter);
    if n > 0 {
        pools.insert_ensures(at, new);
        lemma_upto_filter(pools, at, new, tokens, weth, n - 1);
        lemma_token_filter(pools, at, new, tokens[n - 1], weth, more.len() as int);
        Seq::filter_distributes_over_add(
            quotes_upto(more, tokens, weth, n - 1),
            token_quotes(more, tokens[n - 1], weth, more.len() as int),
            pred,
        );
    }
}

} // verus!
