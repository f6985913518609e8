//! Which round trips are quoted: every one that pays, once, in order, and at the fair price.
use crate::amm::{
    is_fair_output, law_fair_output_is_unique, law_output_below_reserve, law_output_is_greatest,
};
use crate::pools::PoolData;
use crate::quotes::{
    all_quotes, bought, brought_back, buyer_fits, buyer_quotes, can_sell, quotes_fit, quotes_upto,
    token_fits, token_quotes, trades, trip_fits, trip_quote, trip_quotes, trips_fit, Quote,
    TEST_AMOUNTS,
};
use crate::types::Address;
use vstd::prelude::*;

verus! {

/// A round trip: the token, the pool to buy in, the pool to sell in, and the amount, each by its
/// place.
pub struct Trip {
    pub token: int,
    pub buy: int,
    pub sell: int,
    pub amount: int,
}

/// Trips stand in the order of their tokens, then of the pools to buy in, then of the pools to
/// sell in, then of their amounts.
pub open spec fn comes_before(p: Trip, q: Trip) -> bool {
    ||| p.token < q.token
    ||| p.token == q.token && p.buy < q.buy
    ||| p.token == q.token && p.buy == q.buy && p.sell < q.sell
    ||| p.token == q.token && p.buy == q.buy && p.sell == q.sell && p.amount < q.amount
}

/// The amount of ether at a place, in wei: a tenth, a half, one and five.
pub open spec fn tried_amount(place: int) -> int {
    if place == 0 {
        100_000_000_000_000_000
    } else if place == 1 {
        500_000_000_000_000_000
    } else if place == 2 {
        1_000_000_000_000_000_000
    } else {
        5_000_000_000_000_000_000
    }
}

/// One of the pool's tokens is ether and the other is the given one.
pub open spec fn is_market(pool: PoolData, weth: Address, token: Address) -> bool {
    ||| pool.token0 == weth && pool.token1 == token
    ||| pool.token0 == token && pool.token1 == weth
}

/// The trip buys a token of the list, which is not ether, in one pool that trades it, and sells it
/// in another.
pub open spec fn is_trip(
    pools: Seq<PoolData>,
    tokens: Seq<(&'static str, Address)>,
    weth: Address,
    trip: Trip,
) -> bool {
    &&& 0 <= trip.token < tokens.len()
    &&& 0 <= trip.buy < pools.len()
    &&& 0 <= trip.sell < pools.len()
    &&& 0 <= trip.amount < 4
    &&& tokens[trip.token].1 != weth
    &&& is_market(pools[trip.buy], weth, tokens[trip.token].1)
    &&& is_market(pools[trip.sell], weth, tokens[trip.token].1)
    &&& pools[trip.buy].address != pools[trip.sell].address
}

/// A fair amount of the token for ether.
pub open spec fn is_fair_purchase(pool: PoolData, weth: Address, spent: int, gained: int) -> bool {
    if pool.token0 == weth {
        is_fair_output(
            spent,
            pool.reserve0 as int,
            pool.reserve1 as int,
            pool.fee_bps as int,
            gained,
        )
    } else {
        is_fair_output(
            spent,
            pool.reserve1 as int,
            pool.reserve0 as int,
            pool.fee_bps as int,
            gained,
        )
    }
}

/// A fair amount of ether for the token.
pub open spec fn is_fair_sale(pool: PoolData, weth: Address, sold: int, gained: int) -> bool {
    if pool.token0 == weth {
        is_fair_output(
            sold,
            pool.reserve1 as int,
            pool.reserve0 as int,
            pool.fee_bps as int,
            gained,
        )
    } else {
        is_fair_output(
            sold,
            pool.reserve0 as int,
            pool.reserve1 as int,
            pool.fee_bps as int,
            gained,
        )
    }
}

/// The quote is that of a trip which buys `mid` of the token, and sells it: both pools pay a fair
/// amount, and neither pays nothing.
pub open spec fn quotes_trip(
    pools: Seq<PoolData>,
    tokens: Seq<(&'static str, Address)>,
    weth: Address,
    trip: Trip,
    mid: int,
    quote: Quote,
) -> bool {
    &&& is_trip(pools, tokens, weth, trip)
    &&& quote.token_name == tokens[trip.token].0
    &&& quote.buy_pool == pools[trip.buy].address
    &&& quote.sell_pool == pools[trip.sell].address
    &&& quote.amount_in == tried_amount(trip.amount)
    &&& mid > 0
    &&& quote.weth_out > 0
    &&& is_fair_purchase(pools[trip.buy], weth, tried_amount(trip.amount), mid)
    &&& is_fair_sale(pools[trip.sell], weth, mid, quote.weth_out as int)
}

/// The quote is that of the trip.
pub open spec fn is_quote_of(
    pools: Seq<PoolData>,
    tokens: Seq<(&'static str, Address)>,
    weth: Address,
    trip: Trip,
    quote: Quote,
) -> bool {
    exists|mid: int| #[trigger] quotes_trip(pools, tokens, weth, trip, mid, quote)
}

/// The quotes are those of the given trips, which stand in order.
pub open spec fn quotes_trips(
    pools: Seq<PoolData>,
    tokens: Seq<(&'static str, Address)>,
    weth: Address,
    trips: Seq<Trip>,
    quotes: Seq<Quote>,
) -> bool {
    &&& trips.len() == quotes.len()
    &&& forall|k: int|
        0 <= k < trips.len() ==> is_quote_of(
            pools,
            tokens,
            weth,
            #[trigger] trips[k],
            quotes[k],
        )
    &&& forall|k: int, l: int|
        0 <= k < l < trips.len() ==> comes_before(#[trigger] trips[k], #[trigger] trips[l])
}

/// The trip is among the given ones, and the quote is its own.
pub open spec fn has_quote(
    trips: Seq<Trip>,
    quotes: Seq<Quote>,
    trip: Trip,
    quote: Quote,
) -> bool {
    exists|k: int| 0 <= k < trips.len() && #[trigger] trips[k] == trip && quotes[k] == quote
}

/// The quotes are those of the given trips, which are all that pay from `from` on and before
/// `to`.
spec fn covers(
    pools: Seq<PoolData>,
    tokens: Seq<(&'static str, Address)>,
    weth: Address,
    trips: Seq<Trip>,
    quotes: Seq<Quote>,
    from: Trip,
    to: Trip,
) -> bool {
    &&& quotes_trips(pools, tokens, weth, trips, quotes)
    &&& forall|k: int|
        0 <= k < trips.len() ==> !comes_before(#[trigger] trips[k], from) && comes_before(
            trips[k],
            to,
        )
    &&& forall|trip: Trip, quote: Quote|
        !comes_before(trip, from) && comes_before(trip, to) && #[trigger] is_quote_of(
            pools,
            tokens,
            weth,
            trip,
            quote,
        ) ==> has_quote(trips, quotes, trip, quote)
}

proof fn lemma_covers_both(
    pools: Seq<PoolData>,
    tokens: Seq<(&'static str, Address)>,
    weth: Address,
    trips1: Seq<Trip>,
    quotes1: Seq<Quote>,
    trips2: Seq<Trip>,
    quotes2: Seq<Quote>,
    from: Trip,
    between: Trip,
    to: Trip,
)
    requires
        covers(pools, tokens, weth, trips1, quotes1, from, between),
        covers(pools, tokens, weth, trips2, quotes2, between, to),
        !comes_before(between, from),
        !comes_before(to, between),
    ensures
        covers(pools, tokens, weth, trips1 + trips2, quotes1 + quotes2, from, to),
{
    let trips = trips1 + trips2;
    let quotes = quotes1 + quotes2;
    let n = trips1.len();
    assert forall|k: int| 0 <= k < trips.len() implies is_quote_of(
        pools,
        tokens,
        weth,
        #[trigger] trips[k],
        quotes[k],
    ) by {
        if k < n {
            assert(trips[k] == trips1[k] && quotes[k] == quotes1[k]);
        } else {
            assert(trips[k] == trips2[k - n] && quotes[k] == quotes2[k - n]);
        }
    }
    assert forall|k: int| 0 <= k < trips.len() implies !comes_before(#[trigger] trips[k], from)
        && comes_before(trips[k], to) by {
        if k < n {
            assert(trips[k] == trips1[k]);
        } else {
            assert(trips[k] == trips2[k - n]);
        }
    }
    assert forall|k: int, l: int| 0 <= k < l < trips.len() implies comes_before(
        #[trigger] trips[k],
        #[trigger] trips[l],
    ) by {
        if l < n {
            assert(trips[k] == trips1[k] && trips[l] == trips1[l]);
        } else if k < n {
            assert(trips[k] == trips1[k] && trips[l] == trips2[l - n]);
        } else {
            assert(trips[k] == trips2[k - n] && trips[l] == trips2[l - n]);
        }
    }
    assert forall|trip: Trip, quote: Quote|
        !comes_before(trip, from) && comes_before(trip, to) && #[trigger] is_quote_of(
            pools,
            tokens,
            weth,
            trip,
            quote,
        ) implies has_quote(trips, quotes, trip, quote) by {
        if comes_before(trip, between) {
            assert(has_quote(trips1, quotes1, trip, quote));
            let k = choose|k: int|
                0 <= k < trips1.len() && #[trigger] trips1[k] == trip && quotes1[k] == quote;
            assert(trips[k] == trip && quotes[k] == quote);
        } else {
            assert(has_quote(trips2, quotes2, trip, quote));
            let k = choose|k: int|
                0 <= k < trips2.len() && #[trigger] trips2[k] == trip && quotes2[k] == quote;
            assert(trips[n + k] == trip && quotes[n + k] == quote);
        }
    }
}

/// What a pool pays is fair, and nothing else is, wherever it can be computed.
proof fn lemma_fair(pool: PoolData, amount_in: int, zero_for_one: bool, out: int)
    requires
        amount_in >= 0,
        pool.amount_out_fits(amount_in, zero_for_one),
    ensures
        is_fair_output(
            amount_in,
            if zero_for_one {
                pool.reserve0 as int
            } else {
                pool.reserve1 as int
            },
            if zero_for_one {
                pool.reserve1 as int
            } else {
                pool.reserve0 as int
            },
            pool.fee_bps as int,
            out,
        ) <==> out == pool.amount_out(amount_in, zero_for_one),
        0 <= pool.amount_out(amount_in, zero_for_one) <= u128::MAX,
{
    let reserve_in = pool.reserve_in(zero_for_one);
    let reserve_out = pool.reserve_in(!zero_for_one);
    let fee_bps = pool.fee_bps as int;
    if amount_in != 0 && reserve_in != 0 && reserve_out != 0 {
        law_output_is_greatest(amount_in, reserve_in, reserve_out, fee_bps);
        law_output_below_reserve(amount_in, reserve_in, reserve_out, fee_bps);
        if is_fair_output(amount_in, reserve_in, reserve_out, fee_bps, out) {
            law_fair_output_is_unique(amount_in, reserve_in, reserve_out, fee_bps, out);
        }
    }
}

/// A trip that can be computed has one quote if both pools pay, and none otherwise.
proof fn lemma_quote_of_trip(
    pools: Seq<PoolData>,
    tokens: Seq<(&'static str, Address)>,
    weth: Address,
    trip: Trip,
    mid: int,
    quote: Quote,
)
    requires
        is_trip(pools, tokens, weth, trip),
        trip_fits(pools[trip.buy], pools[trip.sell], tried_amount(trip.amount), weth),
    ensures
        quotes_trip(pools, tokens, weth, trip, mid, quote) <==> {
            let buy = pools[trip.buy];
            let sell = pools[trip.sell];
            let amount_in = TEST_AMOUNTS@[trip.amount];
            &&& mid == bought(buy, amount_in as int, weth)
            &&& mid != 0
            &&& brought_back(buy, sell, amount_in as int, weth) != 0
            &&& quote == trip_quote(tokens[trip.token].0, weth, buy, sell, amount_in)
        },
{
    let buy = pools[trip.buy];
    let sell = pools[trip.sell];
    let amount_in = TEST_AMOUNTS@[trip.amount];
    assert(amount_in == tried_amount(trip.amount));
    lemma_fair(buy, amount_in as int, buy.token0 == weth, mid);
    if mid == bought(buy, amount_in as int, weth) && mid != 0 {
        lemma_fair(sell, mid, sell.token0 != weth, quote.weth_out as int);
    }
}

proof fn lemma_covers_amounts(
    pools: Seq<PoolData>,
    tokens: Seq<(&'static str, Address)>,
    weth: Address,
    t: int,
    b: int,
    s: int,
    n: int,
) -> (trips: Seq<Trip>)
    requires
        is_trip(pools, tokens, weth, Trip { token: t, buy: b, sell: s, amount: 0 }),
        trips_fit(pools[b], pools[s], weth),
        0 <= n <= 4,
    ensures
        covers(
            pools,
            tokens,
            weth,
            trips,
            trip_quotes(tokens[t].0, weth, pools[b], pools[s], n),
            Trip { token: t, buy: b, sell: s, amount: 0 },
            Trip { token: t, buy: b, sell: s, amount: n },
        ),
    decreases n,
{
    if n == 0 {
        Seq::empty()
    } else {
        let start = Trip { token: t, buy: b, sell: s, amount: 0 };
        let last = Trip { token: t, buy: b, sell: s, amount: n - 1 };
        let end = Trip { token: t, buy: b, sell: s, amount: n };
        let before = trip_quotes(tokens[t].0, weth, pools[b], pools[s], n - 1);
        let rest = lemma_covers_amounts(pools, tokens, weth, t, b, s, n - 1);
        let amount_in = TEST_AMOUNTS@[n - 1];
        let mid = bought(pools[b], amount_in as int, weth);
        let quote = trip_quote(tokens[t].0, weth, pools[b], pools[s], amount_in);
        assert(trip_fits(pools[b], pools[s], amount_in as int, weth));
        assert(amount_in == tried_amount(n - 1));
        assert forall|m: int, q: Quote|
            #[trigger] quotes_trip(pools, tokens, weth, last, m, q) <==> {
                &&& m == mid
                &&& mid != 0
                &&& brought_back(pools[b], pools[s], amount_in as int, weth) != 0
                &&& q == quote
            } by {
            lemma_quote_of_trip(pools, tokens, weth, last, m, q);
        }
        assert forall|trip: Trip| !comes_before(trip, last) && comes_before(trip, end) implies trip
            == last by {}
        if mid != 0 && brought_back(pools[b], pools[s], amount_in as int, weth) != 0 {
            assert(quotes_trip(pools, tokens, weth, last, mid, quote));
            let own = seq![last];
            let quotes = seq![quote];
            assert(own[0] == last && quotes[0] == quote);
            assert(is_quote_of(pools, tokens, weth, last, quote));
            assert(covers(pools, tokens, weth, own, quotes, last, end));
            lemma_covers_both(
                pools,
                tokens,
                weth,
                rest,
                before,
                own,
                quotes,
                start,
                last,
                end,
            );
            assert(before + quotes =~= before.push(quote));
            rest + own
        } else {
            assert(covers(pools, tokens, weth, Seq::empty(), Seq::empty(), last, end));
            lemma_covers_both(
                pools,
                tokens,
                weth,
                rest,
                before,
                Seq::empty(),
                Seq::empty(),
                start,
                last,
                end,
            );
            assert(before + Seq::<Quote>::empty() =~= before);
            rest + Seq::<Trip>::empty()
        }
    }
}

/// Where no trip is possible, no quotes are all there are.
proof fn lemma_covers_nothing(
    pools: Seq<PoolData>,
    tokens: Seq<(&'static str, Address)>,
    weth: Address,
    from: Trip,
    to: Trip,
)
    requires
        forall|trip: Trip|
            !comes_before(trip, from) && comes_before(trip, to) ==> !#[trigger] is_trip(
                pools,
                tokens,
                weth,
                trip,
            ),
    ensures
        covers(pools, tokens, weth, Seq::empty(), Seq::empty(), from, to),
{
}

/// Where no trip is possible from `to` on and before `further`, what covers the trips before `to`
/// covers those before `further`.
proof fn lemma_covers_further(
    pools: Seq<PoolData>,
    tokens: Seq<(&'static str, Address)>,
    weth: Address,
    trips: Seq<Trip>,
    quotes: Seq<Quote>,
    from: Trip,
    to: Trip,
    further: Trip,
)
    requires
        covers(pools, tokens, weth, trips, quotes, from, to),
        !comes_before(to, from),
        !comes_before(further, to),
        forall|trip: Trip|
            !comes_before(trip, to) && comes_before(trip, further) ==> !#[trigger] is_trip(
                pools,
                tokens,
                weth,
                trip,
            ),
    ensures
        covers(pools, tokens, weth, trips, quotes, from, further),
{
    lemma_covers_nothing(pools, tokens, weth, to, further);
    lemma_covers_both(
        pools,
        tokens,
        weth,
        trips,
        quotes,
        Seq::empty(),
        Seq::empty(),
        from,
        to,
        further,
    );
    assert(trips + Seq::<Trip>::empty() =~= trips);
    assert(quotes + Seq::<Quote>::empty() =~= quotes);
}

proof fn lemma_covers_sales(
    pools: Seq<PoolData>,
    tokens: Seq<(&'static str, Address)>,
    weth: Address,
    t: int,
    b: int,
    n: int,
) -> (trips: Seq<Trip>)
    requires
        0 <= t < tokens.len(),
        0 <= b < pools.len(),
        tokens[t].1 != weth,
        trades(pools[b], weth, tokens[t].1),
        buyer_fits(pools, tokens[t].1, weth, pools[b]),
        0 <= n <= pools.len(),
    ensures
        covers(
            pools,
            tokens,
            weth,
            trips,
            buyer_quotes(pools, tokens[t], weth, pools[b], n),
            Trip { token: t, buy: b, sell: 0, amount: 0 },
            Trip { token: t, buy: b, sell: n, amount: 0 },
        ),
    decreases n,
{
    let start = Trip { token: t, buy: b, sell: 0, amount: 0 };
    if n == 0 {
        lemma_covers_nothing(pools, tokens, weth, start, start);
        Seq::empty()
    } else {
        let last = Trip { token: t, buy: b, sell: n - 1, amount: 0 };
        let full = Trip { token: t, buy: b, sell: n - 1, amount: 4 };
        let end = Trip { token: t, buy: b, sell: n, amount: 0 };
        let before = buyer_quotes(pools, tokens[t], weth, pools[b], n - 1);
        let rest = lemma_covers_sales(pools, tokens, weth, t, b, n - 1);
        if can_sell(pools[b], pools[n - 1], weth, tokens[t].1) {
            let quotes = trip_quotes(tokens[t].0, weth, pools[b], pools[n - 1], 4);
            let own = lemma_covers_amounts(pools, tokens, weth, t, b, n - 1, 4);
            lemma_covers_further(pools, tokens, weth, own, quotes, last, full, end);
            lemma_covers_both(
                pools,
                tokens,
                weth,
                rest,
                before,
                own,
                quotes,
                start,
                last,
                end,
            );
            rest + own
        } else {
            lemma_covers_further(pools, tokens, weth, rest, before, start, last, end);
            rest
        }
    }
}

proof fn lemma_covers_purchases(
    pools: Seq<PoolData>,
    tokens: Seq<(&'static str, Address)>,
    weth: Address,
    t: int,
    n: int,
) -> (trips: Seq<Trip>)
    requires
        0 <= t < tokens.len(),
        tokens[t].1 != weth,
        token_fits(pools, tokens[t].1, weth),
        0 <= n <= pools.len(),
    ensures
        covers(
            pools,
            tokens,
            weth,
            trips,
            token_quotes(pools, tokens[t], weth, n),
            Trip { token: t, buy: 0, sell: 0, amount: 0 },
            Trip { token: t, buy: n, sell: 0, amount: 0 },
        ),
    decreases n,
{
    let start = Trip { token: t, buy: 0, sell: 0, amount: 0 };
    if n == 0 {
        lemma_covers_nothing(pools, tokens, weth, start, start);
        Seq::empty()
    } else {
        let count = pools.len() as int;
        let last = Trip { token: t, buy: n - 1, sell: 0, amount: 0 };
        let full = Trip { token: t, buy: n - 1, sell: count, amount: 0 };
        let end = Trip { token: t, buy: n, sell: 0, amount: 0 };
        let before = token_quotes(pools, tokens[t], weth, n - 1);
        let rest = lemma_covers_purchases(pools, tokens, weth, t, n - 1);
        if trades(pools[n - 1], weth, tokens[t].1) {
            let quotes = buyer_quotes(pools, tokens[t], weth, pools[n - 1], count);
            let own = lemma_covers_sales(pools, tokens, weth, t, n - 1, count);
            lemma_covers_further(pools, tokens, weth, own, quotes, last, full, end);
            lemma_covers_both(
                pools,
                tokens,
                weth,
                rest,
                before,
                own,
                quotes,
                start,
                last,
                end,
            );
            rest + own
        } else {
            lemma_covers_further(pools, tokens, weth, rest, before, start, last, end);
            rest
        }
    }
}

proof fn lemma_covers_tokens(
    pools: Seq<PoolData>,
    tokens: Seq<(&'static str, Address)>,
    weth: Address,
    n: int,
) -> (trips: Seq<Trip>)
    requires
        quotes_fit(pools, tokens, weth),
        0 <= n <= tokens.len(),
    ensures
        covers(
            pools,
            tokens,
            weth,
            trips,
            quotes_upto(pools, tokens, weth, n),
            Trip { token: 0, buy: 0, sell: 0, amount: 0 },
            Trip { token: n, buy: 0, sell: 0, amount: 0 },
        ),
    decreases n,
{
    let start = Trip { token: 0, buy: 0, sell: 0, amount: 0 };
    if n == 0 {
        lemma_covers_nothing(pools, tokens, weth, start, start);
        Seq::empty()
    } else {
        let count = pools.len() as int;
        let last = Trip { token: n - 1, buy: 0, sell: 0, amount: 0 };
        let full = Trip { token: n - 1, buy: count, sell: 0, amount: 0 };
        let end = Trip { token: n, buy: 0, sell: 0, amount: 0 };
        let before = quotes_upto(pools, tokens, weth, n - 1);
        let rest = lemma_covers_tokens(pools, tokens, weth, n - 1);
        if tokens[n - 1].1 != weth {
            let quotes = token_quotes(pools, tokens[n - 1], weth, count);
            let own = lemma_covers_purchases(pools, tokens, weth, n - 1, count);
            lemma_covers_further(pools, tokens, weth, own, quotes, last, full, end);
            lemma_covers_both(
                pools,
                tokens,
                weth,
                rest,
                before,
                own,
                quotes,
                start,
                last,
                end,
            );
            rest + own
        } else {
            lemma_covers_further(pools, tokens, weth, rest, before, start, last, end);
            rest
        }
    }
}

/// The quotes are those of the round trips that pay: each has one quote, at what the two pools
/// fairly pay, and there is no other. They stand in the order of the trips.
pub proof fn law_quotes_are_the_paying_trips(
    pools: Seq<PoolData>,
    tokens: Seq<(&'static str, Address)>,
    weth: Address,
)
    requires
        quotes_fit(pools, tokens, weth),
    ensures
        exists|trips: Seq<Trip>|
            {
                &&& #[trigger] quotes_trips(
                    pools,
                    tokens,
                    weth,
                    trips,
                    all_quotes(pools, tokens, weth),
                )
                &&& forall|trip: Trip, quote: Quote| #[trigger]
                    is_quote_of(pools, tokens, weth, trip, quote) ==> has_quote(
                        trips,
                        all_quotes(pools, tokens, weth),
                        trip,
                        quote,
                    )
            },
{
    let n = tokens.len() as int;
    let start = Trip { token: 0, buy: 0, sell: 0, amount: 0 };
    let end = Trip { token: n, buy: 0, sell: 0, amount: 0 };
    let trips = lemma_covers_tokens(pools, tokens, weth, n);
    assert forall|trip: Trip, quote: Quote| #[trigger]
        is_quote_of(pools, tokens, weth, trip, quote) implies has_quote(
        trips,
        all_quotes(pools, tokens, weth),
        trip,
        quote,
    ) by {
        assert(!comes_before(trip, start) && comes_before(trip, end));
    }
    assert(quotes_trips(pools, tokens, weth, trips, all_quotes(pools, tokens, weth)));
}

/// The trip can be computed: what each pool pays on the way stays within 128 bits. The second pool
/// is asked only where the first pays.
pub open spec fn is_computed(
    pools: Seq<PoolData>,
    weth: Address,
    trip: Trip,
) -> bool {
    let buy = pools[trip.buy];
    let sell = pools[trip.sell];
    &&& buy.amount_out_fits(tried_amount(trip.amount), buy.token0 == weth)
    &&& forall|mid: int|
        mid > 0 && #[trigger] is_fair_purchase(buy, weth, tried_amount(trip.amount), mid)
            ==> sell.amount_out_fits(mid, sell.token0 != weth)
}

/// There are quotes if and only if every round trip can be computed.
pub proof fn law_quotes_fit_if_every_trip_does(
    pools: Seq<PoolData>,
    tokens: Seq<(&'static str, Address)>,
    weth: Address,
)
    ensures
        quotes_fit(pools, tokens, weth) <==> forall|trip: Trip| #[trigger]
            is_trip(pools, tokens, weth, trip) ==> is_computed(pools, weth, trip),
{
    assert forall|trip: Trip| #[trigger] is_trip(pools, tokens, weth, trip) implies (is_computed(
        pools,
        weth,
        trip,
    ) <==> trip_fits(pools[trip.buy], pools[trip.sell], TEST_AMOUNTS@[trip.amount] as int, weth)) by {
        let buy = pools[trip.buy];
        let amount_in = tried_amount(trip.amount);
        assert(TEST_AMOUNTS@[trip.amount] == amount_in);
        if buy.amount_out_fits(amount_in, buy.token0 == weth) {
            let mid = bought(buy, amount_in, weth);
            lemma_fair(buy, amount_in, buy.token0 == weth, mid);
            assert(is_fair_purchase(buy, weth, amount_in, mid));
            assert forall|other: int| #[trigger]
                is_fair_purchase(buy, weth, amount_in, other) implies other == mid by {
                lemma_fair(buy, amount_in, buy.token0 == weth, other);
            }
        }
    }
    if quotes_fit(pools, tokens, weth) {
        assert forall|trip: Trip| #[trigger] is_trip(pools, tokens, weth, trip) implies is_computed(
            pools,
            weth,
            trip,
        ) by {
            let (t, b, s) = (trip.token, trip.buy, trip.sell);
            assert(token_fits(pools, tokens[t].1, weth));
            assert(trades(pools[b], weth, tokens[t].1));
            assert(buyer_fits(pools, tokens[t].1, weth, pools[b]));
            assert(can_sell(pools[b], pools[s], weth, tokens[t].1));
            assert(trips_fit(pools[b], pools[s], weth));
            assert(trip_fits(pools[b], pools[s], TEST_AMOUNTS@[trip.amount] as int, weth));
        }
    } else {
        let t = choose|t: int|
            0 <= t < tokens.len() && (#[trigger] tokens[t]).1 != weth && !token_fits(
                pools,
                tokens[t].1,
                weth,
            );
        let b = choose|b: int|
            0 <= b < pools.len() && trades(#[trigger] pools[b], weth, tokens[t].1) && !buyer_fits(
                pools,
                tokens[t].1,
                weth,
                pools[b],
            );
        let s = choose|s: int|
            0 <= s < pools.len() && can_sell(pools[b], #[trigger] pools[s], weth, tokens[t].1)
                && !trips_fit(pools[b], pools[s], weth);
        let a = choose|a: int|
            0 <= a < TEST_AMOUNTS@.len() && !trip_fits(
                pools[b],
                pools[s],
                #[trigger] TEST_AMOUNTS@[a] as int,
                weth,
            );
        let trip = Trip { token: t, buy: b, sell: s, amount: a };
        assert(is_trip(pools, tokens, weth, trip));
        assert(!is_computed(pools, weth, trip));
    }
}

} // verus!
