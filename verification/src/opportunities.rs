//! Round trips worth taking, by falling profit.
use crate::pools::PoolData;
use crate::quotes::{all_quotes, is_new, lemma_upto_filter, quotes_without, Quote};
use crate::seqs::{lemma_filter_none, lemma_filter_source};
use crate::types::Address;
use vstd::prelude::*;

verus! {

/// The least profit of an opportunity, in basis points.
pub const MIN_PROFIT_BPS: i32 = 10;

/// A round trip worth taking.
#[derive(Clone, Copy, Debug)]
pub struct Opportunity {
    pub token_name: &'static str,
    pub buy_pool: Address,
    pub sell_pool: Address,
    pub amount_in: u128,
    pub profit_bps: i32,
    /// What is left of the ether brought back after the ether spent, in wei.
    pub profit: u128,
}

/// The opportunity in a quote of the given profit: one that brings back more than was spent, by
/// at least the least profit.
pub open spec fn opportunity_in(quote: Quote, profit_bps: i32) -> Option<Opportunity> {
    if quote.weth_out > quote.amount_in && profit_bps >= MIN_PROFIT_BPS {
        Some(
            Opportunity {
                token_name: quote.token_name,
                buy_pool: quote.buy_pool,
                sell_pool: quote.sell_pool,
                amount_in: quote.amount_in,
                profit_bps,
                profit: (quote.weth_out - quote.amount_in) as u128,
            },
        )
    } else {
        None
    }
}

/// The opportunities in the first `n` quotes, each of the given profit.
pub open spec fn opportunities_in(
    quotes: Seq<Quote>,
    profit_bps: Seq<i32>,
    n: int,
) -> Seq<Opportunity>
    decreases n,
{
    if n <= 0 {
        Seq::empty()
    } else {
        let before = opportunities_in(quotes, profit_bps, n - 1);
        match opportunity_in(quotes[n - 1], profit_bps[n - 1]) {
            Some(opportunity) => before.push(opportunity),
            None => before,
        }
    }
}

/// The first place from `k` on where an opportunity has less than the given profit.
pub open spec fn place_from(ranking: Seq<Opportunity>, profit_bps: i32, k: int) -> int
    decreases ranking.len() - k,
{
    if k < 0 || k >= ranking.len() || ranking[k].profit_bps < profit_bps {
        k
    } else {
        place_from(ranking, profit_bps, k + 1)
    }
}

/// Opportunities by falling profit. Those of equal profit stay in order.
pub open spec fn ranked(opportunities: Seq<Opportunity>) -> Seq<Opportunity>
    decreases opportunities.len(),
{
    if opportunities.len() == 0 {
        Seq::empty()
    } else {
        let ranking = ranked(opportunities.drop_last());
        let next = opportunities.last();
        ranking.insert(place_from(ranking, next.profit_bps, 0), next)
    }
}

/// The opportunities in quotes of the given profits, in basis points, by falling profit.
pub fn find_opportunities(quotes: &[Quote], profit_bps: &[i32]) -> (r: Vec<Opportunity>)
    requires
        quotes@.len() == profit_bps@.len(),
    ensures
        r@ == ranked(opportunities_in(quotes@, profit_bps@, quotes@.len() as int)),
        exists|order: Seq<int>|
            #[trigger] shows_paying_quotes(r@, quotes@, profit_bps@, quotes@.len(), order),
{
    let mut out: Vec<Opportunity> = Vec::new();
    let mut i: usize = 0;
    while i < quotes.len()
        invariant
            i <= quotes@.len(),
            quotes@.len() == profit_bps@.len(),
            out@ == ranked(opportunities_in(quotes@, profit_bps@, i as int)),
        decreases quotes@.len() - i,
    {
        let quote: Quote = quotes[i];
        let bps: i32 = profit_bps[i];
        if quote.weth_out > quote.amount_in && bps >= MIN_PROFIT_BPS {
            let opportunity: Opportunity = Opportunity {
                token_name: quote.token_name,
                buy_pool: quote.buy_pool,
                sell_pool: quote.sell_pool,
                amount_in: quote.amount_in,
                profit_bps: bps,
                profit: quote.weth_out - quote.amount_in,
            };
            let mut k: usize = 0;
            while k < out.len() && out[k].profit_bps >= bps
                invariant
                    k <= out@.len(),
                    place_from(out@, bps, 0) == place_from(out@, bps, k as int),
                decreases out@.len() - k,
            {
                k = k + 1;
            }
            proof {
                let before = opportunities_in(quotes@, profit_bps@, i as int);
                assert(before.push(opportunity).drop_last() =~= before);
            }
            out.insert(k, opportunity);
        }
        i = i + 1;
    }
    proof {
        law_every_paying_quote_is_found(quotes@, profit_bps@);
    }
    out
}

/// The place of a profit in a ranking lies behind all that are no smaller, and before all that
/// are smaller.
proof fn lemma_place(ranking: Seq<Opportunity>, profit_bps: i32, k: int)
    requires
        is_ranking(ranking),
        0 <= k <= ranking.len(),
        forall|i: int| 0 <= i < k ==> (#[trigger] ranking[i]).profit_bps >= profit_bps,
    ensures
        k <= place_from(ranking, profit_bps, k) <= ranking.len(),
        forall|i: int|
            0 <= i < place_from(ranking, profit_bps, k) ==> (#[trigger] ranking[i]).profit_bps
                >= profit_bps,
        forall|i: int|
            place_from(ranking, profit_bps, k) <= i < ranking.len() ==> (#[trigger] ranking[i]).profit_bps
                < profit_bps,
    decreases ranking.len() - k,
{
    if k < ranking.len() && ranking[k].profit_bps >= profit_bps {
        lemma_place(ranking, profit_bps, k + 1);
    }
}

/// Profits fall along the list.
pub open spec fn is_ranking(ranking: Seq<Opportunity>) -> bool {
    forall|i: int, j: int|
        0 <= i < j < ranking.len() ==> (#[trigger] ranking[i]).profit_bps >= (
        #[trigger] ranking[j]).profit_bps
}

/// The best opportunity comes first: profits fall along a ranking.
pub proof fn law_ranking_falls(opportunities: Seq<Opportunity>)
    ensures
        is_ranking(ranked(opportunities)),
        ranked(opportunities).len() == opportunities.len(),
    decreases opportunities.len(),
{
    if opportunities.len() > 0 {
        let ranking = ranked(opportunities.drop_last());
        let next = opportunities.last();
        law_ranking_falls(opportunities.drop_last());
        lemma_place(ranking, next.profit_bps, 0);
        ranking.insert_ensures(place_from(ranking, next.profit_bps, 0), next);
    }
}

/// Of each profit a ranking holds the same opportunities in the same order as what was ranked,
/// so nothing is lost, added, or moved among equals.
pub proof fn law_ranking_is_stable(opportunities: Seq<Opportunity>, profit_bps: i32)
    ensures
        ranked(opportunities).filter(|o: Opportunity| o.profit_bps == profit_bps)
            == opportunities.filter(|o: Opportunity| o.profit_bps == profit_bps),
    decreases opportunities.len(),
{
    let same = |o: Opportunity| o.profit_bps == profit_bps;
    reveal(Seq::filter);
    if opportunities.len() > 0 {
        let ranking = ranked(opportunities.drop_last());
        let next = opportunities.last();
        law_ranking_falls(opportunities.drop_last());
        law_ranking_is_stable(opportunities.drop_last(), profit_bps);
        lemma_place(ranking, next.profit_bps, 0);
        let k = place_from(ranking, next.profit_bps, 0);
        let front = ranking.subrange(0, k);
        let back = ranking.subrange(k, ranking.len() as int);
        assert(ranking =~= front + back);
        Seq::filter_distributes_over_add(front, back, same);
        Seq::filter_distributes_over_add(front.push(next), back, same);
        assert(front.push(next).drop_last() =~= front);
        if same(next) {
            assert forall|i: int| 0 <= i < back.len() implies !same(#[trigger] back[i]) by {
                assert(back[i] == ranking[k + i]);
            }
            lemma_filter_none(back, same);
            assert(ranking.filter(same) =~= front.filter(same));
            assert(ranked(opportunities).filter(same) =~= front.filter(same).push(next));
        } else {
            assert(front.push(next).filter(same) == front.filter(same));
        }
    }
}

/// A ranking holds only what was ranked.
proof fn lemma_ranked_contains(opportunities: Seq<Opportunity>, k: int)
    requires
        0 <= k < ranked(opportunities).len(),
    ensures
        opportunities.contains(ranked(opportunities)[k]),
    decreases opportunities.len(),
{
    let rest = opportunities.drop_last();
    let ranking = ranked(rest);
    let next = opportunities.last();
    law_ranking_falls(rest);
    lemma_place(ranking, next.profit_bps, 0);
    let place = place_from(ranking, next.profit_bps, 0);
    ranking.insert_ensures(place, next);
    if k == place {
        assert(opportunities[opportunities.len() - 1] == next);
    } else {
        let at = if k < place {
            k
        } else {
            k - 1
        };
        assert(ranked(opportunities)[k] == ranking[at]);
        lemma_ranked_contains(rest, at);
        let i = choose|i: int| 0 <= i < rest.len() && rest[i] == ranking[at];
        assert(opportunities[i] == ranking[at]);
    }
}

/// Each of the opportunities in quotes is the one in some quote.
proof fn lemma_opportunity_source(
    quotes: Seq<Quote>,
    profit_bps: Seq<i32>,
    n: int,
    k: int,
) -> (i: int)
    requires
        0 <= n <= quotes.len(),
        0 <= k < opportunities_in(quotes, profit_bps, n).len(),
    ensures
        0 <= i < n,
        opportunity_in(quotes[i], profit_bps[i]) == Some(opportunities_in(quotes, profit_bps, n)[k]),
    decreases n,
{
    if k < opportunities_in(quotes, profit_bps, n - 1).len() {
        lemma_opportunity_source(quotes, profit_bps, n - 1, k)
    } else {
        n - 1
    }
}

/// What is found to be an opportunity is the one in some quote: it brings back more than was
/// spent, and its profit is at least the least.
pub proof fn law_opportunities_pay(quotes: Seq<Quote>, profit_bps: Seq<i32>, k: int)
    requires
        quotes.len() == profit_bps.len(),
        0 <= k < ranked(opportunities_in(quotes, profit_bps, quotes.len() as int)).len(),
    ensures
        ({
            let found = ranked(opportunities_in(quotes, profit_bps, quotes.len() as int))[k];
            &&& found.profit_bps >= MIN_PROFIT_BPS
            &&& found.profit > 0
            &&& exists|i: int|
                0 <= i < quotes.len() && opportunity_in(#[trigger] quotes[i], profit_bps[i]) == Some(
                    found,
                )
        }),
{
    let all = opportunities_in(quotes, profit_bps, quotes.len() as int);
    lemma_ranked_contains(all, k);
    let at = choose|i: int| 0 <= i < all.len() && all[i] == ranked(all)[k];
    let i = lemma_opportunity_source(quotes, profit_bps, quotes.len() as int, at);
    assert(opportunity_in(quotes[i], profit_bps[i]) == Some(ranked(all)[k]));
}

/// Opportunities that go through no pool of the given address.
pub open spec fn opportunities_without(address: Address) -> spec_fn(Opportunity) -> bool {
    |found: Opportunity| found.buy_pool != address && found.sell_pool != address
}

/// The opportunities in quotes whose profits a function gives.
pub open spec fn opportunities_by(quotes: Seq<Quote>, profit_bps: spec_fn(Quote) -> i32) -> Seq<
    Opportunity,
> {
    opportunities_in(quotes, quotes.map_values(profit_bps), quotes.len() as int)
}

/// What is found in the first `n` quotes does not depend on a quote behind them.
proof fn lemma_opportunities_prefix(
    quotes: Seq<Quote>,
    next: Quote,
    profit_bps: spec_fn(Quote) -> i32,
    n: int,
)
    requires
        0 <= n <= quotes.len(),
    ensures
        opportunities_in(quotes.push(next), quotes.push(next).map_values(profit_bps), n)
            == opportunities_in(quotes, quotes.map_values(profit_bps), n),
    decreases n,
{
    if n > 0 {
        lemma_opportunities_prefix(quotes, next, profit_bps, n - 1);
    }
}

proof fn lemma_opportunities_filter(
    quotes: Seq<Quote>,
    profit_bps: spec_fn(Quote) -> i32,
    address: Address,
)
    ensures
        opportunities_by(quotes, profit_bps).filter(opportunities_without(address))
            == opportunities_by(quotes.filter(quotes_without(address)), profit_bps),
    decreases quotes.len(),
{
    reveal(Seq::filter);
    if quotes.len() > 0 {
        let rest = quotes.drop_last();
        let last = quotes.last();
        let kept = rest.filter(quotes_without(address));
        lemma_opportunities_filter(rest, profit_bps, address);
        assert(rest.push(last) =~= quotes);
        lemma_opportunities_prefix(rest, last, profit_bps, rest.len() as int);
        lemma_opportunities_prefix(kept, last, profit_bps, kept.len() as int);
        let before = opportunities_by(rest, profit_bps);
        if let Some(found) = opportunity_in(last, profit_bps(last)) {
            assert(before.push(found).drop_last() =~= before);
        }
    } else {
        assert(quotes.filter(quotes_without(address)) =~= quotes);
    }
}

/// Ranking what is left of a list is what is left of its ranking.
proof fn lemma_ranking_filter(list: Seq<Opportunity>, pred: spec_fn(Opportunity) -> bool)
    ensures
        ranked(list).filter(pred) == ranked(list.filter(pred)),
    decreases list.len(),
{
    reveal(Seq::filter);
    if list.len() > 0 {
        let rest = list.drop_last();
        let next = list.last();
        let ranking = ranked(rest);
        let kept = ranking.filter(pred);
        lemma_ranking_filter(rest, pred);
        law_ranking_falls(rest);
        law_ranking_falls(rest.filter(pred));
        lemma_place(ranking, next.profit_bps, 0);
        lemma_place(kept, next.profit_bps, 0);
        let k = place_from(ranking, next.profit_bps, 0);
        let front = ranking.subrange(0, k);
        let back = ranking.subrange(k, ranking.len() as int);
        let f = front.filter(pred);
        let b = back.filter(pred);
        assert(ranking =~= front + back);
        Seq::filter_distributes_over_add(front, back, pred);
        Seq::filter_distributes_over_add(front.push(next), back, pred);
        assert(front.push(next).drop_last() =~= front);
        if pred(next) {
            assert(rest.filter(pred).push(next).drop_last() =~= rest.filter(pred));
            let place = place_from(kept, next.profit_bps, 0);
            if place < f.len() {
                assert(kept[place] == f[place]);
                let i = lemma_filter_source(front, pred, place);
                assert(ranking[i] == f[place]);
            }
            if place > f.len() {
                let first = f.len() as int;
                assert(kept[first] == b[0]);
                let i = lemma_filter_source(back, pred, 0);
                assert(ranking[k + i] == b[0]);
            }
            assert(place == f.len());
            assert(kept.insert(place, next) =~= f.push(next) + b);
        }
    }
}

/// A filter keeps every copy of what it keeps, and none of what it does not.
proof fn lemma_filter_count(
    list: Seq<Opportunity>,
    pred: spec_fn(Opportunity) -> bool,
    item: Opportunity,
)
    ensures
        list.filter(pred).to_multiset().count(item) == if pred(item) {
            list.to_multiset().count(item)
        } else {
            0
        },
    decreases list.len(),
{
    broadcast use vstd::seq_lib::group_to_multiset_ensures;

    reveal(Seq::filter);
    if list.len() > 0 {
        lemma_filter_count(list.drop_last(), pred, item);
        assert(list.drop_last().push(list.last()) =~= list);
    }
}

/// Another pool only adds to what is found. Of the quotes with it, those that do not go through
/// it are the quotes without it, in the same order. The same holds of the opportunities, whatever
/// profit each quote has: every one is still found as often as before, and any further one goes
/// through the new pool.
pub proof fn law_another_pool_only_adds(
    pools: Seq<PoolData>,
    at: int,
    new: PoolData,
    tokens: Seq<(&'static str, Address)>,
    weth: Address,
    profit_bps: spec_fn(Quote) -> i32,
)
    requires
        is_new(pools, new.address),
        0 <= at <= pools.len(),
    ensures
        ({
            let quotes = all_quotes(pools, tokens, weth);
            let more_quotes = all_quotes(pools.insert(at, new), tokens, weth);
            let found = ranked(opportunities_by(quotes, profit_bps));
            let more_found = ranked(opportunities_by(more_quotes, profit_bps));
            &&& more_quotes.filter(quotes_without(new.address)) == quotes
            &&& more_found.filter(opportunities_without(new.address)) == found
            &&& forall|item: Opportunity|
                found.to_multiset().count(item) <= #[trigger] more_found.to_multiset().count(item)
            &&& forall|item: Opportunity|
                #[trigger] more_found.to_multiset().count(item) > found.to_multiset().count(item)
                    ==> item.buy_pool == new.address || item.sell_pool == new.address
        }),
{
    let quotes = all_quotes(pools, tokens, weth);
    let more_quotes = all_quotes(pools.insert(at, new), tokens, weth);
    let found = ranked(opportunities_by(quotes, profit_bps));
    let more_found = ranked(opportunities_by(more_quotes, profit_bps));
    let pred = opportunities_without(new.address);
    lemma_upto_filter(pools, at, new, tokens, weth, tokens.len() as int);
    lemma_opportunities_filter(more_quotes, profit_bps, new.address);
    lemma_ranking_filter(opportunities_by(more_quotes, profit_bps), pred);
    assert forall|item: Opportunity|
        found.to_multiset().count(item) <= #[trigger] more_found.to_multiset().count(item) && (
        more_found.to_multiset().count(item) > found.to_multiset().count(item) ==> !pred(item)) by {
        lemma_filter_count(more_found, pred, item);
    }
}

/// A quote pays where it brings back more than was spent, by at least 10 basis points.
pub open spec fn pays(quote: Quote, profit_bps: i32) -> bool {
    quote.weth_out > quote.amount_in && profit_bps >= 10
}

/// An opportunity shows a quote and its profit.
pub open spec fn shows(found: Opportunity, quote: Quote, profit_bps: i32) -> bool {
    &&& found.token_name == quote.token_name
    &&& found.buy_pool == quote.buy_pool
    &&& found.sell_pool == quote.sell_pool
    &&& found.amount_in == quote.amount_in
    &&& found.profit_bps == profit_bps
    &&& found.profit == quote.weth_out - quote.amount_in
}

/// The places of the paying ones among the first `n` quotes.
pub open spec fn paying_places(quotes: Seq<Quote>, profit_bps: Seq<i32>, n: nat) -> Seq<int> {
    Seq::new(n, |i: int| i).filter(|i: int| pays(quotes[i], profit_bps[i]))
}

/// The list shows the paying ones among the first `n` quotes and nothing else, in the given order
/// of their places: each once, by falling profit, and those of equal profit as they came.
pub open spec fn shows_paying_quotes(
    found: Seq<Opportunity>,
    quotes: Seq<Quote>,
    profit_bps: Seq<i32>,
    n: nat,
    order: Seq<int>,
) -> bool {
    &&& order.len() == found.len()
    &&& forall|k: int|
        0 <= k < order.len() ==> {
            let i = #[trigger] order[k];
            &&& 0 <= i < n
            &&& pays(quotes[i], profit_bps[i])
            &&& shows(found[k], quotes[i], profit_bps[i])
        }
    &&& forall|i: int|
        0 <= i < n && pays(#[trigger] quotes[i], profit_bps[i]) ==> order.contains(i)
    &&& forall|k: int, l: int|
        0 <= k < l < order.len() ==> {
            let (i, j) = (#[trigger] order[k], #[trigger] order[l]);
            profit_bps[i] > profit_bps[j] || (profit_bps[i] == profit_bps[j] && i < j)
        }
}

/// Every quote that pays is found, once, and nothing else is: as many opportunities are found as
/// quotes pay, each shows a quote that pays, and each quote that pays is shown. The best come
/// first, and those of equal profit stay in order.
pub proof fn law_every_paying_quote_is_found(quotes: Seq<Quote>, profit_bps: Seq<i32>)
    requires
        quotes.len() == profit_bps.len(),
    ensures
        exists|order: Seq<int>|
            #[trigger] shows_paying_quotes(
                ranked(opportunities_in(quotes, profit_bps, quotes.len() as int)),
                quotes,
                profit_bps,
                quotes.len(),
                order,
            ),
        ranked(opportunities_in(quotes, profit_bps, quotes.len() as int)).len() == paying_places(
            quotes,
            profit_bps,
            quotes.len(),
        ).len(),
{
    let order = lemma_paying_quotes(quotes, profit_bps, quotes.len());
    assert(shows_paying_quotes(
        ranked(opportunities_in(quotes, profit_bps, quotes.len() as int)),
        quotes,
        profit_bps,
        quotes.len(),
        order,
    ));
}

/// For every quote that pays there is an opportunity with its token, its pools, its amount, its
/// profit in basis points, and what it brings back beyond the amount.
pub proof fn law_paying_quote_is_found(quotes: Seq<Quote>, profit_bps: Seq<i32>, i: int)
    requires
        quotes.len() == profit_bps.len(),
        0 <= i < quotes.len(),
        quotes[i].weth_out > quotes[i].amount_in,
        profit_bps[i] >= 10,
    ensures
        exists|k: int|
            0 <= k < ranked(opportunities_in(quotes, profit_bps, quotes.len() as int)).len()
                && shows(
                #[trigger] ranked(opportunities_in(quotes, profit_bps, quotes.len() as int))[k],
                quotes[i],
                profit_bps[i],
            ),
{
    let found = ranked(opportunities_in(quotes, profit_bps, quotes.len() as int));
    let order = lemma_paying_quotes(quotes, profit_bps, quotes.len());
    assert(pays(quotes[i], profit_bps[i]));
    let k = choose|k: int| 0 <= k < order.len() && order[k] == i;
    assert(shows(found[k], quotes[order[k]], profit_bps[order[k]]));
}

proof fn lemma_paying_quotes(quotes: Seq<Quote>, profit_bps: Seq<i32>, n: nat) -> (order: Seq<int>)
    requires
        quotes.len() == profit_bps.len(),
        n <= quotes.len(),
    ensures
        shows_paying_quotes(
            ranked(opportunities_in(quotes, profit_bps, n as int)),
            quotes,
            profit_bps,
            n,
            order,
        ),
        order.len() == paying_places(quotes, profit_bps, n).len(),
    decreases n,
{
    let all = Seq::new(n, |i: int| i);
    let paying = |i: int| pays(quotes[i], profit_bps[i]);
    reveal(Seq::filter);
    if n == 0 {
        assert(all =~= Seq::empty());
        Seq::empty()
    } else {
        let m = (n - 1) as nat;
        let rest = lemma_paying_quotes(quotes, profit_bps, m);
        let before = opportunities_in(quotes, profit_bps, m as int);
        assert(all.drop_last() =~= Seq::new(m, |i: int| i));
        assert(all.last() == m);
        match opportunity_in(quotes[m as int], profit_bps[m as int]) {
            Some(next) => {
                assert(before.push(next).drop_last() =~= before);
                assert(opportunities_in(quotes, profit_bps, n as int) == before.push(next));
                law_ranking_falls(before);
                lemma_place(ranked(before), next.profit_bps, 0);
                lemma_insert_paying_quote(ranked(before), quotes, profit_bps, m, rest, next)
            },
            None => rest,
        }
    }
}

/// One more paying quote takes its place among those that are shown.
proof fn lemma_insert_paying_quote(
    ranking: Seq<Opportunity>,
    quotes: Seq<Quote>,
    profit_bps: Seq<i32>,
    m: nat,
    rest: Seq<int>,
    next: Opportunity,
) -> (order: Seq<int>)
    requires
        m < quotes.len(),
        shows_paying_quotes(ranking, quotes, profit_bps, m, rest),
        pays(quotes[m as int], profit_bps[m as int]),
        shows(next, quotes[m as int], profit_bps[m as int]),
        ({
            let place = place_from(ranking, next.profit_bps, 0);
            &&& 0 <= place <= ranking.len()
            &&& forall|i: int|
                0 <= i < place ==> (#[trigger] ranking[i]).profit_bps >= next.profit_bps
            &&& forall|i: int|
                place <= i < ranking.len() ==> (#[trigger] ranking[i]).profit_bps < next.profit_bps
        }),
    ensures
        shows_paying_quotes(
            ranking.insert(place_from(ranking, next.profit_bps, 0), next),
            quotes,
            profit_bps,
            (m + 1) as nat,
            order,
        ),
        order.len() == rest.len() + 1,
{
    let place = place_from(ranking, next.profit_bps, 0);
    let order = rest.insert(place, m as int);
    let found = ranking.insert(place, next);
    rest.insert_ensures(place, m as int);
    ranking.insert_ensures(place, next);
    assert forall|k: int| 0 <= k < order.len() && k != place implies {
        let k0 = if k < place {
            k
        } else {
            k - 1
        };
        &&& #[trigger] order[k] == rest[k0]
        &&& found[k] == ranking[k0]
        &&& ranking[k0].profit_bps == profit_bps[rest[k0]]
        &&& rest[k0] < m
    } by {}
    assert forall|i: int|
        0 <= i < m + 1 && pays(#[trigger] quotes[i], profit_bps[i]) implies order.contains(i) by {
        if i == m {
            assert(order[place] == i);
        } else {
            let k = choose|k: int| 0 <= k < rest.len() && rest[k] == i;
            let at = if k < place {
                k
            } else {
                k + 1
            };
            assert(order[at] == i);
        }
    }
    order
}

} // verus!
