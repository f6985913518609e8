//! The pools that were found and what each of them holds.
use crate::abi::{calldata, calls_view};
use crate::bytes::{
    array20, be_value, law_leading_zeros_spell_nothing, law_spelling_is_unique,
    lemma_be_value_of_four, zeros,
};
use crate::discovery::PoolLookup;
use crate::hot_path::address_eq;
use crate::multicall::{parse_multicall_response, replies, replies_view, MULTICALL3};
use crate::pool_list::{by_address, insert_pool, is_pool_list};
use crate::pools::PoolData;
use crate::readings::{
    can_read_v2, can_read_v3, known_view, read_v2, read_v3, reply_at, reply_bytes, v2_fits,
    v2_reading, v3_fits, v3_reading, KnownPool, KnownPoolView,
};
use crate::types::Address;
use vstd::prelude::*;

verus! {

/// `getReserves()` of a V2 pool.
pub const GET_RESERVES: [u8; 4] = [0x09, 0x02, 0xf1, 0xac];

/// `slot0()` of a V3 pool.
pub const SLOT0: [u8; 4] = [0x38, 0x50, 0xc7, 0xbd];

/// `liquidity()` of a V3 pool.
pub const LIQUIDITY: [u8; 4] = [0x1a, 0x68, 0x65, 0x02];

/// The pool that a factory's reply names: the address in its first word, unless that is zero.
pub open spec fn named_pool(reply: Option<Seq<u8>>) -> Option<Seq<u8>> {
    match reply {
        Some(data) => if data.len() >= 32 && data.subrange(12, 32) != zeros(20) {
            Some(data.subrange(12, 32))
        } else {
            None
        },
        None => None,
    }
}

/// The fee of a lookup in basis points.
pub open spec fn lookup_fee_bps(lookup: PoolLookup) -> u32 {
    if lookup.is_v3 {
        lookup.fee / 100
    } else {
        lookup.fee
    }
}

/// The V3 pools (`is_v3`) or the V2 pools that the replies to the first `n` lookups name.
pub open spec fn found_pools(
    lookups: Seq<PoolLookup>,
    replies: Seq<Option<Seq<u8>>>,
    is_v3: bool,
    n: int,
) -> Seq<KnownPoolView>
    decreases n,
{
    if n <= 0 {
        Seq::empty()
    } else {
        let before = found_pools(lookups, replies, is_v3, n - 1);
        let lookup = lookups[n - 1];
        match named_pool(reply_at(replies, n - 1)) {
            Some(address) => if lookup.is_v3 == is_v3 {
                before.push(
                    KnownPoolView {
                        address,
                        token0: lookup.token0@,
                        token1: lookup.token1@,
                        fee_bps: lookup_fee_bps(lookup),
                    },
                )
            } else {
                before
            },
            None => before,
        }
    }
}

/// What the V2 pools hold after a refresh, of which the first `n` replies are taken in.
pub open spec fn with_v2(
    pools: Map<Address, PoolData>,
    v2: Seq<KnownPool>,
    replies: Seq<Option<Seq<u8>>>,
    n: int,
) -> Map<Address, PoolData>
    decreases n,
{
    if n <= 0 {
        pools
    } else {
        let before = with_v2(pools, v2, replies, n - 1);
        match v2_reading(v2[n - 1], reply_at(replies, n - 1)) {
            Some(pool) => before.insert(pool.address, pool),
            None => before,
        }
    }
}

/// What the V3 pools hold after a refresh, of which the replies to the first `n` are taken in.
/// A V3 pool has two replies, and the first of all stands at `start`.
pub open spec fn with_v3(
    pools: Map<Address, PoolData>,
    v3: Seq<KnownPool>,
    replies: Seq<Option<Seq<u8>>>,
    start: int,
    n: int,
) -> Map<Address, PoolData>
    decreases n,
{
    if n <= 0 {
        pools
    } else {
        let before = with_v3(pools, v3, replies, start, n - 1);
        let at = start + 2 * (n - 1);
        match v3_reading(v3[n - 1], reply_at(replies, at), reply_at(replies, at + 1)) {
            Some(pool) => before.insert(pool.address, pool),
            None => before,
        }
    }
}

/// What all pools hold after a refresh: the replies are those of the V2 pools, one each, and
/// then those of the V3 pools, two each. A pool without a reply that counts keeps what it held.
pub open spec fn refreshed(
    pools: Map<Address, PoolData>,
    v2: Seq<KnownPool>,
    v3: Seq<KnownPool>,
    replies: Seq<Option<Seq<u8>>>,
) -> Map<Address, PoolData> {
    let start = v2.len() as int;
    with_v3(with_v2(pools, v2, replies, start), v3, replies, start, v3.len() as int)
}

/// The numbers in the replies can all be held.
pub open spec fn refresh_fits(
    v2: Seq<KnownPool>,
    v3: Seq<KnownPool>,
    replies: Seq<Option<Seq<u8>>>,
) -> bool {
    &&& forall|i: int| 0 <= i < v2.len() ==> v2_fits(#[trigger] reply_at(replies, i))
    &&& forall|i: int| 0 <= i < v3.len() ==> #[trigger] v3_reply_fits(v2, replies, i)
}

/// The numbers in the replies to V3 pool `i` can be held.
pub open spec fn v3_reply_fits(
    v2: Seq<KnownPool>,
    replies: Seq<Option<Seq<u8>>>,
    i: int,
) -> bool {
    v3_fits(
        reply_at(replies, v2.len() + 2 * i),
        reply_at(replies, v2.len() + 2 * i + 1),
    )
}

/// The calls that ask the first `n` V3 pools for their price and liquidity.
pub open spec fn v3_calls(v3: Seq<KnownPool>, n: int) -> Seq<(Seq<u8>, Seq<u8>)>
    decreases n,
{
    if n <= 0 {
        Seq::empty()
    } else {
        v3_calls(v3, n - 1).push((v3[n - 1].address@, SLOT0@)).push(
            (v3[n - 1].address@, LIQUIDITY@),
        )
    }
}

/// The calls that ask each pool what it holds: V2 pools for their reserves, then V3 pools for
/// their price and liquidity.
pub open spec fn all_refresh_calls(v2: Seq<KnownPool>, v3: Seq<KnownPool>) -> Seq<
    (Seq<u8>, Seq<u8>),
> {
    v2.map_values(|known: KnownPool| (known.address@, GET_RESERVES@)) + v3_calls(
        v3,
        v3.len() as int,
    )
}

/// The pools that were found, and what each of them held when it last gave a reply that counts.
#[derive(Debug)]
pub struct UltraFastPoolManager {
    multicall_addr: Address,
    v2_pools: Vec<KnownPool>,
    v3_pools: Vec<KnownPool>,
    pools: Vec<PoolData>,
}

impl UltraFastPoolManager {
    /// The V2 pools that were found.
    pub closed spec fn v2(&self) -> Seq<KnownPool> {
        self.v2_pools@
    }

    /// The V3 pools that were found.
    pub closed spec fn v3(&self) -> Seq<KnownPool> {
        self.v3_pools@
    }

    /// The pools whose reserves are known, as a list.
    pub closed spec fn listed(&self) -> Seq<PoolData> {
        self.pools@
    }

    /// The contract that batches calls.
    pub closed spec fn multicall(&self) -> Address {
        self.multicall_addr
    }

    /// No pool is listed twice, and the reserves of each count.
    pub open spec fn wf(&self) -> bool {
        is_pool_list(self.listed())
    }

    /// A manager that knows no pool yet.
    pub fn new() -> (r: Self)
        ensures
            r.wf(),
            r.v2() == Seq::<KnownPool>::empty(),
            r.v3() == Seq::<KnownPool>::empty(),
            r.listed() == Seq::<PoolData>::empty(),
            r.multicall() == MULTICALL3,
    {
        UltraFastPoolManager {
            multicall_addr: MULTICALL3,
            v2_pools: Vec::new(),
            v3_pools: Vec::new(),
            pools: Vec::new(),
        }
    }

    /// The contract that batches calls.
    pub fn multicall_addr(&self) -> (r: Address)
        ensures
            r == self.multicall(),
    {
        self.multicall_addr
    }

    /// The V2 pools that were found.
    pub fn v2_pools(&self) -> (r: &[KnownPool])
        ensures
            r@ == self.v2(),
    {
        self.v2_pools.as_slice()
    }

    /// The V3 pools that were found.
    pub fn v3_pools(&self) -> (r: &[KnownPool])
        ensures
            r@ == self.v3(),
    {
        self.v3_pools.as_slice()
    }

    /// The pools whose reserves are known.
    pub fn pools(&self) -> (r: &[PoolData])
        ensures
            r@ == self.listed(),
    {
        self.pools.as_slice()
    }

    /// Takes in what the factories replied to lookups.
    pub fn record_discovery(&mut self, lookups: &[PoolLookup], parsed: &[Option<Vec<u8>>])
        ensures
            known_view(final(self).v2()) == known_view(old(self).v2()) + found_pools(
                lookups@,
                replies_view(parsed@),
                false,
                lookups@.len() as int,
            ),
            known_view(final(self).v3()) == known_view(old(self).v3()) + found_pools(
                lookups@,
                replies_view(parsed@),
                true,
                lookups@.len() as int,
            ),
            final(self).listed() == old(self).listed(),
            final(self).multicall() == old(self).multicall(),
    {
        let ghost answers = replies_view(parsed@);
        let mut i: usize = 0;
        assert(known_view(self.v2()) =~= known_view(old(self).v2()) + found_pools(
            lookups@,
            answers,
            false,
            0,
        ));
        assert(known_view(self.v3()) =~= known_view(old(self).v3()) + found_pools(
            lookups@,
            answers,
            true,
            0,
        ));
        while i < lookups.len()
            invariant
                i <= lookups@.len(),
                answers == replies_view(parsed@),
                known_view(self.v2()) == known_view(old(self).v2()) + found_pools(
                    lookups@,
                    answers,
                    false,
                    i as int,
                ),
                known_view(self.v3()) == known_view(old(self).v3()) + found_pools(
                    lookups@,
                    answers,
                    true,
                    i as int,
                ),
                self.listed() == old(self).listed(),
                self.multicall() == old(self).multicall(),
            decreases lookups@.len() - i,
        {
            let ghost v2_before = self.v2();
            let ghost v3_before = self.v3();
            let lookup: PoolLookup = lookups[i];
            if let Some(data) = reply_bytes(parsed, i) {
                if data.len() >= 32 {
                    let address: Address = array20(vstd::slice::slice_subrange(data, 12, 32));
                    let nowhere: Address = [0u8;20];
                    assert(nowhere@ =~= zeros(20));
                    if !address_eq(&address, &nowhere) {
                        let known: KnownPool = KnownPool {
                            address,
                            token0: lookup.token0,
                            token1: lookup.token1,
                            fee_bps: if lookup.is_v3 {
                                lookup.fee / 100
                            } else {
                                lookup.fee
                            },
                        };
                        if lookup.is_v3 {
                            self.v3_pools.push(known);
                            assert(known_view(self.v3()) =~= known_view(v3_before).push(known@));
                        } else {
                            self.v2_pools.push(known);
                            assert(known_view(self.v2()) =~= known_view(v2_before).push(known@));
                        }
                    }
                }
            }
            assert(known_view(self.v2()) =~= known_view(old(self).v2()) + found_pools(
                lookups@,
                answers,
                false,
                i + 1,
            ));
            assert(known_view(self.v3()) =~= known_view(old(self).v3()) + found_pools(
                lookups@,
                answers,
                true,
                i + 1,
            ));
            i = i + 1;
        }
    }

    /// Takes in the bytes that the batch of lookups returned.
    pub fn record_discovery_response(&mut self, lookups: &[PoolLookup], response: &[u8])
        requires
            usize::MAX > 0x1_0000_0020,
        ensures
            known_view(final(self).v2()) == known_view(old(self).v2()) + found_pools(
                lookups@,
                replies(response@),
                false,
                lookups@.len() as int,
            ),
            known_view(final(self).v3()) == known_view(old(self).v3()) + found_pools(
                lookups@,
                replies(response@),
                true,
                lookups@.len() as int,
            ),
            final(self).listed() == old(self).listed(),
            final(self).multicall() == old(self).multicall(),
    {
        let parsed: Vec<Option<Vec<u8>>> = parse_multicall_response(response);
        self.record_discovery(lookups, parsed.as_slice());
    }

    /// The calls that ask each pool what it holds.
    pub fn refresh_calls(&self) -> (r: Vec<(Address, Vec<u8>)>)
        ensures
            calls_view(r@) == all_refresh_calls(self.v2(), self.v3()),
    {
        let mut calls: Vec<(Address, Vec<u8>)> = Vec::new();
        let mut i: usize = 0;
        while i < self.v2_pools.len()
            invariant
                i <= self.v2_pools@.len(),
                calls@.len() == i,
                forall|k: int|
                    0 <= k < i ==> ((#[trigger] calls@[k]).0@, calls@[k].1@) == (
                        self.v2_pools@[k].address@,
                        GET_RESERVES@,
                    ),
            decreases self.v2_pools@.len() - i,
        {
            calls.push((self.v2_pools[i].address, calldata(GET_RESERVES, &[])));
            i = i + 1;
        }
        let ghost v2_calls = self.v2().map_values(
            |known: KnownPool| (known.address@, GET_RESERVES@),
        );
        assert(calls_view(calls@) =~= v2_calls);
        let mut j: usize = 0;
        assert(calls_view(calls@) =~= v2_calls + v3_calls(self.v3(), 0));
        while j < self.v3_pools.len()
            invariant
                j <= self.v3_pools@.len(),
                calls_view(calls@) == v2_calls + v3_calls(self.v3(), j as int),
            decreases self.v3_pools@.len() - j,
        {
            let ghost before = calls@;
            let address: Address = self.v3_pools[j].address;
            calls.push((address, calldata(SLOT0, &[])));
            calls.push((address, calldata(LIQUIDITY, &[])));
            assert(calls_view(calls@) =~= calls_view(before).push((address@, SLOT0@)).push(
                (address@, LIQUIDITY@),
            ));
            assert(calls_view(calls@) =~= v2_calls + v3_calls(self.v3(), j + 1));
            j = j + 1;
        }
        calls
    }

    /// Whether the numbers in the replies can all be held.
    pub fn can_apply_refresh(&self, parsed: &[Option<Vec<u8>>]) -> (r: bool)
        ensures
            r == refresh_fits(self.v2(), self.v3(), replies_view(parsed@)),
    {
        let ghost answers = replies_view(parsed@);
        let mut i: usize = 0;
        while i < self.v2_pools.len()
            invariant
                i <= self.v2_pools@.len(),
                answers == replies_view(parsed@),
                forall|k: int| 0 <= k < i ==> v2_fits(#[trigger] reply_at(answers, k)),
            decreases self.v2_pools@.len() - i,
        {
            if !can_read_v2(reply_bytes(parsed, i)) {
                assert(!v2_fits(reply_at(answers, i as int)));
                return false;
            }
            i = i + 1;
        }
        let mut j: usize = 0;
        let mut at: usize = self.v2_pools.len();
        assert(answers.len() == parsed.len());
        while j < self.v3_pools.len()
            invariant
                j <= self.v3_pools@.len(),
                answers == replies_view(parsed@),
                answers.len() <= usize::MAX,
                is_position(at, self.v2_pools@.len() + 2 * j),
                forall|k: int| 0 <= k < j ==> #[trigger] v3_reply_fits(self.v2(), answers, k),
            decreases self.v3_pools@.len() - j,
        {
            if !can_read_v3(
                reply_bytes(parsed, at),
                reply_bytes(parsed, at.saturating_add(1)),
            ) {
                assert(!v3_reply_fits(self.v2(), answers, j as int));
                return false;
            }
            at = at.saturating_add(2);
            j = j + 1;
        }
        true
    }

    /// Takes in what the pools replied about what they hold.
    pub fn apply_refresh(&mut self, parsed: &[Option<Vec<u8>>])
        requires
            old(self).wf(),
            refresh_fits(old(self).v2(), old(self).v3(), replies_view(parsed@)),
        ensures
            final(self).wf(),
            by_address(final(self).listed()) == refreshed(
                by_address(old(self).listed()),
                old(self).v2(),
                old(self).v3(),
                replies_view(parsed@),
            ),
            final(self).v2() == old(self).v2(),
            final(self).v3() == old(self).v3(),
            final(self).multicall() == old(self).multicall(),
    {
        let ghost answers = replies_view(parsed@);
        let ghost pools = by_address(self.listed());
        let ghost v2 = self.v2();
        let ghost v3 = self.v3();
        let mut i: usize = 0;
        while i < self.v2_pools.len()
            invariant
                i <= v2.len(),
                v2 == self.v2(),
                v3 == self.v3(),
                self.multicall() == old(self).multicall(),
                answers == replies_view(parsed@),
                refresh_fits(v2, v3, answers),
                self.wf(),
                by_address(self.listed()) == with_v2(pools, v2, answers, i as int),
            decreases v2.len() - i,
        {
            let known: KnownPool = self.v2_pools[i];
            assert(v2_fits(reply_at(answers, i as int)));
            if let Some(pool) = read_v2(&known, reply_bytes(parsed, i)) {
                insert_pool(&mut self.pools, pool);
            }
            i = i + 1;
        }
        let ghost after_v2 = by_address(self.listed());
        let mut j: usize = 0;
        let mut at: usize = self.v2_pools.len();
        assert(answers.len() == parsed.len());
        while j < self.v3_pools.len()
            invariant
                j <= v3.len(),
                v2 == self.v2(),
                v3 == self.v3(),
                self.multicall() == old(self).multicall(),
                answers == replies_view(parsed@),
                refresh_fits(v2, v3, answers),
                answers.len() <= usize::MAX,
                is_position(at, v2.len() + 2 * j),
                self.wf(),
                by_address(self.listed()) == with_v3(
                    after_v2,
                    v3,
                    answers,
                    v2.len() as int,
                    j as int,
                ),
            decreases v3.len() - j,
        {
            let known: KnownPool = self.v3_pools[j];
            assert(v3_reply_fits(v2, answers, j as int));
            if let Some(pool) = read_v3(
                &known,
                reply_bytes(parsed, at),
                reply_bytes(parsed, at.saturating_add(1)),
            ) {
                insert_pool(&mut self.pools, pool);
            }
            at = at.saturating_add(2);
            j = j + 1;
        }
    }

    /// Takes in the bytes that the batch of pool calls returned, where the numbers in them can
    /// be held. Otherwise says so and changes nothing.
    pub fn apply_refresh_response(&mut self, response: &[u8]) -> (r: bool)
        requires
            usize::MAX > 0x1_0000_0020,
            old(self).wf(),
        ensures
            r == refresh_fits(old(self).v2(), old(self).v3(), replies(response@)),
            final(self).wf(),
            r ==> by_address(final(self).listed()) == refreshed(
                by_address(old(self).listed()),
                old(self).v2(),
                old(self).v3(),
                replies(response@),
            ),
            !r ==> final(self).listed() == old(self).listed(),
            final(self).v2() == old(self).v2(),
            final(self).v3() == old(self).v3(),
            final(self).multicall() == old(self).multicall(),
    {
        let parsed: Vec<Option<Vec<u8>>> = parse_multicall_response(response);
        if self.can_apply_refresh(parsed.as_slice()) {
            self.apply_refresh(parsed.as_slice());
            true
        } else {
            false
        }
    }
}

/// `at` is the position `n`, or the last one where `n` is beyond it. No list reaches that far,
/// so both find the same in any list.
spec fn is_position(at: usize, n: int) -> bool {
    at == if n <= usize::MAX {
        n
    } else {
        usize::MAX as int
    }
}

/// No known pool has the given address.
pub open spec fn none_has(known: Seq<KnownPool>, address: Address) -> bool {
    forall|i: int| 0 <= i < known.len() ==> (#[trigger] known[i]).address != address
}

proof fn lemma_with_v2_touches(
    pools: Map<Address, PoolData>,
    v2: Seq<KnownPool>,
    replies: Seq<Option<Seq<u8>>>,
    from: int,
    n: int,
    address: Address,
)
    requires
        0 <= from <= n <= v2.len(),
        none_has(v2.subrange(from, n), address),
    ensures
        with_v2(pools, v2, replies, n).dom().contains(address) == with_v2(
            pools,
            v2,
            replies,
            from,
        ).dom().contains(address),
        with_v2(pools, v2, replies, n)[address] == with_v2(pools, v2, replies, from)[address],
    decreases n - from,
{
    if from < n {
        let all = v2.subrange(from, n);
        let fewer = v2.subrange(from, n - 1);
        assert forall|i: int| 0 <= i < fewer.len() implies (#[trigger] fewer[i]).address
            != address by {
            assert(fewer[i] == all[i]);
        }
        lemma_with_v2_touches(pools, v2, replies, from, n - 1, address);
        assert(all[n - 1 - from] == v2[n - 1]);
    }
}

proof fn lemma_with_v3_touches(
    pools: Map<Address, PoolData>,
    v3: Seq<KnownPool>,
    replies: Seq<Option<Seq<u8>>>,
    start: int,
    from: int,
    n: int,
    address: Address,
)
    requires
        0 <= from <= n <= v3.len(),
        none_has(v3.subrange(from, n), address),
    ensures
        with_v3(pools, v3, replies, start, n).dom().contains(address) == with_v3(
            pools,
            v3,
            replies,
            start,
            from,
        ).dom().contains(address),
        with_v3(pools, v3, replies, start, n)[address] == with_v3(pools, v3, replies, start, from)[address],
    decreases n - from,
{
    if from < n {
        let all = v3.subrange(from, n);
        let fewer = v3.subrange(from, n - 1);
        assert forall|i: int| 0 <= i < fewer.len() implies (#[trigger] fewer[i]).address
            != address by {
            assert(fewer[i] == all[i]);
        }
        lemma_with_v3_touches(pools, v3, replies, start, from, n - 1, address);
        assert(all[n - 1 - from] == v3[n - 1]);
    }
}

/// A refresh leaves what is known of every pool alone that it did not ask.
pub proof fn law_refresh_touches_known_pools_only(
    pools: Map<Address, PoolData>,
    v2: Seq<KnownPool>,
    v3: Seq<KnownPool>,
    replies: Seq<Option<Seq<u8>>>,
    address: Address,
)
    requires
        none_has(v2, address),
        none_has(v3, address),
    ensures
        refreshed(pools, v2, v3, replies).dom().contains(address) == pools.dom().contains(address),
        refreshed(pools, v2, v3, replies)[address] == pools[address],
{
    let start = v2.len() as int;
    assert(v2.subrange(0, start) =~= v2);
    assert(v3.subrange(0, v3.len() as int) =~= v3);
    lemma_with_v2_touches(pools, v2, replies, 0, start, address);
    lemma_with_v3_touches(
        with_v2(pools, v2, replies, start),
        v3,
        replies,
        start,
        0,
        v3.len() as int,
        address,
    );
}

/// After a refresh a V2 pool holds what its reply says, where the reply counts and no other
/// pool goes by the same address.
pub proof fn law_refresh_takes_in_v2_replies(
    pools: Map<Address, PoolData>,
    v2: Seq<KnownPool>,
    v3: Seq<KnownPool>,
    replies: Seq<Option<Seq<u8>>>,
    i: int,
)
    requires
        0 <= i < v2.len(),
        v2_reading(v2[i], reply_at(replies, i)) is Some,
        none_has(v2.skip(i + 1), v2[i].address),
        none_has(v3, v2[i].address),
    ensures
        refreshed(pools, v2, v3, replies).contains_pair(
            v2[i].address,
            v2_reading(v2[i], reply_at(replies, i))->0,
        ),
{
    let start = v2.len() as int;
    assert(v2.subrange(i + 1, start) =~= v2.skip(i + 1));
    assert(v3.subrange(0, v3.len() as int) =~= v3);
    lemma_with_v2_touches(pools, v2, replies, i + 1, start, v2[i].address);
    lemma_with_v3_touches(
        with_v2(pools, v2, replies, start),
        v3,
        replies,
        start,
        0,
        v3.len() as int,
        v2[i].address,
    );
}

/// After a refresh a V3 pool holds what its replies say, where they count and no later V3 pool
/// goes by the same address.
pub proof fn law_refresh_takes_in_v3_replies(
    pools: Map<Address, PoolData>,
    v2: Seq<KnownPool>,
    v3: Seq<KnownPool>,
    replies: Seq<Option<Seq<u8>>>,
    i: int,
)
    requires
        0 <= i < v3.len(),
        v3_reading(
            v3[i],
            reply_at(replies, v2.len() + 2 * i),
            reply_at(replies, v2.len() + 2 * i + 1),
        ) is Some,
        none_has(v3.skip(i + 1), v3[i].address),
    ensures
        refreshed(pools, v2, v3, replies).contains_pair(
            v3[i].address,
            v3_reading(
                v3[i],
                reply_at(replies, v2.len() + 2 * i),
                reply_at(replies, v2.len() + 2 * i + 1),
            )->0,
        ),
{
    let start = v2.len() as int;
    assert(v3.subrange(i + 1, v3.len() as int) =~= v3.skip(i + 1));
    lemma_with_v3_touches(
        with_v2(pools, v2, replies, start),
        v3,
        replies,
        start,
        i + 1,
        v3.len() as int,
        v3[i].address,
    );
}

proof fn lemma_without_replies(
    pools: Map<Address, PoolData>,
    known: Seq<KnownPool>,
    start: int,
    n: int,
)
    requires
        0 <= start,
        0 <= n <= known.len(),
    ensures
        with_v2(pools, known, Seq::empty(), n) == pools,
        with_v3(pools, known, Seq::empty(), start, n) == pools,
    decreases n,
{
    if n > 0 {
        lemma_without_replies(pools, known, start, n - 1);
    }
}

/// A refresh without replies changes nothing.
pub proof fn law_no_replies_no_change(
    pools: Map<Address, PoolData>,
    v2: Seq<KnownPool>,
    v3: Seq<KnownPool>,
)
    ensures
        refreshed(pools, v2, v3, Seq::empty()) == pools,
{
    lemma_without_replies(pools, v2, 0, v2.len() as int);
    lemma_without_replies(pools, v3, v2.len() as int, v3.len() as int);
}

proof fn lemma_with_v2_keeps(
    pools: Map<Address, PoolData>,
    v2: Seq<KnownPool>,
    replies: Seq<Option<Seq<u8>>>,
    n: int,
)
    ensures
        pools.dom().subset_of(with_v2(pools, v2, replies, n).dom()),
    decreases n,
{
    if n > 0 {
        lemma_with_v2_keeps(pools, v2, replies, n - 1);
    }
}

proof fn lemma_with_v3_keeps(
    pools: Map<Address, PoolData>,
    v3: Seq<KnownPool>,
    replies: Seq<Option<Seq<u8>>>,
    start: int,
    n: int,
)
    ensures
        pools.dom().subset_of(with_v3(pools, v3, replies, start, n).dom()),
    decreases n,
{
    if n > 0 {
        lemma_with_v3_keeps(pools, v3, replies, start, n - 1);
    }
}

/// A refresh forgets no pool.
pub proof fn law_refresh_forgets_nothing(
    pools: Map<Address, PoolData>,
    v2: Seq<KnownPool>,
    v3: Seq<KnownPool>,
    replies: Seq<Option<Seq<u8>>>,
)
    ensures
        pools.dom().subset_of(refreshed(pools, v2, v3, replies).dom()),
{
    let start = v2.len() as int;
    lemma_with_v2_keeps(pools, v2, replies, start);
    lemma_with_v3_keeps(
        with_v2(pools, v2, replies, start),
        v3,
        replies,
        start,
        v3.len() as int,
    );
}

/// Every pool that a discovery finds has an address, and trades the tokens of a lookup of its
/// kind.
pub proof fn law_found_pools_were_asked_for(
    lookups: Seq<PoolLookup>,
    replies: Seq<Option<Seq<u8>>>,
    is_v3: bool,
    n: int,
    k: int,
)
    requires
        0 <= n <= lookups.len(),
        0 <= k < found_pools(lookups, replies, is_v3, n).len(),
    ensures
        ({
            let found = found_pools(lookups, replies, is_v3, n)[k];
            &&& found.address.len() == 20
            &&& found.address != zeros(20)
            &&& exists|i: int|
                0 <= i < n && (#[trigger] lookups[i]).is_v3 == is_v3 && found.token0
                    == lookups[i].token0@ && found.token1 == lookups[i].token1@ && found.fee_bps
                    == lookup_fee_bps(lookups[i]) && named_pool(reply_at(replies, i)) == Some(
                    found.address,
                )
        }),
    decreases n,
{
    let before = found_pools(lookups, replies, is_v3, n - 1);
    if k < before.len() {
        law_found_pools_were_asked_for(lookups, replies, is_v3, n - 1, k);
    } else {
        let lookup = lookups[n - 1];
        assert(lookup.is_v3 == is_v3);
    }
}

/// The reply names a pool: the last 20 bytes of its first word are not zero.
pub open spec fn names_a_pool(reply: Option<Seq<u8>>) -> bool {
    reply matches Some(data) && data.len() >= 32 && be_value(data.subrange(12, 32)) != 0
}

/// The pool that a reply names trades the tokens of the lookup. Its fee is that of the lookup, in
/// basis points: a V3 lookup gives it in hundredths of them.
pub open spec fn is_named_by(found: KnownPoolView, lookup: PoolLookup, reply: Option<Seq<u8>>) -> bool {
    &&& names_a_pool(reply)
    &&& found.address == reply->0.subrange(12, 32)
    &&& found.token0 == lookup.token0@
    &&& found.token1 == lookup.token1@
    &&& !lookup.is_v3 ==> found.fee_bps == lookup.fee
    &&& lookup.is_v3 ==> found.fee_bps * 100 <= lookup.fee < found.fee_bps * 100 + 100
}

/// The list shows the pools of a kind that the replies to the first `n` lookups name, and nothing
/// else, in the order of the lookups.
pub open spec fn shows_named_pools(
    found: Seq<KnownPoolView>,
    lookups: Seq<PoolLookup>,
    replies: Seq<Option<Seq<u8>>>,
    is_v3: bool,
    n: int,
    places: Seq<int>,
) -> bool {
    &&& places.len() == found.len()
    &&& forall|k: int|
        0 <= k < places.len() ==> {
            let i = #[trigger] places[k];
            &&& 0 <= i < n
            &&& i < replies.len()
            &&& lookups[i].is_v3 == is_v3
            &&& is_named_by(found[k], lookups[i], replies[i])
        }
    &&& forall|i: int|
        0 <= i < n && i < replies.len() && lookups[i].is_v3 == is_v3 && names_a_pool(
            #[trigger] replies[i],
        ) ==> places.contains(i)
    &&& forall|k: int, l: int|
        0 <= k < l < places.len() ==> #[trigger] places[k] < #[trigger] places[l]
}

/// Every reply that names a pool adds that pool to those of its kind, and no other reply adds
/// anything.
pub proof fn law_every_named_pool_is_found(
    lookups: Seq<PoolLookup>,
    replies: Seq<Option<Seq<u8>>>,
    is_v3: bool,
    n: int,
)
    requires
        0 <= n <= lookups.len(),
    ensures
        exists|places: Seq<int>|
            #[trigger] shows_named_pools(
                found_pools(lookups, replies, is_v3, n),
                lookups,
                replies,
                is_v3,
                n,
                places,
            ),
{
    let places = lemma_named_pools(lookups, replies, is_v3, n);
    assert(shows_named_pools(
        found_pools(lookups, replies, is_v3, n),
        lookups,
        replies,
        is_v3,
        n,
        places,
    ));
}

proof fn lemma_named_pools(
    lookups: Seq<PoolLookup>,
    replies: Seq<Option<Seq<u8>>>,
    is_v3: bool,
    n: int,
) -> (places: Seq<int>)
    requires
        0 <= n <= lookups.len(),
    ensures
        shows_named_pools(
            found_pools(lookups, replies, is_v3, n),
            lookups,
            replies,
            is_v3,
            n,
            places,
        ),
    decreases n,
{
    if n == 0 {
        Seq::empty()
    } else {
        let rest = lemma_named_pools(lookups, replies, is_v3, n - 1);
        let before = found_pools(lookups, replies, is_v3, n - 1);
        let found = found_pools(lookups, replies, is_v3, n);
        let reply = reply_at(replies, n - 1);
        lemma_named_pool(reply);
        if names_a_pool(reply) && lookups[n - 1].is_v3 == is_v3 {
            let places = rest.push(n - 1);
            assert(is_named_by(found.last(), lookups[n - 1], reply));
            assert forall|k: int| 0 <= k < places.len() implies {
                let i = #[trigger] places[k];
                &&& 0 <= i < n
                &&& i < replies.len()
                &&& lookups[i].is_v3 == is_v3
                &&& is_named_by(found[k], lookups[i], replies[i])
            } by {
                if k < rest.len() {
                    assert(places[k] == rest[k]);
                    assert(found[k] == before[k]);
                }
            }
            assert forall|i: int|
                0 <= i < n && i < replies.len() && lookups[i].is_v3 == is_v3 && names_a_pool(
                    #[trigger] replies[i],
                ) implies places.contains(i) by {
                if i < n - 1 {
                    assert(rest.contains(i));
                    let k = choose|k: int| 0 <= k < rest.len() && rest[k] == i;
                    assert(places[k] == i);
                } else {
                    assert(places[rest.len() as int] == i);
                }
            }
            places
        } else {
            assert(found == before);
            rest
        }
    }
}

/// An address is zero if and only if it spells zero.
proof fn lemma_named_pool(reply: Option<Seq<u8>>)
    ensures
        named_pool(reply) is Some <==> names_a_pool(reply),
        names_a_pool(reply) ==> named_pool(reply) == Some(reply->0.subrange(12, 32)),
{
    if let Some(data) = reply {
        if data.len() >= 32 {
            law_leading_zeros_spell_nothing(20, Seq::empty());
            assert(zeros(20) + Seq::<u8>::empty() =~= zeros(20));
            assert(be_value(zeros(20)) == 0);
            if be_value(data.subrange(12, 32)) == 0 {
                law_spelling_is_unique(data.subrange(12, 32), zeros(20));
            }
        }
    }
}

/// No V2 pool of the given address from `from` on gave a reply that counts.
pub open spec fn v2_is_silent(
    v2: Seq<KnownPool>,
    replies: Seq<Option<Seq<u8>>>,
    from: int,
    address: Address,
) -> bool {
    forall|i: int|
        from <= i < v2.len() && i < replies.len() && (#[trigger] v2[i]).address == address
            ==> v2_reading(v2[i], replies[i]) is None
}

/// No V3 pool of the given address from `from` on gave two replies that count. The replies of the
/// V3 pools stand behind those of the V2 pools, two for each.
pub open spec fn v3_is_silent(
    v2: Seq<KnownPool>,
    v3: Seq<KnownPool>,
    replies: Seq<Option<Seq<u8>>>,
    from: int,
    address: Address,
) -> bool {
    forall|i: int|
        from <= i < v3.len() && v2.len() + 2 * i + 1 < replies.len() && (#[trigger] v3[i]).address
            == address ==> v3_reading(
            v3[i],
            replies[v2.len() + 2 * i],
            replies[v2.len() + 2 * i + 1],
        ) is None
}

proof fn lemma_v2_is_silent(
    pools: Map<Address, PoolData>,
    v2: Seq<KnownPool>,
    replies: Seq<Option<Seq<u8>>>,
    from: int,
    n: int,
    address: Address,
)
    requires
        0 <= from <= n <= v2.len(),
        v2_is_silent(v2, replies, from, address),
    ensures
        with_v2(pools, v2, replies, n).dom().contains(address) == with_v2(
            pools,
            v2,
            replies,
            from,
        ).dom().contains(address),
        with_v2(pools, v2, replies, n)[address] == with_v2(pools, v2, replies, from)[address],
    decreases n - from,
{
    if from < n {
        lemma_v2_is_silent(pools, v2, replies, from, n - 1, address);
        assert(v2[n - 1].address == address ==> v2_reading(v2[n - 1], reply_at(replies, n - 1)) is None);
    }
}

proof fn lemma_v3_is_silent(
    pools: Map<Address, PoolData>,
    v2: Seq<KnownPool>,
    v3: Seq<KnownPool>,
    replies: Seq<Option<Seq<u8>>>,
    from: int,
    n: int,
    address: Address,
)
    requires
        0 <= from <= n <= v3.len(),
        v3_is_silent(v2, v3, replies, from, address),
    ensures
        ({
            let start = v2.len() as int;
            let before = with_v3(pools, v3, replies, start, from);
            let after = with_v3(pools, v3, replies, start, n);
            &&& after.dom().contains(address) == before.dom().contains(address)
            &&& after[address] == before[address]
        }),
    decreases n - from,
{
    if from < n {
        lemma_v3_is_silent(pools, v2, v3, replies, from, n - 1, address);
        let at = v2.len() + 2 * (n - 1);
        assert(v3[n - 1].address == address ==> v3_reading(
            v3[n - 1],
            reply_at(replies, at),
            reply_at(replies, at + 1),
        ) is None);
    }
}

/// A pool that gave no reply that counts keeps what it held.
pub proof fn law_silent_pools_keep_what_they_held(
    pools: Map<Address, PoolData>,
    v2: Seq<KnownPool>,
    v3: Seq<KnownPool>,
    replies: Seq<Option<Seq<u8>>>,
    address: Address,
)
    requires
        v2_is_silent(v2, replies, 0, address),
        v3_is_silent(v2, v3, replies, 0, address),
    ensures
        refreshed(pools, v2, v3, replies).dom().contains(address) == pools.dom().contains(address),
        refreshed(pools, v2, v3, replies)[address] == pools[address],
{
    let start = v2.len() as int;
    lemma_v2_is_silent(pools, v2, replies, 0, start, address);
    lemma_v3_is_silent(
        with_v2(pools, v2, replies, start),
        v2,
        v3,
        replies,
        0,
        v3.len() as int,
        address,
    );
}

/// After a refresh a V2 pool holds what its reply says, where the reply counts and no later one of
/// the same address does.
pub proof fn law_last_v2_reply_stands(
    pools: Map<Address, PoolData>,
    v2: Seq<KnownPool>,
    v3: Seq<KnownPool>,
    replies: Seq<Option<Seq<u8>>>,
    i: int,
)
    requires
        0 <= i < v2.len(),
        i < replies.len(),
        v2_reading(v2[i], replies[i]) is Some,
        v2_is_silent(v2, replies, i + 1, v2[i].address),
        v3_is_silent(v2, v3, replies, 0, v2[i].address),
    ensures
        refreshed(pools, v2, v3, replies).contains_pair(
            v2[i].address,
            v2_reading(v2[i], replies[i])->0,
        ),
{
    let start = v2.len() as int;
    assert(reply_at(replies, i) == replies[i]);
    lemma_v2_is_silent(pools, v2, replies, i + 1, start, v2[i].address);
    lemma_v3_is_silent(
        with_v2(pools, v2, replies, start),
        v2,
        v3,
        replies,
        0,
        v3.len() as int,
        v2[i].address,
    );
}

/// After a refresh a V3 pool holds what its two replies say, where they count and no later ones of
/// the same address do.
pub proof fn law_last_v3_replies_stand(
    pools: Map<Address, PoolData>,
    v2: Seq<KnownPool>,
    v3: Seq<KnownPool>,
    replies: Seq<Option<Seq<u8>>>,
    i: int,
)
    requires
        0 <= i < v3.len(),
        v2.len() + 2 * i + 1 < replies.len(),
        v3_reading(v3[i], replies[v2.len() + 2 * i], replies[v2.len() + 2 * i + 1]) is Some,
        v3_is_silent(v2, v3, replies, i + 1, v3[i].address),
    ensures
        refreshed(pools, v2, v3, replies).contains_pair(
            v3[i].address,
            v3_reading(v3[i], replies[v2.len() + 2 * i], replies[v2.len() + 2 * i + 1])->0,
        ),
{
    let start = v2.len() as int;
    assert(reply_at(replies, start + 2 * i) == replies[start + 2 * i]);
    assert(reply_at(replies, start + 2 * i + 1) == replies[start + 2 * i + 1]);
    lemma_v3_is_silent(
        with_v2(pools, v2, replies, start),
        v2,
        v3,
        replies,
        i + 1,
        v3.len() as int,
        v3[i].address,
    );
}

/// A refresh can be taken in exactly if the numbers in each reply that is there can be held.
pub proof fn law_refresh_fits_by_reply(
    v2: Seq<KnownPool>,
    v3: Seq<KnownPool>,
    replies: Seq<Option<Seq<u8>>>,
)
    ensures
        refresh_fits(v2, v3, replies) <==> {
            &&& forall|i: int|
                0 <= i < v2.len() && i < replies.len() ==> v2_fits(#[trigger] replies[i])
            &&& forall|i: int|
                0 <= i < v3.len() && v2.len() + 2 * i + 1 < replies.len() ==> v3_fits(
                    #[trigger] replies[v2.len() + 2 * i],
                    replies[v2.len() + 2 * i + 1],
                )
        },
{
    if refresh_fits(v2, v3, replies) {
        assert forall|i: int| 0 <= i < v2.len() && i < replies.len() implies v2_fits(
            #[trigger] replies[i],
        ) by {
            assert(reply_at(replies, i) == replies[i]);
        }
        assert forall|i: int|
            0 <= i < v3.len() && v2.len() + 2 * i + 1 < replies.len() implies v3_fits(
            #[trigger] replies[v2.len() + 2 * i],
            replies[v2.len() + 2 * i + 1],
        ) by {
            assert(v3_reply_fits(v2, replies, i));
        }
    } else {
        if forall|i: int| 0 <= i < v2.len() ==> v2_fits(#[trigger] reply_at(replies, i)) {
            let i = choose|i: int| 0 <= i < v3.len() && !#[trigger] v3_reply_fits(v2, replies, i);
            assert(v2.len() + 2 * i + 1 < replies.len());
            assert(!v3_fits(replies[v2.len() + 2 * i], replies[v2.len() + 2 * i + 1]));
        } else {
            let i = choose|i: int| 0 <= i < v2.len() && !v2_fits(#[trigger] reply_at(replies, i));
            assert(!v2_fits(replies[i]));
        }
    }
}

proof fn lemma_v3_calls(v3: Seq<KnownPool>, n: int)
    requires
        0 <= n <= v3.len(),
    ensures
        v3_calls(v3, n).len() == 2 * n,
        forall|i: int|
            0 <= i < n ==> v3_calls(v3, n)[2 * i] == ((#[trigger] v3[i]).address@, SLOT0@)
                && v3_calls(v3, n)[2 * i + 1] == (v3[i].address@, LIQUIDITY@),
    decreases n,
{
    if n > 0 {
        lemma_v3_calls(v3, n - 1);
    }
}

/// A refresh asks each V2 pool for `getReserves`, and then each V3 pool for `slot0` and for
/// `liquidity`, and nothing else. No question has arguments.
pub proof fn law_every_pool_is_asked(v2: Seq<KnownPool>, v3: Seq<KnownPool>)
    ensures
        ({
            let calls = all_refresh_calls(v2, v3);
            &&& calls.len() == v2.len() + 2 * v3.len()
            &&& forall|i: int|
                0 <= i < v2.len() ==> {
                    let (target, data) = #[trigger] calls[i];
                    target == v2[i].address@ && data.len() == 4 && be_value(data) == 0x0902f1ac
                }
            &&& forall|i: int|
                0 <= i < v3.len() ==> {
                    let (target, data) = calls[v2.len() + 2 * i];
                    target == (#[trigger] v3[i]).address@ && data.len() == 4 && be_value(data)
                        == 0x3850c7bd
                }
            &&& forall|i: int|
                0 <= i < v3.len() ==> {
                    let (target, data) = calls[v2.len() + 2 * i + 1];
                    target == (#[trigger] v3[i]).address@ && data.len() == 4 && be_value(data)
                        == 0x1a686502
                }
        }),
{
    lemma_v3_calls(v3, v3.len() as int);
    lemma_be_value_of_four(GET_RESERVES@);
    lemma_be_value_of_four(SLOT0@);
    lemma_be_value_of_four(LIQUIDITY@);
}

} // verus!
