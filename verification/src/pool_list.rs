//! Lists of pools, each kept under its address.
use crate::hot_path::address_eq;
use crate::pools::PoolData;
use crate::readings::MIN_RESERVE;
use crate::types::Address;
use vstd::prelude::*;

verus! {

/// A list of pools holds one of the given address.
pub open spec fn lists(pools: Seq<PoolData>, address: Address) -> bool {
    exists|i: int| 0 <= i < pools.len() && #[trigger] pools[i].address == address
}

/// Where a list of pools holds the one of the given address.
pub open spec fn place_of(pools: Seq<PoolData>, address: Address) -> int {
    choose|i: int| 0 <= i < pools.len() && #[trigger] pools[i].address == address
}

/// The pools of a list by address.
pub open spec fn by_address(pools: Seq<PoolData>) -> Map<Address, PoolData> {
    Map::new(|address: Address| lists(pools, address), |address: Address|
        pools[place_of(pools, address)])
}

/// A list of pools: no address twice, and reserves that count.
pub open spec fn is_pool_list(pools: Seq<PoolData>) -> bool {
    &&& forall|i: int, j: int|
        0 <= i < j < pools.len() ==> #[trigger] pools[i].address != #[trigger] pools[j].address
    &&& forall|i: int|
        0 <= i < pools.len() ==> (#[trigger] pools[i]).reserve0 > MIN_RESERVE && pools[i].reserve1
            > MIN_RESERVE
}

/// Puts a pool in a list, in place of the one of its address if there is one.
pub(crate) fn insert_pool(pools: &mut Vec<PoolData>, pool: PoolData)
    requires
        is_pool_list(old(pools)@),
        pool.reserve0 > MIN_RESERVE,
        pool.reserve1 > MIN_RESERVE,
    ensures
        is_pool_list(final(pools)@),
        by_address(final(pools)@) == by_address(old(pools)@).insert(pool.address, pool),
{
    let ghost before = pools@;
    let mut i: usize = 0;
    while i < pools.len()
        invariant
            i <= pools@.len(),
            pools@ == before,
            before == old(pools)@,
            is_pool_list(before),
            pool.reserve0 > MIN_RESERVE,
            pool.reserve1 > MIN_RESERVE,
            forall|k: int| 0 <= k < i ==> #[trigger] before[k].address != pool.address,
        decreases pools@.len() - i,
    {
        let address: Address = pools[i].address;
        if address_eq(&address, &pool.address) {
            pools.set(i, pool);
            proof {
                lemma_replaced(before, i as int, pool);
            }
            return;
        }
        i = i + 1;
    }
    pools.push(pool);
    proof {
        lemma_added(before, pool);
    }
}

proof fn lemma_place(pools: Seq<PoolData>, i: int)
    requires
        is_pool_list(pools),
        0 <= i < pools.len(),
    ensures
        lists(pools, pools[i].address),
        place_of(pools, pools[i].address) == i,
{
    let p = place_of(pools, pools[i].address);
    assert(pools[i].address == pools[i].address);
    assert(0 <= p < pools.len() && pools[p].address == pools[i].address);
    if p < i {
        assert(pools[p].address != pools[i].address);
    } else if i < p {
        assert(pools[i].address != pools[p].address);
    }
}

proof fn lemma_replaced(before: Seq<PoolData>, i: int, pool: PoolData)
    requires
        is_pool_list(before),
        0 <= i < before.len(),
        before[i].address == pool.address,
        pool.reserve0 > MIN_RESERVE,
        pool.reserve1 > MIN_RESERVE,
    ensures
        is_pool_list(before.update(i, pool)),
        by_address(before.update(i, pool)) == by_address(before).insert(pool.address, pool),
{
    let after = before.update(i, pool);
    assert forall|k: int| 0 <= k < after.len() implies after[k].address
        == before[k].address by {}
    assert(is_pool_list(after));
    assert forall|address: Address| true implies lists(after, address) == #[trigger] lists(
        before,
        address,
    ) by {
        if lists(after, address) {
            let k = place_of(after, address);
            assert(before[k].address == address);
        }
        if lists(before, address) {
            let k = place_of(before, address);
            assert(after[k].address == address);
        }
    }
    assert forall|address: Address| lists(after, address) implies #[trigger] by_address(
        after,
    )[address] == by_address(before).insert(pool.address, pool)[address] by {
        let k = place_of(before, address);
        assert(lists(before, address));
        assert(after[k].address == address);
        lemma_place(after, k);
        if k == i {
            assert(address == pool.address);
        } else if address == pool.address {
            lemma_place(before, i);
        }
    }
    lemma_place(before, i);
    assert(by_address(after) =~= by_address(before).insert(pool.address, pool));
}

proof fn lemma_added(before: Seq<PoolData>, pool: PoolData)
    requires
        is_pool_list(before),
        forall|k: int| 0 <= k < before.len() ==> #[trigger] before[k].address != pool.address,
        pool.reserve0 > MIN_RESERVE,
        pool.reserve1 > MIN_RESERVE,
    ensures
        is_pool_list(before.push(pool)),
        by_address(before.push(pool)) == by_address(before).insert(pool.address, pool),
{
    let after = before.push(pool);
    assert(is_pool_list(after));
    lemma_place(after, before.len() as int);
    assert forall|address: Address| true implies (#[trigger] lists(after, address) <==> lists(
        before,
        address,
    ) || address == pool.address) by {
        if lists(before, address) {
            let k = place_of(before, address);
            assert(after[k].address == address);
        }
        if lists(after, address) {
            let k = place_of(after, address);
            if k < before.len() {
                assert(before[k].address == address);
            }
        }
    }
    assert forall|address: Address| lists(after, address) implies #[trigger] by_address(
        after,
    )[address] == by_address(before).insert(pool.address, pool)[address] by {
        if address != pool.address {
            let k = place_of(before, address);
            assert(after[k].address == address);
            lemma_place(after, k);
        }
    }
    assert(by_address(after) =~= by_address(before).insert(pool.address, pool));
}

/// A list of pools holds no address twice, and only reserves above 1000.
pub proof fn law_pool_lists_hold_reserves_that_count(pools: Seq<PoolData>)
    ensures
        is_pool_list(pools) <==> {
            &&& forall|i: int, j: int|
                0 <= i < pools.len() && 0 <= j < pools.len() && (#[trigger] pools[i]).address == (
                #[trigger] pools[j]).address ==> i == j
            &&& forall|i: int|
                0 <= i < pools.len() ==> (#[trigger] pools[i]).reserve0 > 1000
                    && pools[i].reserve1 > 1000
        },
{
    if is_pool_list(pools) {
        assert forall|i: int, j: int|
            0 <= i < pools.len() && 0 <= j < pools.len() && (#[trigger] pools[i]).address == (
            #[trigger] pools[j]).address implies i == j by {
            if i < j {
                assert(pools[i].address != pools[j].address);
            } else if j < i {
                assert(pools[j].address != pools[i].address);
            }
        }
    }
}

/// By address a list of pools holds each of its pools, and no other.
pub proof fn law_by_address_holds_the_list(pools: Seq<PoolData>)
    requires
        is_pool_list(pools),
    ensures
        forall|i: int|
            0 <= i < pools.len() ==> by_address(pools).contains_pair(
                (#[trigger] pools[i]).address,
                pools[i],
            ),
        forall|address: Address| #[trigger]
            by_address(pools).dom().contains(address) ==> exists|i: int|
                0 <= i < pools.len() && (#[trigger] pools[i]).address == address,
{
    assert forall|i: int| 0 <= i < pools.len() implies by_address(pools).contains_pair(
        (#[trigger] pools[i]).address,
        pools[i],
    ) by {
        lemma_place(pools, i);
    }
}

} // verus!
