//! Batching of contract calls through Multicall3.
use crate::abi::{
    abi_decode_results, abi_encode, abi_encoding, abi_results, arg_tails, arg_words, args_size,
    args_view, call_bodies, call_body, call_offsets, calldata, calls_size, calls_view, results_view,
    AbiArg, AbiValue,
};
use crate::bytes::{
    be_bytes, be_value, lemma_be_bytes_len, lemma_be_value_of_bytes, lemma_be_value_of_four,
    lemma_twenty_bytes, word, zeros,
};
use crate::types::Address;
use crate::u256::lemma_two_256;
use vstd::prelude::*;

verus! {

/// The Multicall3 contract, at the same address on every chain.
pub const MULTICALL3: Address = [
    0xca, 0x11, 0xbd, 0xe0, 0x59, 0x77, 0xb3, 0x63, 0x11, 0x67, 0x02, 0x88, 0x62, 0xbe, 0x2a, 0x17,
    0x39, 0x76, 0xca, 0x11,
];

/// `tryAggregate(bool,(address,bytes)[])`.
pub const TRY_AGGREGATE: [u8; 4] = [0xbc, 0xe3, 0x8b, 0xd7];

/// Calls few and short enough to be encoded.
pub open spec fn multicall_fits(calls: Seq<(Seq<u8>, Seq<u8>)>) -> bool {
    64 + calls_size(calls) <= u32::MAX && 32 * (64 + calls_size(calls)) <= isize::MAX
}

/// The calldata of `tryAggregate` for calls that may fail one by one.
pub open spec fn multicall_calldata(calls: Seq<(Seq<u8>, Seq<u8>)>) -> Seq<u8> {
    TRY_AGGREGATE@ + abi_encoding(seq![AbiValue::Bool(false), AbiValue::Calls(calls)])
}

/// The calldata of `tryAggregate(bool requireSuccess, (address,bytes)[] calls)`, without
/// requiring success.
pub fn encode_multicall(calls: &[(Address, Vec<u8>)]) -> (r: Vec<u8>)
    requires
        multicall_fits(calls_view(calls@)),
    ensures
        r@ == multicall_calldata(calls_view(calls@)),
{
    let args: [AbiArg<'_>; 2] = [AbiArg::Bool(false), AbiArg::Calls(calls)];
    let ghost values = seq![AbiValue::Bool(false), AbiValue::Calls(calls_view(calls@))];
    proof {
        assert(args_view(args@) =~= values);
        assert(values.drop_last() =~= seq![AbiValue::Bool(false)]);
        assert(values.drop_last().drop_last() =~= Seq::empty());
        reveal_with_fuel(args_size, 3);
    }
    calldata(TRY_AGGREGATE, abi_encode(&args).as_slice())
}

/// The first calls of a batch take no more bytes than the whole batch.
proof fn lemma_calls_size_grows(calls: Seq<(Seq<u8>, Seq<u8>)>, n: int)
    requires
        0 <= n <= calls.len(),
    ensures
        calls_size(calls.take(n)) <= calls_size(calls),
    decreases calls.len(),
{
    if n < calls.len() {
        lemma_calls_size_grows(calls.drop_last(), n);
        assert(calls.drop_last().take(n) =~= calls.take(n));
    } else {
        assert(calls.take(n) =~= calls);
    }
}

/// Calls of at most `words` words of calldata each take no more bytes than as many calls of
/// exactly that length.
pub proof fn lemma_calls_size_bound(calls: Seq<(Seq<u8>, Seq<u8>)>, words: nat)
    requires
        forall|i: int| 0 <= i < calls.len() ==> (#[trigger] calls[i]).1.len() <= 32 * words,
    ensures
        calls_size(calls) <= 32 + calls.len() * (128 + 32 * words),
    decreases calls.len(),
{
    if calls.len() > 0 {
        let rest = calls.drop_last();
        assert forall|i: int| 0 <= i < rest.len() implies (#[trigger] rest[i]).1.len() <= 32
            * words by {
            assert(rest[i] == calls[i]);
        }
        lemma_calls_size_bound(rest, words);
        assert(calls.last() == calls[calls.len() - 1]);
        assert(calls.len() * (128 + 32 * words) == (calls.len() - 1) * (128 + 32 * words) + (128
            + 32 * words)) by (nonlinear_arith)
            requires
                calls.len() > 0,
        ;
    }
}

/// Whether the calls are few and short enough to be encoded.
pub fn can_encode_multicall(calls: &[(Address, Vec<u8>)]) -> (r: bool)
    ensures
        r == multicall_fits(calls_view(calls@)),
{
    let ghost view = calls_view(calls@);
    let mut size: u64 = 32;
    let mut i: usize = 0;
    while i < calls.len()
        invariant
            i <= calls@.len(),
            view == calls_view(calls@),
            size == calls_size(view.take(i as int)),
            size <= u32::MAX,
        decreases calls@.len() - i,
    {
        let len: usize = calls[i].1.len();
        proof {
            lemma_calls_size_grows(view, i + 1);
            assert(view.take(i + 1).drop_last() =~= view.take(i as int));
            assert(view.take(i + 1).last() == (calls@[i as int].0@, calls@[i as int].1@));
        }
        if len > 0xffff_ffff {
            return false;
        }
        size = size + 128 + (len as u64 + 31) / 32 * 32;
        if size > 0xffff_ffff {
            return false;
        }
        i = i + 1;
    }
    assert(view.take(i as int) =~= view);
    let total: u64 = 64 + size;
    total <= 0xffff_ffff && 32 * total <= isize::MAX as u64
}

/// What a call of a batch returned: its bytes where it succeeded and returned any.
pub open spec fn reply_of_result(result: (bool, Seq<u8>)) -> Option<Seq<u8>> {
    if result.0 && result.1.len() > 0 {
        Some(result.1)
    } else {
        None
    }
}

/// What each call of a batch returned.
pub open spec fn replies_of_results(results: Seq<(bool, Seq<u8>)>) -> Seq<Option<Seq<u8>>> {
    results.map_values(|result: (bool, Seq<u8>)| reply_of_result(result))
}

/// What each call of a batch returned, out of the bytes that `tryAggregate` returned: nothing
/// where those are no `(bool,bytes)[]`, or fewer than 64.
pub open spec fn replies(data: Seq<u8>) -> Seq<Option<Seq<u8>>> {
    if data.len() < 64 {
        Seq::empty()
    } else {
        match abi_results(data) {
            Some(results) => replies_of_results(results),
            None => Seq::empty(),
        }
    }
}

/// A reply over byte strings.
pub open spec fn reply_view(reply: Option<Vec<u8>>) -> Option<Seq<u8>> {
    match reply {
        Some(bytes) => Some(bytes@),
        None => None,
    }
}

/// Replies over byte strings.
pub open spec fn replies_view(replies: Seq<Option<Vec<u8>>>) -> Seq<Option<Seq<u8>>> {
    replies.map_values(|reply: Option<Vec<u8>>| reply_view(reply))
}

/// What each call of a batch returned, out of the decoded results.
pub fn collect_replies(results: Vec<(bool, Vec<u8>)>) -> (r: Vec<Option<Vec<u8>>>)
    ensures
        replies_view(r@) == replies_of_results(results_view(results@)),
{
    let mut out: Vec<Option<Vec<u8>>> = Vec::new();
    let mut i: usize = 0;
    while i < results.len()
        invariant
            i <= results@.len(),
            out@.len() == i,
            forall|j: int|
                0 <= j < i ==> #[trigger] reply_view(out@[j]) == reply_of_result(
                    (results@[j].0, results@[j].1@),
                ),
        decreases results@.len() - i,
    {
        let (success, bytes) = &results[i];
        let reply: Option<Vec<u8>> = if *success && bytes.len() > 0 {
            Some(vstd::slice::slice_to_vec(bytes.as_slice()))
        } else {
            None
        };
        out.push(reply);
        i = i + 1;
    }
    assert(replies_view(out@) =~= replies_of_results(results_view(results@)));
    out
}

/// What each call of a batch returned, out of the bytes that `tryAggregate` returned.
pub fn parse_multicall_response(data: &[u8]) -> (r: Vec<Option<Vec<u8>>>)
    requires
        usize::MAX > 0x1_0000_0020,
    ensures
        replies_view(r@) == replies(data@),
{
    let none: Vec<Option<Vec<u8>>> = Vec::new();
    assert(replies_view(none@) =~= Seq::empty());
    if data.len() < 64 {
        return none;
    }
    match abi_decode_results(data) {
        Ok(results) => collect_replies(results),
        Err(_) => none,
    }
}

/// The call that the offset word `i` from `base` on points to, as the contract ABI lays calls out.
pub open spec fn read_call(data: Seq<u8>, base: int, i: int) -> (Seq<u8>, Seq<u8>) {
    let at = base + word(data, base + 32 * i);
    let bytes_at = at + word(data, at + 32);
    let len = word(data, bytes_at);
    (data.subrange(at + 12, at + 32), data.subrange(bytes_at + 32, bytes_at + 32 + len))
}

/// The flag and the calls that encoded arguments of `tryAggregate` hold.
pub open spec fn read_calls(data: Seq<u8>) -> (bool, Seq<(Seq<u8>, Seq<u8>)>) {
    let at = word(data, 32) as int;
    (
        word(data, 0) == 1,
        Seq::new(word(data, at), |i: int| read_call(data, at + 32, i)),
    )
}

/// The calls have addresses for targets.
pub open spec fn are_calls(calls: Seq<(Seq<u8>, Seq<u8>)>) -> bool {
    forall|i: int| 0 <= i < calls.len() ==> (#[trigger] calls[i]).0.len() == 20
}

proof fn lemma_zeros_value(count: nat)
    ensures
        be_value(zeros(count)) == 0,
    decreases count,
{
    if count > 0 {
        lemma_zeros_value((count - 1) as nat);
        assert(zeros(count).drop_last() =~= zeros((count - 1) as nat));
    }
}

/// Calls take as many bytes as `calls_size` counts.
proof fn lemma_bodies_len(calls: Seq<(Seq<u8>, Seq<u8>)>)
    requires
        are_calls(calls),
    ensures
        32 + 32 * calls.len() + call_bodies(calls).len() == calls_size(calls),
    decreases calls.len(),
{
    if calls.len() > 0 {
        let rest = calls.drop_last();
        assert forall|i: int| 0 <= i < rest.len() implies (#[trigger] rest[i]).0.len() == 20 by {
            assert(rest[i] == calls[i]);
        }
        lemma_bodies_len(rest);
        assert(calls.last() == calls[calls.len() - 1]);
        lemma_be_bytes_len(64, 32);
        lemma_be_bytes_len(calls.last().1.len(), 32);
    }
}

/// Each call stands where the bodies of those before it end.
proof fn lemma_body_place(calls: Seq<(Seq<u8>, Seq<u8>)>, i: int)
    requires
        0 <= i < calls.len(),
    ensures
        ({
            let at = call_bodies(calls.take(i)).len() as int;
            let body = call_body(calls[i]);
            &&& at + body.len() <= call_bodies(calls).len()
            &&& call_bodies(calls).subrange(at, at + body.len()) == body
        }),
    decreases calls.len(),
{
    let rest = calls.drop_last();
    if i < rest.len() {
        lemma_body_place(rest, i);
        assert(rest.take(i) =~= calls.take(i));
        let at = call_bodies(calls.take(i)).len() as int;
        let body = call_body(calls[i]);
        assert(call_bodies(calls).subrange(at, at + body.len()) =~= call_bodies(
            rest,
        ).subrange(at, at + body.len()));
    } else {
        assert(calls.take(i) =~= rest);
        let at = call_bodies(rest).len() as int;
        let body = call_body(calls[i]);
        assert(call_bodies(calls).subrange(at, at + body.len()) =~= body);
    }
}

/// Offset word `i` says where call `i` starts.
proof fn lemma_offset_place(calls: Seq<(Seq<u8>, Seq<u8>)>, n: nat, i: int)
    requires
        0 <= i < n <= calls.len(),
    ensures
        call_offsets(calls, n).len() == 32 * n,
        call_offsets(calls, n).subrange(32 * i, 32 * i + 32) == be_bytes(
            32 * calls.len() + call_bodies(calls.take(i)).len(),
            32,
        ),
    decreases n,
{
    reveal_with_fuel(call_offsets, 2);
    let m = (n - 1) as nat;
    let last = be_bytes(32 * calls.len() + call_bodies(calls.take(m as int)).len(), 32);
    lemma_be_bytes_len(32 * calls.len() + call_bodies(calls.take(m as int)).len(), 32);
    if m > 0 {
        lemma_offset_place(calls, m, if i < m { i } else { 0 });
    }
    if i < m {
        assert(call_offsets(calls, n).subrange(32 * i, 32 * i + 32) =~= call_offsets(
            calls,
            m,
        ).subrange(32 * i, 32 * i + 32));
    } else {
        assert(call_offsets(calls, n).subrange(32 * i, 32 * i + 32) =~= last);
    }
}

/// The arguments of `tryAggregate` behind its selector.
proof fn lemma_multicall_layout(calls: Seq<(Seq<u8>, Seq<u8>)>)
    ensures
        abi_encoding(seq![AbiValue::Bool(false), AbiValue::Calls(calls)]) == zeros(31).push(0u8)
            + be_bytes(64, 32) + be_bytes(calls.len(), 32) + call_offsets(calls, calls.len())
            + call_bodies(calls),
{
    let args = seq![AbiValue::Bool(false), AbiValue::Calls(calls)];
    let one = seq![AbiValue::Bool(false)];
    assert(args.drop_last() =~= one);
    assert(one.drop_last() =~= Seq::empty());
    assert(args.take(1) =~= one);
    assert(args.take(0) =~= Seq::empty());
    reveal_with_fuel(arg_words, 3);
    reveal_with_fuel(arg_tails, 3);
    assert(arg_tails(one) =~= Seq::empty());
    assert(abi_encoding(args) =~= zeros(31).push(0u8) + be_bytes(64, 32) + be_bytes(
        calls.len(),
        32,
    ) + call_offsets(calls, calls.len()) + call_bodies(calls));
}

proof fn lemma_call_reads_back(calls: Seq<(Seq<u8>, Seq<u8>)>, i: int)
    requires
        multicall_fits(calls),
        are_calls(calls),
        0 <= i < calls.len(),
    ensures
        read_call(multicall_calldata(calls).skip(4), 96, i) == calls[i],
{
    let data = multicall_calldata(calls).skip(4);
    let n = calls.len();
    let bodies = call_bodies(calls);
    let offset = 32 * n + call_bodies(calls.take(i)).len();
    let body = call_body(calls[i]);
    let len = calls[i].1.len();
    lemma_two_256();
    lemma_multicall_layout(calls);
    lemma_bodies_len(calls);
    lemma_body_place(calls, i);
    lemma_offset_place(calls, n, i);
    lemma_be_bytes_len(64, 32);
    lemma_be_bytes_len(n, 32);
    lemma_be_bytes_len(len, 32);
    lemma_be_value_of_bytes(offset, 32);
    lemma_be_value_of_bytes(64, 32);
    assert(calls[i].0.len() == 20);
    let at = 96 + offset as int;
    let start = (offset - 32 * n) as int;
    assert(data =~= zeros(31).push(0u8) + be_bytes(64, 32) + be_bytes(n, 32) + call_offsets(
        calls,
        n,
    ) + bodies);
    assert(data.subrange(96 + 32 * i, 96 + 32 * i + 32) =~= call_offsets(calls, n).subrange(
        32 * i,
        32 * i + 32,
    ));
    assert(word(data, 96 + 32 * i) == offset);
    assert(data.subrange(at, at + body.len()) =~= bodies.subrange(
        start,
        start + body.len(),
    ));
    let placed = data.subrange(at, at + body.len());
    assert(data.subrange(at + 32, at + 64) =~= placed.subrange(32, 64));
    assert(body.subrange(32, 64) =~= be_bytes(64, 32));
    assert(word(data, at + 32) == 64);
    assert(data.subrange(at + 64, at + 96) =~= placed.subrange(64, 96));
    assert(body.subrange(64, 96) =~= be_bytes(len, 32));
    lemma_be_value_of_bytes(len, 32);
    assert(word(data, at + 64) == len);
    assert(data.subrange(at + 12, at + 32) =~= placed.subrange(12, 32));
    assert(body.subrange(12, 32) =~= calls[i].0);
    assert(data.subrange(at + 96, at + 96 + len) =~= placed.subrange(96, 96 + len as int));
    assert(body.subrange(96, 96 + len as int) =~= calls[i].1);
}

/// The calldata of a batch starts with the selector of `tryAggregate`, and behind it the calls can
/// be read back, targets, calldata and order unchanged, without success required.
pub proof fn law_multicall_reads_back(calls: Seq<(Seq<u8>, Seq<u8>)>)
    requires
        multicall_fits(calls),
        are_calls(calls),
    ensures
        multicall_calldata(calls).take(4) == TRY_AGGREGATE@,
        read_calls(multicall_calldata(calls).skip(4)) == (false, calls),
{
    let data = multicall_calldata(calls).skip(4);
    let n = calls.len();
    lemma_two_256();
    lemma_multicall_layout(calls);
    lemma_bodies_len(calls);
    lemma_be_bytes_len(64, 32);
    lemma_be_bytes_len(n, 32);
    lemma_be_value_of_bytes(64, 32);
    lemma_be_value_of_bytes(n, 32);
    lemma_zeros_value(31);
    assert(multicall_calldata(calls).take(4) =~= TRY_AGGREGATE@);
    assert(data =~= zeros(31).push(0u8) + be_bytes(64, 32) + be_bytes(n, 32) + call_offsets(
        calls,
        n,
    ) + call_bodies(calls));
    assert(data.subrange(0, 32) =~= zeros(31).push(0u8));
    assert(zeros(31).push(0u8).drop_last() =~= zeros(31));
    assert(data.subrange(32, 64) =~= be_bytes(64, 32));
    assert(data.subrange(64, 96) =~= be_bytes(n, 32));
    assert forall|i: int| 0 <= i < n implies read_call(data, 96, i) == #[trigger] calls[i] by {
        lemma_call_reads_back(calls, i);
    }
    assert(read_calls(data).1 =~= calls);
}

/// Different batches have different calldata.
pub proof fn law_multicall_is_injective(
    a: Seq<(Seq<u8>, Seq<u8>)>,
    b: Seq<(Seq<u8>, Seq<u8>)>,
)
    requires
        multicall_fits(a),
        multicall_fits(b),
        are_calls(a),
        are_calls(b),
        multicall_calldata(a) == multicall_calldata(b),
    ensures
        a == b,
{
    law_multicall_reads_back(a);
    law_multicall_reads_back(b);
}

/// There is one reply for each call of a batch: its bytes where it succeeded and returned any, and
/// none otherwise.
pub proof fn law_replies_are_successes(results: Seq<(bool, Seq<u8>)>, i: int)
    requires
        0 <= i < results.len(),
    ensures
        replies_of_results(results).len() == results.len(),
        results[i].0 && results[i].1.len() > 0 ==> replies_of_results(results)[i] == Some(
            results[i].1,
        ),
        !results[i].0 || results[i].1.len() == 0 ==> replies_of_results(results)[i] is None,
{
}

/// A response that is long enough and holds results has a reply for each of them, and any other
/// has none.
pub proof fn law_replies_of_responses(data: Seq<u8>)
    ensures
        data.len() >= 64 && abi_results(data) is Some ==> replies(data) == replies_of_results(
            abi_results(data)->0,
        ),
        data.len() < 64 || abi_results(data) is None ==> replies(data).len() == 0,
{
}

/// What is said of replies is said of the bytes in them.
pub proof fn law_reply_view_shows_bytes(list: Seq<Option<Vec<u8>>>, i: int)
    requires
        0 <= i < list.len(),
    ensures
        replies_view(list).len() == list.len(),
        list[i] is None ==> replies_view(list)[i] is None,
        list[i] matches Some(bytes) ==> replies_view(list)[i] == Some(bytes@),
{
}

/// A batch can be encoded exactly if its encoding is at most `u32::MAX` bytes long, and a word for
/// each of those bytes can be set aside.
pub proof fn law_multicall_fits_by_length(calls: Seq<(Seq<u8>, Seq<u8>)>)
    requires
        are_calls(calls),
    ensures
        ({
            let len = multicall_calldata(calls).len() - 4;
            multicall_fits(calls) <==> len <= u32::MAX && 32 * len <= isize::MAX
        }),
{
    lemma_multicall_layout(calls);
    lemma_bodies_len(calls);
    lemma_be_bytes_len(64, 32);
    lemma_be_bytes_len(calls.len(), 32);
    if calls.len() > 0 {
        lemma_offset_place(calls, calls.len(), 0);
    }
}

/// Batches go to the contract at the same address on every chain, and call `tryAggregate` there.
pub proof fn law_batches_call_try_aggregate(calls: Seq<(Seq<u8>, Seq<u8>)>)
    ensures
        be_value(MULTICALL3@) == 0xcA11bde05977b3631167028862bE2a173976CA11nat,
        multicall_calldata(calls).len() >= 4,
        be_value(multicall_calldata(calls).take(4)) == 0xbce38bd7,
{
    assert(be_value(MULTICALL3@) == 0xcA11bde05977b3631167028862bE2a173976CA11nat) by {
        lemma_twenty_bytes(MULTICALL3@);
    }
    assert(multicall_calldata(calls).take(4) =~= TRY_AGGREGATE@);
    lemma_be_value_of_four(TRY_AGGREGATE@);
}

} // verus!
