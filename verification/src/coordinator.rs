//! What the answers of the shards add up to.

use vstd::prelude::*;
use vstd::string::StringExecFns;
use crate::error::DbError;
use crate::openapi::RpcResponse;
use crate::score::lemma_best;
use crate::score::top_k;
use crate::search::hit_scores;
use crate::search::is_sorted_prefix;
use crate::search::pick_hits;
use crate::search::ranked;
use crate::search::Hit;
use crate::shard_client::CollectionInfo;
use crate::shard_client::MultiShardResult;
use crate::shard_client::ResponseData;
use crate::shard_client::ShardResponse;
use crate::sharding::lemma_owner_is_shard;
use crate::sharding::owner_of;
use crate::sharding::shard_index;
use crate::sharding::with_collection;
use crate::sharding::without_collection;
use vstd::utf8::encode_utf8;
use crate::sharding::ShardManager;
use crate::sharding::ShardView;
use crate::text::str_before;
use crate::text::str_eq;
use crate::text::str_lt;

verus! {

/// What one call of a fan-out came back with: the shard's answer, or why none came.
pub struct ShardOutcome {
    pub shard_id: String,
    pub reply: Result<ShardResponse, String>,
}

/// A shard's answer as plain values, as far as merging reads it.
pub struct ReplyView {
    pub shard_id: Seq<char>,
    pub success: bool,
    pub error: Option<Seq<char>>,
}

/// The plain values of an answer.
pub open spec fn reply_view(r: ShardResponse) -> ReplyView {
    ReplyView {
        shard_id: r.shard_id@,
        success: r.success,
        error: match r.error {
            Some(e) => Some(e@),
            None => None,
        },
    }
}

/// The plain values of a list of answers.
pub open spec fn reply_views(rs: Seq<ShardResponse>) -> Seq<ReplyView> {
    Seq::new(rs.len(), |i: int| reply_view(rs[i]))
}

/// The answer recorded for one call: the shard's own answer under the shard's
/// identifier, or a failure that carries the reason why no answer came.
pub open spec fn recorded(o: ShardOutcome) -> ReplyView {
    match o.reply {
        Ok(r) => ReplyView { shard_id: o.shard_id@, ..reply_view(r) },
        Err(e) => ReplyView { shard_id: o.shard_id@, success: false, error: Some(e@) },
    }
}

/// The number of the first `n` calls that got an answer.
pub open spec fn answered(os: Seq<ShardOutcome>, n: nat) -> nat
    decreases n,
{
    if n == 0 {
        0
    } else {
        answered(os, (n - 1) as nat) + if os[n - 1].reply is Ok {
            1nat
        } else {
            0nat
        }
    }
}

/// Every shard answered with success.
pub open spec fn all_succeeded(rs: Seq<ReplyView>) -> bool {
    forall|i: int| 0 <= i < rs.len() ==> (#[trigger] rs[i]).success
}

/// Some shard answered with success.
pub open spec fn any_succeeded(rs: Seq<ReplyView>) -> bool {
    exists|i: int| 0 <= i < rs.len() && (#[trigger] rs[i]).success
}

/// The identifiers of the shards that did not answer with success, in order.
pub open spec fn failed_ids(rs: Seq<ReplyView>) -> Seq<Seq<char>>
    decreases rs.len(),
{
    if rs.len() == 0 {
        Seq::empty()
    } else if rs.last().success {
        failed_ids(rs.drop_last())
    } else {
        failed_ids(rs.drop_last()).push(rs.last().shard_id)
    }
}

/// The texts of `parts`, each followed by a blank.
pub open spec fn listed_text(parts: Seq<Seq<char>>) -> Seq<char>
    decreases parts.len(),
{
    if parts.len() == 0 {
        Seq::empty()
    } else {
        listed_text(parts.drop_last()) + parts.last() + " "@
    }
}

/// The message of a failed fan-out: it names every shard that failed.
pub open spec fn failure_message(failed: Seq<Seq<char>>) -> Seq<char> {
    "failed on shards: "@ + listed_text(failed)
}

/// Why a fan-out did not succeed.
pub struct FanOutFailure {
    pub kind: DbError,
    pub failed_shards: Vec<String>,
    pub message: String,
}

/// Records the outcome of every call of a fan-out, in order.
pub fn collect(outcomes: Vec<ShardOutcome>) -> (result: MultiShardResult)
    ensures
        reply_views(result.results@) == Seq::new(outcomes@.len(), |i: int| recorded(outcomes@[i])),
        forall|i: int|
            0 <= i < outcomes@.len() && outcomes@[i].reply is Ok ==> (#[trigger] result.results@[i]).data
                == outcomes@[i].reply->Ok_0.data,
        forall|i: int|
            0 <= i < outcomes@.len() && outcomes@[i].reply is Err ==> (#[trigger] result.results@[i]).data
                is None,
        result.successful_operations == answered(outcomes@, outcomes@.len()),
        result.failed_operations == outcomes@.len() - answered(outcomes@, outcomes@.len()),
{
    let mut rest = outcomes;
    let mut results: Vec<ShardResponse> = Vec::new();
    let mut successful: usize = 0;
    let mut failed: usize = 0;
    let ghost all = outcomes@;
    let total = rest.len();
    proof {
        lemma_answered_bound(all, all.len());
        assert(all.len() == total);
    }
    while rest.len() > 0
        invariant
            rest@ == all.take(rest@.len() as int),
            rest@.len() <= all.len(),
            results@.len() == all.len() - rest@.len(),
            forall|i: int|
                0 <= i < results@.len() ==> reply_view(#[trigger] results@[i]) == recorded(
                    all[rest@.len() + i],
                ),
            forall|i: int|
                0 <= i < results@.len() && all[rest@.len() + i].reply is Ok ==> (
                #[trigger] results@[i]).data == all[rest@.len() + i].reply->Ok_0.data,
            forall|i: int|
                0 <= i < results@.len() && all[rest@.len() + i].reply is Err ==> (
                #[trigger] results@[i]).data is None,
            successful + answered(all, rest@.len()) == answered(all, all.len()),
            successful + failed == results@.len(),
            answered(all, all.len()) <= all.len(),
            all.len() <= usize::MAX,
        decreases rest@.len(),
    {
        let ghost n = rest@.len();
        let ghost before = results@;
        let o = rest.pop().unwrap();
        proof {
            assert(o == all[n - 1]);
            assert(rest@ =~= all.take(n - 1));
            lemma_answered_bound(all, (n - 1) as nat);
        }
        let ShardOutcome { shard_id, reply } = o;
        let response = match reply {
            Ok(r) => {
                successful = successful + 1;
                ShardResponse { success: r.success, data: r.data, error: r.error, shard_id }
            },
            Err(e) => {
                failed = failed + 1;
                ShardResponse { success: false, data: None, error: Some(e), shard_id }
            },
        };
        results.insert(0, response);
        proof {
            assert(results@ == before.insert(0, response));
            assert forall|i: int| 0 <= i < results@.len() implies reply_view(#[trigger] results@[i])
                == recorded(all[rest@.len() + i]) by {
                if i > 0 {
                    assert(results@[i] == before[i - 1]);
                }
            }
            assert forall|i: int|
                0 <= i < results@.len() && all[rest@.len() + i].reply is Ok implies (
            #[trigger] results@[i]).data == all[rest@.len() + i].reply->Ok_0.data by {
                if i > 0 {
                    assert(results@[i] == before[i - 1]);
                }
            }
            assert forall|i: int|
                0 <= i < results@.len() && all[rest@.len() + i].reply is Err implies (
            #[trigger] results@[i]).data is None by {
                if i > 0 {
                    assert(results@[i] == before[i - 1]);
                }
            }
        }
    }
    assert(reply_views(results@) =~= Seq::new(all.len(), |i: int| recorded(all[i])));
    MultiShardResult { results, successful_operations: successful, failed_operations: failed }
}

proof fn lemma_answered_bound(os: Seq<ShardOutcome>, n: nat)
    ensures
        answered(os, n) <= n,
    decreases n,
{
    if n > 0 {
        lemma_answered_bound(os, (n - 1) as nat);
    }
}

/// The verdict on a fan-out that must succeed everywhere: success exactly when every
/// shard answered with success; otherwise a failure that names the shards that did
/// not.
pub fn fan_out_verdict(result: &MultiShardResult) -> (r: Result<(), FanOutFailure>)
    ensures
        r is Ok <==> all_succeeded(reply_views(result.results@)),
        r matches Err(f) ==> {
            &&& f.kind == DbError::RemoteError
            &&& Seq::new(f.failed_shards@.len(), |i: int| f.failed_shards@[i]@) == failed_ids(
                reply_views(result.results@),
            )
            &&& f.failed_shards@.len() > 0
            &&& f.message@ == failure_message(failed_ids(reply_views(result.results@)))
        },
{
    let ghost rs = reply_views(result.results@);
    let mut failed: Vec<String> = Vec::new();
    let mut message = "failed on shards: ".to_owned();
    let mut i: usize = 0;
    assert(failed_ids(rs.take(0)) =~= Seq::<Seq<char>>::empty());
    assert(message@ =~= failure_message(Seq::<Seq<char>>::empty()));
    while i < result.results.len()
        invariant
            0 <= i <= result.results@.len(),
            rs == reply_views(result.results@),
            Seq::new(failed@.len(), |t: int| failed@[t]@) == failed_ids(rs.take(i as int)),
            message@ == failure_message(failed_ids(rs.take(i as int))),
            failed@.len() == 0 <==> all_succeeded(rs.take(i as int)),
        decreases result.results.len() - i,
    {
        let ghost done = Seq::new(failed@.len(), |t: int| failed@[t]@);
        proof {
            let upto = rs.take(i + 1);
            assert(upto.drop_last() =~= rs.take(i as int));
            assert(upto.last() == rs[i as int]);
        }
        if !result.results[i].success {
            let id = result.results[i].shard_id.clone();
            message.append(id.as_str());
            message.append(" ");
            failed.push(id);
            proof {
                let upto = rs.take(i + 1);
                assert(Seq::new(failed@.len(), |t: int| failed@[t]@) =~= done.push(rs[i as int].shard_id));
                let grown = done.push(rs[i as int].shard_id);
                assert(failed_ids(upto) == grown);
                assert(grown.drop_last() =~= done);
                assert(grown.last() == rs[i as int].shard_id);
                assert(listed_text(grown) == listed_text(done) + rs[i as int].shard_id + " "@);
                assert(message@ =~= failure_message(failed_ids(upto)));
                assert(!upto[i as int].success);
            }
        } else {
            proof {
                let upto = rs.take(i + 1);
                let prev = rs.take(i as int);
                if all_succeeded(prev) {
                    assert forall|t: int| 0 <= t < upto.len() implies (#[trigger] upto[t]).success by {
                        if t < i {
                            assert(prev[t].success);
                        }
                    }
                } else {
                    let t = choose|t: int| 0 <= t < prev.len() && !(#[trigger] prev[t]).success;
                    assert(!upto[t].success);
                }
            }
        }
        i += 1;
    }
    assert(rs.take(i as int) == rs);
    if failed.len() == 0 {
        Ok(())
    } else {
        Err(FanOutFailure { kind: DbError::RemoteError, failed_shards: failed, message })
    }
}

/// The position of the first answer that reports success and carries data.
pub open spec fn is_first_hit(rs: Seq<ShardResponse>, i: int) -> bool {
    &&& 0 <= i < rs.len()
    &&& rs[i].success && rs[i].data is Some
    &&& forall|j: int| 0 <= j < i ==> !((#[trigger] rs[j]).success && rs[j].data is Some)
}

/// First success wins: the position of the first answer that reports success and
/// carries data; none where no shard has one.
pub fn first_success(responses: &Vec<ShardResponse>) -> (r: Option<usize>)
    ensures
        match r {
            Some(i) => is_first_hit(responses@, i as int),
            None => forall|j: int|
                0 <= j < responses@.len() ==> !((#[trigger] responses@[j]).success && responses@[j].data
                    is Some),
        },
{
    let mut i: usize = 0;
    while i < responses.len()
        invariant
            0 <= i <= responses@.len(),
            forall|j: int|
                0 <= j < i ==> !((#[trigger] responses@[j]).success && responses@[j].data is Some),
        decreases responses.len() - i,
    {
        if responses[i].success && responses[i].data.is_some() {
            return Some(i);
        }
        i += 1;
    }
    None
}

/// The answer reports success and carries a vector.
pub open spec fn carries_vector(r: ShardResponse) -> bool {
    r.success && r.data is Some && r.data->Some_0 is Vector
}

/// The answer reports success and carries a collection's description.
pub open spec fn carries_collection(r: ShardResponse) -> bool {
    r.success && r.data is Some && r.data->Some_0 is Collection
}

/// The position of the first answer that carries a vector.
pub fn first_vector(responses: &Vec<ShardResponse>) -> (r: Option<usize>)
    ensures
        match r {
            Some(i) => i < responses@.len() && carries_vector(responses@[i as int]) && forall|j: int|
                0 <= j < i ==> !carries_vector(#[trigger] responses@[j]),
            None => forall|j: int| 0 <= j < responses@.len() ==> !carries_vector(#[trigger] responses@[j]),
        },
{
    let mut i: usize = 0;
    while i < responses.len()
        invariant
            0 <= i <= responses@.len(),
            forall|j: int| 0 <= j < i ==> !carries_vector(#[trigger] responses@[j]),
        decreases responses.len() - i,
    {
        if responses[i].success {
            match &responses[i].data {
                Some(ResponseData::Vector(_)) => {
                    return Some(i);
                },
                _ => {},
            }
        }
        i += 1;
    }
    None
}

/// The position of the first answer that carries a collection's description.
pub fn first_collection(responses: &Vec<ShardResponse>) -> (r: Option<usize>)
    ensures
        match r {
            Some(i) => i < responses@.len() && carries_collection(responses@[i as int]) && forall|j: int|
                0 <= j < i ==> !carries_collection(#[trigger] responses@[j]),
            None => forall|j: int|
                0 <= j < responses@.len() ==> !carries_collection(#[trigger] responses@[j]),
        },
{
    let mut i: usize = 0;
    while i < responses.len()
        invariant
            0 <= i <= responses@.len(),
            forall|j: int| 0 <= j < i ==> !carries_collection(#[trigger] responses@[j]),
        decreases responses.len() - i,
    {
        if responses[i].success {
            match &responses[i].data {
                Some(ResponseData::Collection(_)) => {
                    return Some(i);
                },
                _ => {},
            }
        }
        i += 1;
    }
    None
}

/// The result lists of the answers that report success and carry search results, in
/// order.
pub open spec fn result_lists(rs: Seq<ShardResponse>) -> Seq<Seq<Hit>>
    decreases rs.len(),
{
    if rs.len() == 0 {
        Seq::empty()
    } else if rs.last().success && rs.last().data is Some && rs.last().data->Some_0 is Results {
        result_lists(rs.drop_last()).push(rs.last().data->Some_0->Results_0@)
    } else {
        result_lists(rs.drop_last())
    }
}

/// Takes the result lists out of the answers of a search that was sent to all shards:
/// those of the shards that report success, in order.
pub fn search_lists(responses: &Vec<ShardResponse>) -> (lists: Vec<Vec<Hit>>)
    ensures
        hit_lists(&lists) == result_lists(responses@),
{
    let mut lists: Vec<Vec<Hit>> = Vec::new();
    let mut i: usize = 0;
    assert(hit_lists(&lists) =~= result_lists(responses@.take(0)));
    while i < responses.len()
        invariant
            0 <= i <= responses@.len(),
            hit_lists(&lists) == result_lists(responses@.take(i as int)),
        decreases responses.len() - i,
    {
        let ghost done = hit_lists(&lists);
        proof {
            let upto = responses@.take(i + 1);
            assert(upto.drop_last() =~= responses@.take(i as int));
            assert(upto.last() == responses@[i as int]);
        }
        if responses[i].success {
            match &responses[i].data {
                Some(ResponseData::Results(hits)) => {
                    let mut copy: Vec<Hit> = Vec::new();
                    let mut t: usize = 0;
                    while t < hits.len()
                        invariant
                            0 <= t <= hits@.len(),
                            copy@ == hits@.take(t as int),
                        decreases hits.len() - t,
                    {
                        copy.push(hits[t]);
                        assert(copy@ =~= hits@.take(t + 1));
                        t += 1;
                    }
                    assert(hits@.take(t as int) == hits@);
                    lists.push(copy);
                    assert(hit_lists(&lists) =~= done.push(hits@));
                },
                _ => {},
            }
        }
        i += 1;
    }
    assert(responses@.take(i as int) == responses@);
    lists
}

/// Found anywhere: success where some shard reports success, else `NotFound`.
pub fn found_anywhere(responses: &Vec<ShardResponse>) -> (r: Result<(), DbError>)
    ensures
        r == if any_succeeded(reply_views(responses@)) {
            Ok::<(), DbError>(())
        } else {
            Err::<(), DbError>(DbError::NotFound)
        },
{
    let ghost rs = reply_views(responses@);
    let mut i: usize = 0;
    while i < responses.len()
        invariant
            0 <= i <= responses@.len(),
            rs == reply_views(responses@),
            forall|j: int| 0 <= j < i ==> !(#[trigger] rs[j]).success,
        decreases responses.len() - i,
    {
        if responses[i].success {
            assert(rs[i as int].success);
            return Ok(());
        }
        i += 1;
    }
    Err(DbError::NotFound)
}

/// The numbers of `s` ascend strictly.
pub open spec fn strictly_ascending(s: Seq<u64>) -> bool {
    forall|i: int, j: int| 0 <= i < j < s.len() ==> s[i] < s[j]
}

/// The identifiers given, each once, in ascending order.
pub fn sort_dedup(ids: &Vec<u64>) -> (out: Vec<u64>)
    ensures
        strictly_ascending(out@),
        forall|x: u64| out@.contains(x) <==> ids@.contains(x),
{
    let mut out: Vec<u64> = Vec::new();
    let mut i: usize = 0;
    while i < ids.len()
        invariant
            0 <= i <= ids@.len(),
            strictly_ascending(out@),
            forall|x: u64| out@.contains(x) <==> ids@.take(i as int).contains(x),
        decreases ids.len() - i,
    {
        let x = ids[i];
        let mut pos: usize = 0;
        while pos < out.len() && out[pos] < x
            invariant
                0 <= pos <= out@.len(),
                strictly_ascending(out@),
                forall|a: int| 0 <= a < pos ==> out@[a] < x,
            decreases out.len() - pos,
        {
            pos += 1;
        }
        let ghost before = out@;
        let ghost seen = ids@.take(i as int);
        let ghost next = ids@.take(i + 1);
        proof {
            assert(next =~= seen.push(x));
        }
        if pos < out.len() && out[pos] == x {
            proof {
                assert(before[pos as int] == x);
                assert(before.contains(x));
                assert forall|y: u64| out@.contains(y) <==> next.contains(y) by {
                    assert(before.contains(y) <==> seen.contains(y));
                    if next.contains(y) {
                        let t = choose|t: int| 0 <= t < next.len() && next[t] == y;
                        if t < seen.len() {
                            assert(seen[t] == y);
                            assert(seen.contains(y));
                        }
                    }
                    if seen.contains(y) {
                        let t = choose|t: int| 0 <= t < seen.len() && seen[t] == y;
                        assert(next[t] == y);
                    }
                }
            }
        } else {
            out.insert(pos, x);
            proof {
                let after = out@;
                assert(after == before.insert(pos as int, x));
                assert forall|a: int, b: int| 0 <= a < b < after.len() implies after[a] < after[b] by {
                    let a0 = if a < pos { a } else { a - 1 };
                    let b0 = if b < pos { b } else { b - 1 };
                    if a != pos && b != pos {
                        assert(before[a0] < before[b0]);
                    } else if a == pos {
                        assert(before[b0] >= before[pos as int]);
                    }
                }
                assert forall|y: u64| after.contains(y) <==> next.contains(y) by {
                    assert(before.contains(y) <==> seen.contains(y));
                    if after.contains(y) {
                        let t = choose|t: int| 0 <= t < after.len() && after[t] == y;
                        if t < pos {
                            assert(before[t] == y);
                            assert(before.contains(y));
                        } else if t > pos {
                            assert(before[t - 1] == y);
                            assert(before.contains(y));
                        } else {
                            assert(next[i as int] == y);
                        }
                        if seen.contains(y) {
                            let u = choose|u: int| 0 <= u < seen.len() && seen[u] == y;
                            assert(next[u] == y);
                        }
                    }
                    if next.contains(y) {
                        let t = choose|t: int| 0 <= t < next.len() && next[t] == y;
                        if t < seen.len() {
                            assert(seen[t] == y);
                            assert(seen.contains(y));
                            let u = choose|u: int| 0 <= u < before.len() && before[u] == y;
                            if u < pos {
                                assert(after[u] == y);
                            } else {
                                assert(after[u + 1] == y);
                            }
                        } else {
                            assert(after[pos as int] == y);
                        }
                    }
                }
            }
        }
        i += 1;
    }
    assert(ids@.take(i as int) == ids@);
    out
}

/// The lists of hits as plain sequences.
pub open spec fn hit_lists(lists: &Vec<Vec<Hit>>) -> Seq<Seq<Hit>> {
    Seq::new(lists@.len(), |s: int| lists@[s]@)
}

/// All lists joined, in order.
pub open spec fn concat_hits(lists: Seq<Seq<Hit>>) -> Seq<Hit>
    decreases lists.len(),
{
    if lists.len() == 0 {
        Seq::empty()
    } else {
        concat_hits(lists.drop_last()) + lists.last()
    }
}

/// Merges the per-shard results of a search: all lists joined, ordered by score from
/// the highest down, cut to the best `k`. Hits of equal score keep the order in which
/// they stand in the joined lists.
pub fn merge_hits(lists: &Vec<Vec<Hit>>, k: usize) -> (out: Vec<Hit>)
    ensures
        out@ == ranked(concat_hits(hit_lists(lists)), k as int),
        is_sorted_prefix(concat_hits(hit_lists(lists)), out@, k as int),
{
    let ghost all = hit_lists(lists);
    let mut flat: Vec<Hit> = Vec::new();
    let mut scores: Vec<u32> = Vec::new();
    let mut s: usize = 0;
    assert(scores@ =~= hit_scores(flat@));
    while s < lists.len()
        invariant
            0 <= s <= lists@.len(),
            all == hit_lists(lists),
            flat@ == concat_hits(all.take(s as int)),
            scores@ == hit_scores(flat@),
        decreases lists.len() - s,
    {
        let list = &lists[s];
        let ghost head = flat@;
        let mut i: usize = 0;
        while i < list.len()
            invariant
                0 <= i <= list@.len(),
                flat@ == head + list@.take(i as int),
                scores@ == hit_scores(flat@),
            decreases list.len() - i,
        {
            flat.push(list[i]);
            scores.push(list[i].2);
            proof {
                assert(list@.take(i + 1) =~= list@.take(i as int).push(list@[i as int]));
                assert(flat@ =~= head + list@.take(i + 1));
                assert(scores@ =~= hit_scores(flat@));
            }
            i += 1;
        }
        proof {
            assert(list@.take(i as int) =~= list@);
            assert(all.take(s + 1).drop_last() =~= all.take(s as int));
            assert(all.take(s + 1).last() == list@);
        }
        s += 1;
    }
    assert(all.take(s as int) == all);
    let picked = top_k(&scores, k);
    proof {
        lemma_best(scores@, k as int, picked@);
    }
    let mut out: Vec<Hit> = Vec::new();
    let mut r: usize = 0;
    while r < picked.len()
        invariant
            0 <= r <= picked.len(),
            forall|t: int| 0 <= t < picked@.len() ==> (#[trigger] picked@[t]) < flat@.len(),
            out@ == pick_hits(flat@, picked@.take(r as int)),
        decreases picked.len() - r,
    {
        out.push(flat[picked[r]]);
        proof {
            assert(out@ =~= pick_hits(flat@, picked@.take(r + 1)));
        }
        r += 1;
    }
    proof {
        assert(picked@.take(r as int) == picked@);
        assert(flat@.len() == flat.len());
        crate::search::lemma_ranked_is_sorted_prefix(flat@, k as int);
    }
    out
}

/// The descriptions that the answers of all shards carry: those of the shards that
/// report success with a list of collections, in order.
#[verifier::opaque]
pub open spec fn described(rs: Seq<ShardResponse>) -> Seq<CollectionInfo>
    decreases rs.len(),
{
    if rs.len() == 0 {
        Seq::empty()
    } else if carries_list(rs.last()) {
        described(rs.drop_last()) + rs.last().data->Some_0->Collections_0@
    } else {
        described(rs.drop_last())
    }
}

/// The answer reports success and carries a list of collections.
pub open spec fn carries_list(r: ShardResponse) -> bool {
    r.success && r.data is Some && r.data->Some_0 is Collections
}

/// Appends copies of the descriptions in `src` to `out`.
pub fn append_infos(out: &mut Vec<CollectionInfo>, src: &Vec<CollectionInfo>)
    ensures
        final(out)@ == old(out)@ + src@,
{
    let mut t: usize = 0;
    while t < src.len()
        invariant
            0 <= t <= src@.len(),
            out@ == old(out)@ + src@.take(t as int),
        decreases src.len() - t,
    {
        let c = &src[t];
        out.push(
            CollectionInfo {
                name: c.name.clone(),
                metric: c.metric,
                dimension: c.dimension,
                total_vectors: c.total_vectors,
                total_buckets: c.total_buckets,
            },
        );
        proof {
            assert(src@.take(t + 1) =~= src@.take(t as int).push(src@[t as int]));
            assert(out@ =~= old(out)@ + src@.take(t + 1));
        }
        t += 1;
    }
    assert(src@.take(t as int) =~= src@);
}

/// The list of collections that an answer carries, if it reports success with one.
pub fn carried_list(r: &ShardResponse) -> (list: Option<&Vec<CollectionInfo>>)
    ensures
        match list {
            Some(l) => carries_list(*r) && *l == r.data->Some_0->Collections_0,
            None => !carries_list(*r),
        },
{
    if !r.success {
        return None;
    }
    match &r.data {
        Some(ResponseData::Collections(list)) => Some(list),
        _ => None,
    }
}

/// What one more answer adds to the descriptions taken.
pub proof fn lemma_described_step(rs: Seq<ShardResponse>)
    requires
        rs.len() > 0,
    ensures
        described(rs) == if carries_list(rs.last()) {
            described(rs.drop_last()) + rs.last().data->Some_0->Collections_0@
        } else {
            described(rs.drop_last())
        },
{
    reveal(described);
}

/// No answers carry no descriptions.
pub proof fn lemma_described_none()
    ensures
        described(Seq::empty()) == Seq::<CollectionInfo>::empty(),
{
    reveal(described);
}

/// Takes the descriptions of collections out of the answers of all shards.
pub fn collection_infos(responses: &Vec<ShardResponse>) -> (infos: Vec<CollectionInfo>)
    ensures
        infos@ == described(responses@),
{
    let mut infos: Vec<CollectionInfo> = Vec::new();
    let mut i: usize = 0;
    proof {
        lemma_described_none();
        assert(responses@.take(0) =~= Seq::<ShardResponse>::empty());
    }
    while i < responses.len()
        invariant
            0 <= i <= responses@.len(),
            infos@ == described(responses@.take(i as int)),
        decreases responses.len() - i,
    {
        let ghost upto = responses@.take(i + 1);
        proof {
            assert(upto.drop_last() =~= responses@.take(i as int));
            assert(upto.last() == responses@[i as int]);
            lemma_described_step(upto);
        }
        match carried_list(&responses[i]) {
            Some(list) => {
                append_infos(&mut infos, list);
            },
            None => {},
        }
        i += 1;
    }
    assert(responses@.take(i as int) == responses@);
    infos
}

/// The names of the collections described.
pub open spec fn info_names(infos: Seq<CollectionInfo>) -> Seq<Seq<char>> {
    Seq::new(infos.len(), |i: int| infos[i].name@)
}

/// The names of `names` ascend strictly.
pub open spec fn names_ascend(names: Seq<Seq<char>>) -> bool {
    forall|i: int, j: int| 0 <= i < j < names.len() ==> str_lt(#[trigger] names[i], #[trigger] names[j])
}

/// Putting a new name at its place keeps the names ascending and adds just that name.
pub proof fn lemma_sorted_insert(names: Seq<Seq<char>>, key: Seq<char>, pos: int)
    requires
        names_ascend(names),
        0 <= pos <= names.len(),
        forall|a: int| 0 <= a < pos ==> str_lt(#[trigger] names[a], key),
        pos < names.len() ==> !str_lt(names[pos], key),
        !names.contains(key),
    ensures
        names_ascend(names.insert(pos, key)),
        forall|m: Seq<char>| names.insert(pos, key).contains(m) <==> (m == key || names.contains(m)),
{
    let after = names.insert(pos, key);
    assert forall|b: int| pos <= b < names.len() implies str_lt(key, #[trigger] names[b]) by {
        let kp = names[pos];
        assert(kp != key) by {
            if kp == key {
                assert(names.contains(key));
            }
        }
        crate::text::lemma_str_bytes_injective(kp, key);
        crate::text::lemma_lex_total(vstd::utf8::encode_utf8(kp), vstd::utf8::encode_utf8(key));
        if b > pos {
            assert(str_lt(names[pos], names[b]));
            crate::text::lemma_lex_transitive(
                vstd::utf8::encode_utf8(key),
                vstd::utf8::encode_utf8(kp),
                vstd::utf8::encode_utf8(names[b]),
            );
        }
    }
    assert forall|a: int, b: int| 0 <= a < b < after.len() implies str_lt(
        #[trigger] after[a],
        #[trigger] after[b],
    ) by {
        if b < pos {
            assert(after[a] == names[a] && after[b] == names[b]);
        } else if b == pos {
            assert(after[a] == names[a]);
        } else if a == pos {
            assert(after[b] == names[b - 1]);
        } else if a < pos {
            assert(after[a] == names[a] && after[b] == names[b - 1]);
        } else {
            assert(after[a] == names[a - 1] && after[b] == names[b - 1]);
        }
    }
    assert forall|m: Seq<char>| after.contains(m) <==> (m == key || names.contains(m)) by {
        if after.contains(m) {
            let t = choose|t: int| 0 <= t < after.len() && after[t] == m;
            if t < pos {
                assert(names[t] == m);
            } else if t > pos {
                assert(names[t - 1] == m);
            }
        }
        if names.contains(m) {
            let t = choose|t: int| 0 <= t < names.len() && names[t] == m;
            if t < pos {
                assert(after[t] == m);
            } else {
                assert(after[t + 1] == m);
            }
        }
        if m == key {
            assert(after[pos] == m);
        }
    }
}

/// `c` is the first of `all` under its name.
pub open spec fn is_first_named(all: Seq<CollectionInfo>, c: CollectionInfo) -> bool {
    exists|i: int|
        0 <= i < all.len() && #[trigger] all[i] == c && forall|j: int|
            0 <= j < i ==> (#[trigger] all[j]).name@ != c.name@
}

/// Of the first `done` descriptions of `all`, `out` holds every name once, in
/// ascending order, each under the first description given for it.
pub open spec fn merged_upto(all: Seq<CollectionInfo>, done: int, out: Seq<CollectionInfo>) -> bool {
    &&& names_ascend(info_names(out))
    &&& forall|n: Seq<char>| info_names(out).contains(n) <==> info_names(all.take(done)).contains(n)
    &&& forall|t: int| 0 <= t < out.len() ==> is_first_named(all, #[trigger] out[t])
}

/// The names of one description more are those before and its own.
proof fn lemma_names_grow(all: Seq<CollectionInfo>, done: int)
    requires
        0 <= done < all.len(),
    ensures
        forall|m: Seq<char>|
            info_names(all.take(done + 1)).contains(m) <==> (m == all[done].name@ || info_names(
                all.take(done),
            ).contains(m)),
{
    let seen = info_names(all.take(done));
    let next = info_names(all.take(done + 1));
    assert(next =~= seen.push(all[done].name@));
    assert forall|m: Seq<char>| next.contains(m) <==> (m == all[done].name@ || seen.contains(m)) by {
        if seen.contains(m) {
            let u = choose|u: int| 0 <= u < seen.len() && seen[u] == m;
            assert(next[u] == m);
        }
        if next.contains(m) {
            let u = choose|u: int| 0 <= u < next.len() && next[u] == m;
            if u < seen.len() {
                assert(seen[u] == m);
            }
        }
        if m == all[done].name@ {
            assert(next[done] == m);
        }
    }
}

/// A description under a name already held changes nothing of what is merged.
proof fn lemma_merge_keep(all: Seq<CollectionInfo>, done: int, out: Seq<CollectionInfo>)
    requires
        0 <= done < all.len(),
        merged_upto(all, done, out),
        info_names(out).contains(all[done].name@),
    ensures
        merged_upto(all, done + 1, out),
{
    lemma_names_grow(all, done);
}

/// A description under a new name, put where the names stay in order, is merged.
proof fn lemma_merge_insert(all: Seq<CollectionInfo>, done: int, out: Seq<CollectionInfo>, pos: int)
    requires
        0 <= done < all.len(),
        merged_upto(all, done, out),
        !info_names(out).contains(all[done].name@),
        0 <= pos <= out.len(),
        names_ascend(info_names(out.insert(pos, all[done]))),
    ensures
        merged_upto(all, done + 1, out.insert(pos, all[done])),
{
    let info = all[done];
    let key = info.name@;
    let after = out.insert(pos, info);
    let names = info_names(out);
    let seen = info_names(all.take(done));
    lemma_names_grow(all, done);
    assert(info_names(after) =~= names.insert(pos, key));
    assert forall|m: Seq<char>| info_names(after).contains(m) <==> (m == key || names.contains(m)) by {
        let grown = names.insert(pos, key);
        if grown.contains(m) {
            let t = choose|t: int| 0 <= t < grown.len() && grown[t] == m;
            if t < pos {
                assert(names[t] == m);
            } else if t > pos {
                assert(names[t - 1] == m);
            }
        }
        if names.contains(m) {
            let t = choose|t: int| 0 <= t < names.len() && names[t] == m;
            if t < pos {
                assert(grown[t] == m);
            } else {
                assert(grown[t + 1] == m);
            }
        }
        if m == key {
            assert(grown[pos] == m);
        }
    }
    assert forall|m: Seq<char>| info_names(after).contains(m) <==> info_names(all.take(done + 1)).contains(
        m,
    ) by {
        assert(names.contains(m) <==> seen.contains(m));
    }
    assert forall|t: int| 0 <= t < after.len() implies is_first_named(all, #[trigger] after[t]) by {
        if t == pos {
            assert forall|j: int| 0 <= j < done implies (#[trigger] all[j]).name@ != key by {
                if all[j].name@ == key {
                    assert(seen[j] == key);
                    assert(seen.contains(key));
                }
            }
            assert(all[done] == after[t]);
        } else {
            let t0 = if t < pos {
                t
            } else {
                t - 1
            };
            assert(after[t] == out[t0]);
            assert(is_first_named(all, out[t0]));
        }
    }
}

/// Puts a description at the place of its name among ascending names, unless the
/// name is there already. Gives the place, or nothing where the name was there.
fn place_named(out: &mut Vec<CollectionInfo>, info: CollectionInfo) -> (place: Option<usize>)
    requires
        names_ascend(info_names(old(out)@)),
    ensures
        match place {
            Some(pos) => {
                &&& !info_names(old(out)@).contains(info.name@)
                &&& pos <= old(out)@.len()
                &&& final(out)@ == old(out)@.insert(pos as int, info)
                &&& names_ascend(info_names(final(out)@))
            },
            None => info_names(old(out)@).contains(info.name@) && final(out)@ == old(out)@,
        },
{
    let ghost before = out@;
    let ghost names = info_names(before);
    let ghost key = info.name@;
    let mut pos: usize = 0;
    while pos < out.len() && str_before(out[pos].name.as_str(), info.name.as_str())
        invariant
            0 <= pos <= out@.len(),
            out@ == before,
            names == info_names(before),
            key == info.name@,
            forall|a: int| 0 <= a < pos ==> str_lt(#[trigger] names[a], key),
        decreases out.len() - pos,
    {
        pos += 1;
    }
    if pos < out.len() && str_eq(out[pos].name.as_str(), info.name.as_str()) {
        proof {
            assert(names[pos as int] == key);
        }
        None
    } else {
        proof {
            assert(pos < names.len() ==> !str_lt(names[pos as int], key));
            assert(!names.contains(key)) by {
                if names.contains(key) {
                    let t = choose|t: int| 0 <= t < names.len() && names[t] == key;
                    crate::text::lemma_lex_irreflexive(vstd::utf8::encode_utf8(key));
                    if t < pos {
                        assert(str_lt(names[t], key));
                    } else if t > pos {
                        assert(str_lt(names[pos as int], names[t]));
                    }
                }
            }
            lemma_sorted_insert(names, key, pos as int);
        }
        out.insert(pos, info);
        proof {
            assert(info_names(out@) =~= names.insert(pos as int, key));
        }
        Some(pos)
    }
}

/// Merges the collection lists of all shards: every name once, in ascending order;
/// of several descriptions under one name the first one given is kept.
pub fn merge_collections(infos: Vec<CollectionInfo>) -> (out: Vec<CollectionInfo>)
    ensures
        names_ascend(info_names(out@)),
        forall|n: Seq<char>| info_names(out@).contains(n) <==> info_names(infos@).contains(n),
        forall|t: int| 0 <= t < out@.len() ==> is_first_named(infos@, #[trigger] out@[t]),
{
    let mut rest = infos;
    let mut out: Vec<CollectionInfo> = Vec::new();
    let ghost all = infos@;
    let ghost done: int = 0;
    assert(info_names(all.take(0)) =~= Seq::<Seq<char>>::empty());
    assert(info_names(out@) =~= Seq::<Seq<char>>::empty());
    while rest.len() > 0
        invariant
            0 <= done <= all.len(),
            rest@ == all.skip(done),
            merged_upto(all, done, out@),
        decreases rest@.len(),
    {
        let ghost before = out@;
        let info = rest.remove(0);
        proof {
            assert(info == all[done]);
            assert(rest@ =~= all.skip(done + 1));
        }
        let place = place_named(&mut out, info);
        proof {
            match place {
                Some(pos) => {
                    lemma_merge_insert(all, done, before, pos as int);
                },
                None => {
                    lemma_merge_keep(all, done, before);
                },
            }
            done = done + 1;
        }
    }
    proof {
        assert(all.skip(done).len() == 0);
        assert(all.take(done) =~= all);
    }
    out
}

/// A shard with the collection `name` struck from its record.
pub open spec fn struck(v: ShardView, name: Seq<char>) -> ShardView {
    ShardView { collections: without_collection(v.collections, name), ..v }
}

/// The shards with the collection `name` struck from the record of the first `n`.
pub open spec fn struck_upto(ss: Seq<ShardView>, name: Seq<char>, n: int) -> Seq<ShardView> {
    Seq::new(ss.len(), |j: int| if j < n { struck(ss[j], name) } else { ss[j] })
}

/// What a user is told of one shard's reply: the shard's data if it reports success;
/// the shard's own error text if it reports a failure; `RemoteError` if it says
/// neither; and `RemoteUnavailable` with the reason if no reply came.
pub open spec fn passed_on(reply: Result<ShardResponse, String>, r: RpcResponse) -> bool {
    match reply {
        Ok(answer) => if answer.success && answer.data is Some {
            r.status@ == "ok"@ && r.data == answer.data && r.message is None
        } else {
            r.status@ == "error"@ && r.data is None && r.message is Some && r.message->Some_0@ == (
            if !answer.success && answer.error is Some {
                answer.error->Some_0@
            } else {
                DbError::RemoteError.name()
            })
        },
        Err(reason) => r.status@ == "error"@ && r.data is None && r.message is Some
            && r.message->Some_0@ == DbError::RemoteUnavailable.name() + ": "@ + reason@,
    }
}

/// Passes one shard's reply on to the user.
pub fn passthrough(reply: Result<ShardResponse, String>) -> (r: RpcResponse)
    ensures
        passed_on(reply, r),
{
    match reply {
        Ok(answer) => {
            let ShardResponse { success, data, error, shard_id: _ } = answer;
            if success {
                match data {
                    Some(d) => RpcResponse::ok(d),
                    None => RpcResponse::error(DbError::RemoteError.to_string()),
                }
            } else {
                match error {
                    Some(e) => RpcResponse::error(e),
                    None => RpcResponse::error(DbError::RemoteError.to_string()),
                }
            }
        },
        Err(reason) => RpcResponse::error(
            DbError::RemoteUnavailable.to_string().concat(": ").concat(reason.as_str()),
        ),
    }
}

/// The identifiers that the owner's reply to a filter carries: those of a reply that
/// reports success with a list of identifiers, none otherwise.
pub open spec fn carried_ids(reply: Result<ShardResponse, String>) -> Seq<u64> {
    match reply {
        Ok(answer) => if answer.success && answer.data is Some && answer.data->Some_0 is VectorIds {
            answer.data->Some_0->VectorIds_0@
        } else {
            Seq::empty()
        },
        Err(_) => Seq::empty(),
    }
}

/// The coordinator's decisions: which shard a request goes to, and what the answers
/// of the shards add up to. Sending and receiving happen outside.
pub struct ShardCoordinator {
    pub shard_manager: ShardManager,
}

impl ShardCoordinator {
    /// A coordinator over the shards of `shard_manager`.
    pub fn new(shard_manager: ShardManager) -> (c: ShardCoordinator)
        ensures
            c.shard_manager == shard_manager,
    {
        ShardCoordinator { shard_manager }
    }

    /// The shards that a fan-out goes to: the active ones, in configured order.
    pub fn fan_out_targets(&self) -> (ids: Vec<String>)
        ensures
            crate::sharding::texts(ids@) == crate::sharding::active_ids(self.shard_manager.shards()),
    {
        self.shard_manager.active_shard_ids()
    }

    /// The shard that a new vector of `collection_name` is sent to.
    pub fn add_vector(&self, collection_name: &str) -> (r: Result<String, DbError>)
        ensures
            match r {
                Ok(id) => Ok::<Seq<char>, DbError>(id@),
                Err(e) => Err::<Seq<char>, DbError>(e),
            } == owner_of(
                self.shard_manager.shards(),
                crate::fold::fold64_bytes(vstd::string::StringSliceAdditionalSpecFns::spec_bytes(collection_name)),
            ),
    {
        self.shard_manager.get_shard_for_collection(collection_name)
    }

    /// Closes the creation of a collection on all shards. If every shard succeeded the
    /// collection is recorded with its owner; otherwise nothing is recorded and the
    /// failure names the shards that failed.
    pub fn create_collection(&mut self, name: String, results: &MultiShardResult) -> (r: Result<
        (),
        FanOutFailure,
    >)
        requires
            old(self).shard_manager.wf(),
        ensures
            final(self).shard_manager.wf(),
            r is Ok <==> all_succeeded(reply_views(results.results@)),
            r matches Err(f) ==> f.kind == DbError::RemoteError && f.message@ == failure_message(
                failed_ids(reply_views(results.results@)),
            ) && final(self).shard_manager.shards() == old(self).shard_manager.shards(),
            r is Ok ==> match owner_of(
                old(self).shard_manager.shards(),
                crate::fold::fold64_bytes(encode_utf8(name@)),
            ) {
                Ok(id) => {
                    let i = shard_index(old(self).shard_manager.shards(), id);
                    &&& final(self).shard_manager.same_but_shard(&old(self).shard_manager, i)
                    &&& final(self).shard_manager.shards()[i] == (ShardView {
                        collections: with_collection(
                            old(self).shard_manager.shards()[i].collections,
                            name@,
                        ),
                        ..old(self).shard_manager.shards()[i]
                    })
                },
                Err(_) => final(self).shard_manager.shards() == old(self).shard_manager.shards(),
            },
    {
        match fan_out_verdict(results) {
            Ok(_) => {
                match self.shard_manager.get_shard_for_collection(name.as_str()) {
                    Ok(owner) => {
                        proof {
                            lemma_owner_is_shard(
                                self.shard_manager.shards(),
                                crate::fold::fold64_bytes(encode_utf8(name@)),
                            );
                        }
                        let _ = self.shard_manager.add_collection_to_shard(owner.as_str(), name);
                    },
                    Err(_) => {},
                }
                Ok(())
            },
            Err(f) => Err(f),
        }
    }

    /// Closes the deletion of a collection on all shards. If every shard succeeded the
    /// collection is struck from every shard's record; otherwise the record stays and
    /// the failure names the shards that failed.
    pub fn delete_collection(&mut self, name: &str, results: &MultiShardResult) -> (r: Result<
        (),
        FanOutFailure,
    >)
        requires
            old(self).shard_manager.wf(),
        ensures
            final(self).shard_manager.wf(),
            r is Ok <==> all_succeeded(reply_views(results.results@)),
            r matches Err(f) ==> f.kind == DbError::RemoteError && f.message@ == failure_message(
                failed_ids(reply_views(results.results@)),
            ) && final(self).shard_manager.shards() == old(self).shard_manager.shards(),
            r is Ok ==> final(self).shard_manager.shards() == struck_upto(
                old(self).shard_manager.shards(),
                name@,
                old(self).shard_manager.shards().len() as int,
            ),
    {
        match fan_out_verdict(results) {
            Ok(_) => {
                let ids = self.shard_manager.shard_ids();
                let ghost before = self.shard_manager.shards();
                let mut i: usize = 0;
                assert(self.shard_manager.shards() =~= struck_upto(before, name@, 0));
                while i < ids.len()
                    invariant
                        0 <= i <= ids@.len(),
                        self.shard_manager.wf(),
                        ids@.len() == before.len(),
                        forall|j: int| 0 <= j < ids@.len() ==> (#[trigger] ids@[j])@ == before[j].id,
                        self.shard_manager.shards() == struck_upto(before, name@, i as int),
                    decreases ids.len() - i,
                {
                    let ghost mid = self.shard_manager.shards();
                    proof {
                        assert(mid[i as int] == before[i as int]);
                        crate::sharding::lemma_shard_index(mid, i as int);
                    }
                    let _ = self.shard_manager.remove_collection_from_shard(ids[i].as_str(), name);
                    proof {
                        let after = self.shard_manager.shards();
                        assert(after[i as int] == struck(before[i as int], name@));
                        assert forall|j: int| 0 <= j < after.len() implies after[j] == struck_upto(
                            before,
                            name@,
                            i + 1,
                        )[j] by {
                            if j != i {
                                assert(after[j] == mid[j]);
                            }
                        }
                        assert(after =~= struck_upto(before, name@, i + 1));
                    }
                    i += 1;
                }
                Ok(())
            },
            Err(f) => Err(f),
        }
    }

    /// Closes an update or a deletion of a vector that was sent to all shards.
    pub fn update_vector(&self, responses: &Vec<ShardResponse>) -> (r: Result<(), DbError>)
        ensures
            r == if any_succeeded(reply_views(responses@)) {
                Ok::<(), DbError>(())
            } else {
                Err::<(), DbError>(DbError::NotFound)
            },
    {
        found_anywhere(responses)
    }

    /// Closes the deletion of a vector that was sent to all shards.
    pub fn delete_vector(&self, responses: &Vec<ShardResponse>) -> (r: Result<(), DbError>)
        ensures
            r == if any_succeeded(reply_views(responses@)) {
                Ok::<(), DbError>(())
            } else {
                Err::<(), DbError>(DbError::NotFound)
            },
    {
        found_anywhere(responses)
    }

    /// Picks the answer to a fetch that was sent to all shards: the first that reports
    /// success and carries a vector.
    pub fn get_vector(&self, responses: &Vec<ShardResponse>) -> (r: Result<usize, DbError>)
        ensures
            match r {
                Ok(i) => i < responses@.len() && carries_vector(responses@[i as int]) && forall|j: int|
                    0 <= j < i ==> !carries_vector(#[trigger] responses@[j]),
                Err(e) => e == DbError::NotFound && forall|j: int|
                    0 <= j < responses@.len() ==> !carries_vector(#[trigger] responses@[j]),
            },
    {
        match first_vector(responses) {
            Some(i) => Ok(i),
            None => Err(DbError::NotFound),
        }
    }

    /// Picks the answer to a question about one collection that was sent to all shards:
    /// the first that reports success and carries a description; none where no shard
    /// knows the collection.
    pub fn get_collection(&self, responses: &Vec<ShardResponse>) -> (r: Option<usize>)
        ensures
            match r {
                Some(i) => i < responses@.len() && carries_collection(responses@[i as int])
                    && forall|j: int| 0 <= j < i ==> !carries_collection(#[trigger] responses@[j]),
                None => forall|j: int|
                    0 <= j < responses@.len() ==> !carries_collection(#[trigger] responses@[j]),
            },
    {
        first_collection(responses)
    }

    /// The report of a dump that was sent to all shards: every outcome, in order.
    pub fn dump_data(&self, outcomes: Vec<ShardOutcome>) -> (result: MultiShardResult)
        ensures
            reply_views(result.results@) == Seq::new(outcomes@.len(), |i: int| recorded(outcomes@[i])),
            result.successful_operations == answered(outcomes@, outcomes@.len()),
            result.failed_operations == outcomes@.len() - answered(outcomes@, outcomes@.len()),
    {
        collect(outcomes)
    }

    /// The report of a load that was sent to all shards: every outcome, in order.
    pub fn load_data(&self, outcomes: Vec<ShardOutcome>) -> (result: MultiShardResult)
        ensures
            reply_views(result.results@) == Seq::new(outcomes@.len(), |i: int| recorded(outcomes@[i])),
            result.successful_operations == answered(outcomes@, outcomes@.len()),
            result.failed_operations == outcomes@.len() - answered(outcomes@, outcomes@.len()),
    {
        collect(outcomes)
    }

    /// The result of a metadata filter: the owner's identifiers, each once, ascending.
    pub fn filter_by_metadata(&self, ids: &Vec<u64>) -> (out: Vec<u64>)
        ensures
            strictly_ascending(out@),
            forall|x: u64| out@.contains(x) <==> ids@.contains(x),
    {
        sort_dedup(ids)
    }

    /// The result of a metadata filter from the owner's reply: the identifiers that the
    /// reply carries, each once, ascending; none where the owner did not answer with
    /// success.
    pub fn filter_reply(&self, reply: Result<ShardResponse, String>) -> (out: Vec<u64>)
        ensures
            strictly_ascending(out@),
            forall|x: u64| out@.contains(x) <==> carried_ids(reply).contains(x),
    {
        match reply {
            Ok(answer) => {
                let ShardResponse { success, data, error: _, shard_id: _ } = answer;
                if success {
                    match data {
                        Some(ResponseData::VectorIds(ids)) => sort_dedup(&ids),
                        _ => Vec::new(),
                    }
                } else {
                    Vec::new()
                }
            },
            Err(_) => Vec::new(),
        }
    }

    /// The result of a search that was sent to all shards: the per-shard lists joined,
    /// ordered by score from the highest down, cut to the best `k`.
    pub fn find_similar_vectors(&self, lists: &Vec<Vec<Hit>>, k: usize) -> (out: Vec<Hit>)
        ensures
            out@ == ranked(concat_hits(hit_lists(lists)), k as int),
            is_sorted_prefix(concat_hits(hit_lists(lists)), out@, k as int),
    {
        merge_hits(lists, k)
    }

    /// The result of a search from the answers of all shards: the result lists of the
    /// shards that report success, merged.
    pub fn find_similar_across_shards(&self, responses: &Vec<ShardResponse>, k: usize) -> (out: Vec<Hit>)
        ensures
            out@ == ranked(concat_hits(result_lists(responses@)), k as int),
            is_sorted_prefix(concat_hits(result_lists(responses@)), out@, k as int),
    {
        let lists = search_lists(responses);
        merge_hits(&lists, k)
    }

    /// What is known of every shard of the cluster.
    pub fn get_cluster_statistics(&self) -> (stats: Vec<crate::sharding::ShardStatistics>)
        ensures
            stats@.len() == self.shard_manager.shards().len(),
            forall|i: int|
                0 <= i < stats@.len() ==> (#[trigger] stats@[i])@ == self.shard_manager.shards()[i]
                    && stats@[i].collections_count == self.shard_manager.shards()[i].collections.len(),
    {
        self.shard_manager.get_shards_statistics()
    }

    /// The collections of the cluster: every name once, in ascending order.
    pub fn get_all_collections(&self, infos: Vec<CollectionInfo>) -> (out: Vec<CollectionInfo>)
        ensures
            names_ascend(info_names(out@)),
            forall|n: Seq<char>| info_names(out@).contains(n) <==> info_names(infos@).contains(n),
            forall|t: int| 0 <= t < out@.len() ==> is_first_named(infos@, #[trigger] out@[t]),
    {
        merge_collections(infos)
    }
}

} // verus!
