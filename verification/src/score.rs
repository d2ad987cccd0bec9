//! The order of similarity scores given as bit patterns, and the best `k` of a list.

use vstd::prelude::*;

verus! {

/// The place of a similarity score, given as an IEEE-754 single-precision bit pattern,
/// on the number line: sign and magnitude read as one signed integer. The two zeros
/// share a place; for all other numbers the places are ordered as the numbers are.
pub open spec fn score_rank(bits: u32) -> int {
    if bits < 0x8000_0000 {
        bits as int
    } else {
        0x8000_0000 - bits
    }
}

/// Computes a score's place on the number line.
pub fn rank_of(bits: u32) -> (r: i64)
    ensures
        r == score_rank(bits),
{
    if bits < 0x8000_0000 {
        bits as i64
    } else {
        0x8000_0000i64 - (bits as i64)
    }
}

/// Position `i` is listed before position `j`: its score is higher, or the scores
/// tie and `i` is the earlier position.
pub open spec fn precedes(scores: Seq<u32>, i: int, j: int) -> bool {
    score_rank(scores[i]) > score_rank(scores[j]) || (score_rank(scores[i]) == score_rank(
        scores[j],
    ) && i < j)
}

/// `picked` lists the best `k` of the first `n` positions of `scores`, best first:
/// it is strictly ordered by `precedes`, and whatever it leaves out comes after
/// everything in it, which happens only once it holds `k` positions.
pub open spec fn is_top_k(scores: Seq<u32>, n: int, k: int, picked: Seq<usize>) -> bool {
    &&& picked.len() == if k <= n { k } else { n }
    &&& forall|r: int| 0 <= r < picked.len() ==> 0 <= #[trigger] picked[r] < n
    &&& forall|a: int, b: int|
        0 <= a < b < picked.len() ==> precedes(scores, #[trigger] picked[a] as int, #[trigger] picked[b] as int)
    &&& forall|p: int|
        0 <= p < n ==> #[trigger] listed(picked, p) || (picked.len() == k && forall|r: int|
            0 <= r < picked.len() ==> precedes(scores, #[trigger] picked[r] as int, p))
}

/// Position `p` occurs in `picked`.
pub open spec fn listed(picked: Seq<usize>, p: int) -> bool {
    exists|r: int| 0 <= r < picked.len() && #[trigger] picked[r] == p
}

/// There is only one list of the best `k` positions.
pub proof fn lemma_top_k_unique(scores: Seq<u32>, n: int, k: int, a: Seq<usize>, b: Seq<usize>)
    requires
        is_top_k(scores, n, k, a),
        is_top_k(scores, n, k, b),
    ensures
        a == b,
{
    assert(a.len() == b.len());
    assert forall|r: int| 0 <= r < a.len() implies a[r] == b[r] by {
        lemma_top_k_agree(scores, n, k, a, b, r);
    }
    assert(a =~= b);
}

proof fn lemma_top_k_agree(scores: Seq<u32>, n: int, k: int, a: Seq<usize>, b: Seq<usize>, r: int)
    requires
        is_top_k(scores, n, k, a),
        is_top_k(scores, n, k, b),
        0 <= r < a.len(),
    ensures
        a[r] == b[r],
    decreases r,
{
    assert forall|t: int| 0 <= t < r implies a[t] == b[t] by {
        lemma_top_k_agree(scores, n, k, a, b, t);
    }
    if a[r] != b[r] {
        let x = a[r] as int;
        let y = b[r] as int;
        // x is not among b[0..r], y is not among a[0..r]
        lemma_not_behind(scores, n, k, a, b, r);
        lemma_not_behind(scores, n, k, b, a, r);
        assert(precedes(scores, x, y) || precedes(scores, y, x));
    }
}

/// If two best-`k` lists agree below `r`, then `b[r]` does not come before `a[r]`
/// unless they are the same position.
proof fn lemma_not_behind(scores: Seq<u32>, n: int, k: int, a: Seq<usize>, b: Seq<usize>, r: int)
    requires
        is_top_k(scores, n, k, a),
        is_top_k(scores, n, k, b),
        0 <= r < a.len(),
        forall|t: int| 0 <= t < r ==> a[t] == b[t],
        a[r] != b[r],
    ensures
        !precedes(scores, a[r] as int, b[r] as int),
{
    let x = a[r] as int;
    if precedes(scores, x, b[r] as int) {
        if listed(b, x) {
            let t = choose|t: int| 0 <= t < b.len() && b[t] == x;
            if t < r {
                assert(a[t] == b[t]);
                assert(precedes(scores, a[t] as int, a[r] as int));
            } else {
                assert(t > r);
                assert(precedes(scores, b[r] as int, b[t] as int));
            }
        } else {
            assert(precedes(scores, b[r] as int, x));
        }
    }
}

/// The list after position `i` is offered to a list of the best `k` of the positions
/// before it: put in at `pos` if that is within the first `k` places, and the list cut
/// back to `k`.
pub open spec fn offered(before: Seq<usize>, pos: int, i: usize, k: int) -> Seq<usize> {
    if pos < k {
        if before.len() + 1 > k {
            before.insert(pos, i).subrange(0, k)
        } else {
            before.insert(pos, i)
        }
    } else {
        before
    }
}

/// `pos` is where position `i` belongs in `before`: after everything that scores at
/// least as high, before everything that scores lower.
pub open spec fn is_place(scores: Seq<u32>, before: Seq<usize>, i: int, pos: int) -> bool {
    &&& 0 <= pos <= before.len()
    &&& forall|a: int| 0 <= a < pos ==> score_rank(scores[#[trigger] before[a] as int]) >= score_rank(scores[i])
    &&& forall|b: int|
        pos <= b < before.len() ==> score_rank(scores[#[trigger] before[b] as int]) < score_rank(
            scores[i],
        )
}

/// Putting `i` at its place keeps the list ordered.
proof fn lemma_grown_ordered(scores: Seq<u32>, i: usize, k: int, before: Seq<usize>, pos: int)
    requires
        is_top_k(scores, i as int, k, before),
        is_place(scores, before, i as int, pos),
    ensures
        forall|a: int, b: int|
            0 <= a < b < before.insert(pos, i).len() ==> precedes(
                scores,
                #[trigger] before.insert(pos, i)[a] as int,
                #[trigger] before.insert(pos, i)[b] as int,
            ),
        forall|r: int|
            0 <= r < before.insert(pos, i).len() ==> 0 <= #[trigger] before.insert(pos, i)[r] < i + 1,
        forall|p: int| 0 <= p < i && #[trigger] listed(before, p) ==> listed(before.insert(pos, i), p),
        listed(before.insert(pos, i), i as int),
{
    let grown = before.insert(pos, i);
    assert forall|r: int| 0 <= r < grown.len() implies 0 <= #[trigger] grown[r] < i + 1 by {
        if r < pos {
            assert(grown[r] == before[r]);
        } else if r > pos {
            assert(grown[r] == before[r - 1]);
        }
    }
    assert forall|a: int, b: int| 0 <= a < b < grown.len() implies precedes(
        scores,
        #[trigger] grown[a] as int,
        #[trigger] grown[b] as int,
    ) by {
        if b < pos {
            assert(grown[a] == before[a] && grown[b] == before[b]);
        } else if b == pos {
            assert(grown[a] == before[a]);
            assert(before[a] < i);
        } else if a == pos {
            assert(grown[b] == before[b - 1]);
        } else if a < pos {
            assert(grown[a] == before[a] && grown[b] == before[b - 1]);
        } else {
            assert(grown[a] == before[a - 1] && grown[b] == before[b - 1]);
        }
    }
    assert forall|p: int| 0 <= p < i && #[trigger] listed(before, p) implies listed(grown, p) by {
        let r = choose|r: int| 0 <= r < before.len() && before[r] == p;
        if r < pos {
            assert(grown[r] == p);
        } else {
            assert(grown[r + 1] == p);
        }
    }
    assert(grown[pos] == i);
}

/// Offering `i` where the list is full and `i` belongs behind it changes nothing.
proof fn lemma_offer_behind(scores: Seq<u32>, i: usize, k: int, before: Seq<usize>, pos: int)
    requires
        is_top_k(scores, i as int, k, before),
        is_place(scores, before, i as int, pos),
        i < scores.len(),
        pos >= k,
    ensures
        is_top_k(scores, i + 1, k, before),
{
    assert(before.len() == k);
    assert forall|p: int| 0 <= p < i + 1 implies #[trigger] listed(before, p) || (before.len() == k
        && forall|r: int| 0 <= r < before.len() ==> precedes(scores, #[trigger] before[r] as int, p)) by {
        if p == i {
            assert forall|r: int| 0 <= r < before.len() implies precedes(
                scores,
                #[trigger] before[r] as int,
                p,
            ) by {
                assert(score_rank(scores[before[r] as int]) >= score_rank(scores[i as int]));
                assert(before[r] < i);
            }
        }
    }
}

/// Offering `i` where the list has room puts it in.
proof fn lemma_offer_room(scores: Seq<u32>, i: usize, k: int, before: Seq<usize>, pos: int)
    requires
        is_top_k(scores, i as int, k, before),
        is_place(scores, before, i as int, pos),
        i < scores.len(),
        pos < k,
        before.len() + 1 <= k,
    ensures
        is_top_k(scores, i + 1, k, before.insert(pos, i)),
{
    let grown = before.insert(pos, i);
    lemma_grown_ordered(scores, i, k, before, pos);
    assert forall|p: int| 0 <= p < i + 1 implies #[trigger] listed(grown, p) || (grown.len() == k
        && forall|r: int| 0 <= r < grown.len() ==> precedes(scores, #[trigger] grown[r] as int, p)) by {
        if p < i {
            assert(listed(before, p));
        }
    }
}

/// Offering `i` where the list is full and `i` belongs inside it pushes the last one
/// out.
proof fn lemma_offer_full(scores: Seq<u32>, i: usize, k: int, before: Seq<usize>, pos: int)
    requires
        is_top_k(scores, i as int, k, before),
        is_place(scores, before, i as int, pos),
        i < scores.len(),
        pos < k,
        before.len() + 1 > k,
    ensures
        is_top_k(scores, i + 1, k, before.insert(pos, i).subrange(0, k)),
{
    let grown = before.insert(pos, i);
    let cut = grown.subrange(0, k);
    let last = grown[k];
    lemma_grown_ordered(scores, i, k, before, pos);
    assert(before.len() == k);
    assert(last == before[k - 1]);
    assert forall|r: int| 0 <= r < cut.len() implies precedes(scores, #[trigger] cut[r] as int, last as int) by {
        assert(cut[r] == grown[r]);
        assert(precedes(scores, grown[r] as int, grown[k] as int));
    }
    assert forall|a: int, b: int| 0 <= a < b < cut.len() implies precedes(
        scores,
        #[trigger] cut[a] as int,
        #[trigger] cut[b] as int,
    ) by {
        assert(cut[a] == grown[a] && cut[b] == grown[b]);
    }
    assert forall|r: int| 0 <= r < cut.len() implies 0 <= #[trigger] cut[r] < i + 1 by {
        assert(cut[r] == grown[r]);
    }
    assert forall|p: int| 0 <= p < i + 1 implies #[trigger] listed(cut, p) || (cut.len() == k
        && forall|r: int| 0 <= r < cut.len() ==> precedes(scores, #[trigger] cut[r] as int, p)) by {
        if listed(grown, p) {
            let t = choose|t: int| 0 <= t < grown.len() && grown[t] == p;
            if t < k {
                assert(cut[t] == p);
            } else {
                assert(p == last);
            }
        } else {
            assert(p != i);
            assert(!listed(before, p));
            assert forall|r: int| 0 <= r < cut.len() implies precedes(
                scores,
                #[trigger] cut[r] as int,
                p,
            ) by {
                assert(precedes(scores, cut[r] as int, last as int));
                assert(precedes(scores, before[k - 1] as int, p));
            }
        }
    }
}

/// Offering position `i` to the best `k` of the positions before it gives the best `k`
/// of the positions up to it.
pub proof fn lemma_offer(scores: Seq<u32>, i: usize, k: int, before: Seq<usize>, pos: int)
    requires
        is_top_k(scores, i as int, k, before),
        is_place(scores, before, i as int, pos),
        i < scores.len(),
    ensures
        is_top_k(scores, i + 1, k, offered(before, pos, i, k)),
{
    if pos < k {
        if before.len() + 1 > k {
            lemma_offer_full(scores, i, k, before, pos);
        } else {
            lemma_offer_room(scores, i, k, before, pos);
        }
    } else {
        lemma_offer_behind(scores, i, k, before, pos);
    }
}

/// Picks the best `k` positions of `scores`, best first: higher scores first, and among
/// equal scores the earlier position first.
pub fn top_k(scores: &Vec<u32>, k: usize) -> (picked: Vec<usize>)
    ensures
        is_top_k(scores@, scores@.len() as int, k as int, picked@),
{
    let mut top: Vec<usize> = Vec::new();
    let mut i: usize = 0;
    while i < scores.len()
        invariant
            0 <= i <= scores.len(),
            is_top_k(scores@, i as int, k as int, top@),
        decreases scores.len() - i,
    {
        let rank: i64 = rank_of(scores[i]);
        let mut pos: usize = 0;
        while pos < top.len() && rank_of(scores[top[pos]]) >= rank
            invariant
                0 <= pos <= top.len(),
                i < scores.len(),
                rank == score_rank(scores@[i as int]),
                is_top_k(scores@, i as int, k as int, top@),
                forall|a: int| 0 <= a < pos ==> score_rank(scores@[#[trigger] top@[a] as int]) >= rank,
            decreases top.len() - pos,
        {
            pos += 1;
        }
        let ghost before = top@;
        proof {
            assert forall|b: int| pos <= b < before.len() implies score_rank(
                scores@[#[trigger] before[b] as int],
            ) < rank by {
                if b > pos {
                    assert(precedes(scores@, before[pos as int] as int, before[b] as int));
                }
            }
            assert(is_place(scores@, before, i as int, pos as int));
            lemma_offer(scores@, i, k as int, before, pos as int);
        }
        if pos < k {
            top.insert(pos, i);
            if top.len() > k {
                top.truncate(k);
            }
        }
        assert(top@ == offered(before, pos as int, i, k as int));
        i += 1;
    }
    top
}

/// The list of the best `k` positions of `scores`.
pub open spec fn best(scores: Seq<u32>, k: int) -> Seq<usize> {
    choose|picked: Seq<usize>| is_top_k(scores, scores.len() as int, k, picked)
}

/// A list of the best `k` positions is the list of the best `k` positions.
pub proof fn lemma_best(scores: Seq<u32>, k: int, picked: Seq<usize>)
    requires
        is_top_k(scores, scores.len() as int, k, picked),
    ensures
        best(scores, k) == picked,
{
    lemma_top_k_unique(scores, scores.len() as int, k, best(scores, k), picked);
}

/// The scores found at the picked positions, paired with the positions.
pub open spec fn with_scores(scores: Seq<u32>, picked: Seq<usize>) -> Seq<(usize, u32)> {
    Seq::new(picked.len(), |r: int| (picked[r], scores[picked[r] as int]))
}

/// Pairs each picked position with its score.
pub fn attach_scores(scores: &Vec<u32>, picked: &Vec<usize>) -> (out: Vec<(usize, u32)>)
    requires
        forall|r: int| 0 <= r < picked@.len() ==> picked@[r] < scores@.len(),
    ensures
        out@ == with_scores(scores@, picked@),
{
    let mut out: Vec<(usize, u32)> = Vec::new();
    let mut r: usize = 0;
    while r < picked.len()
        invariant
            0 <= r <= picked.len(),
            forall|t: int| 0 <= t < picked@.len() ==> picked@[t] < scores@.len(),
            out@ == with_scores(scores@, picked@.take(r as int)),
        decreases picked.len() - r,
    {
        out.push((picked[r], scores[picked[r]]));
        proof {
            assert(out@ =~= with_scores(scores@, picked@.take(r + 1)));
        }
        r += 1;
    }
    assert(picked@.take(r as int) == picked@);
    out
}

} // verus!
