//! The bucket index as plain values: its invariant, what insert, delete and update do
//! to it, and the proofs that they keep the invariant.

use vstd::prelude::*;
use crate::controllers::first_index;
use crate::controllers::holds_id;
use crate::controllers::lemma_first_exists;
use crate::objects::BucketView;
use crate::objects::VectorView;

verus! {

/// Some bucket of `bs` has identifier `b`.
pub open spec fn has_bucket(bs: Seq<BucketView>, b: u64) -> bool {
    exists|p: int| 0 <= p < bs.len() && (#[trigger] bs[p]).id == b
}

/// The position of the bucket with identifier `b`.
pub open spec fn bucket_index(bs: Seq<BucketView>, b: u64) -> int {
    choose|p: int| 0 <= p < bs.len() && (#[trigger] bs[p]).id == b
}

/// Bucket identifiers ascend strictly along `bs`.
pub open spec fn ids_ascend(bs: Seq<BucketView>) -> bool {
    forall|p: int, q: int| 0 <= p < q < bs.len() ==> (#[trigger] bs[p]).id < (#[trigger] bs[q]).id
}

/// `ip` is where a bucket with identifier `b` belongs: after all smaller identifiers,
/// before all larger ones.
pub open spec fn is_insertion_point(bs: Seq<BucketView>, b: u64, ip: int) -> bool {
    &&& 0 <= ip <= bs.len()
    &&& forall|p: int| 0 <= p < ip ==> (#[trigger] bs[p]).id < b
    &&& forall|p: int| ip <= p < bs.len() ==> (#[trigger] bs[p]).id > b
}

/// Where a bucket with a new identifier `b` belongs.
pub open spec fn insertion_point(bs: Seq<BucketView>, b: u64) -> int {
    choose|ip: int| is_insertion_point(bs, b, ip)
}

/// No identifier occurs twice in `vs`.
pub open spec fn ids_unique(vs: Seq<VectorView>) -> bool {
    forall|i: int, j: int|
        0 <= i < vs.len() && 0 <= j < vs.len() && i != j ==> (#[trigger] vs[i]).id != (#[trigger] vs[j]).id
}

/// Some bucket of `bs` holds a vector with identifier `vid`.
pub open spec fn index_holds(bs: Seq<BucketView>, vid: u64) -> bool {
    exists|p: int| 0 <= p < bs.len() && holds_id((#[trigger] bs[p]).vectors, vid)
}

/// The position of the bucket that holds the vector with identifier `vid`.
pub open spec fn holder(bs: Seq<BucketView>, vid: u64) -> int {
    choose|p: int| 0 <= p < bs.len() && holds_id((#[trigger] bs[p]).vectors, vid)
}

/// The invariant of a bucket index: buckets in ascending order of identifier, none of
/// them empty, no vector identifier twice in the whole index, and every vector of the
/// index's dimension.
pub open spec fn index_wf(bs: Seq<BucketView>, dimension: Option<usize>) -> bool {
    &&& ids_ascend(bs)
    &&& forall|p: int| 0 <= p < bs.len() ==> (#[trigger] bs[p]).vectors.len() > 0
    &&& forall|p: int| 0 <= p < bs.len() ==> ids_unique((#[trigger] bs[p]).vectors)
    &&& forall|p: int, q: int, x: u64|
        0 <= p < bs.len() && 0 <= q < bs.len() && p != q && #[trigger] holds_id(bs[p].vectors, x)
            ==> !#[trigger] holds_id(bs[q].vectors, x)
    &&& dimension matches Some(d) ==> forall|p: int, i: int|
        0 <= p < bs.len() && 0 <= i < bs[p].vectors.len() ==> (#[trigger] bs[p].vectors[i]).data.len()
            == d
}

/// The index after a vector `v` joins bucket `b` at time `now`: appended to the bucket
/// if it exists, else alone in a new bucket put at its place in the order.
pub open spec fn with_vector(bs: Seq<BucketView>, b: u64, v: VectorView, now: i64) -> Seq<BucketView> {
    if has_bucket(bs, b) {
        let p = bucket_index(bs, b);
        bs.update(p, BucketView { updated_at: now, vectors: bs[p].vectors.push(v), ..bs[p] })
    } else {
        bs.insert(
            insertion_point(bs, b),
            BucketView { id: b, created_at: now, updated_at: now, vectors: seq![v] },
        )
    }
}

/// The index after the vector with identifier `vid` leaves at time `now`: taken out of
/// its bucket, and the bucket dropped if that was its last vector.
pub open spec fn without_vector(bs: Seq<BucketView>, vid: u64, now: i64) -> Seq<BucketView> {
    let p = holder(bs, vid);
    let i = first_index(bs[p].vectors, vid);
    if bs[p].vectors.len() == 1 {
        bs.remove(p)
    } else {
        bs.update(p, BucketView { updated_at: now, vectors: bs[p].vectors.remove(i), ..bs[p] })
    }
}

/// The vector with identifier `vid`, wherever in the index it is.
pub open spec fn vector_of(bs: Seq<BucketView>, vid: u64) -> VectorView {
    let p = holder(bs, vid);
    bs[p].vectors[first_index(bs[p].vectors, vid)]
}

/// The number of vectors in the index.
pub open spec fn total_size(bs: Seq<BucketView>) -> nat
    decreases bs.len(),
{
    if bs.len() == 0 {
        0
    } else {
        total_size(bs.drop_last()) + bs.last().vectors.len()
    }
}

pub proof fn lemma_bucket_index(bs: Seq<BucketView>, p: int)
    requires
        ids_ascend(bs),
        0 <= p < bs.len(),
    ensures
        has_bucket(bs, bs[p].id),
        bucket_index(bs, bs[p].id) == p,
{
    let q = bucket_index(bs, bs[p].id);
    assert(bs[p].id == bs[p].id);
    if q < p {
        assert(bs[q].id < bs[p].id);
    } else if p < q {
        assert(bs[p].id < bs[q].id);
    }
}

pub proof fn lemma_insertion_point(bs: Seq<BucketView>, b: u64, ip: int)
    requires
        is_insertion_point(bs, b, ip),
    ensures
        !has_bucket(bs, b),
        insertion_point(bs, b) == ip,
{
    assert forall|p: int| 0 <= p < bs.len() implies (#[trigger] bs[p]).id != b by {
        if p < ip {
            assert(bs[p].id < b);
        } else {
            assert(bs[p].id > b);
        }
    }
    let jp = insertion_point(bs, b);
    assert(is_insertion_point(bs, b, jp));
    if jp < ip {
        assert(bs[jp].id > b);
        assert(bs[jp].id < b);
    } else if ip < jp {
        assert(bs[ip].id > b);
        assert(bs[ip].id < b);
    }
}

pub proof fn lemma_holder(bs: Seq<BucketView>, d: Option<usize>, p: int, vid: u64)
    requires
        index_wf(bs, d),
        0 <= p < bs.len(),
        holds_id(bs[p].vectors, vid),
    ensures
        index_holds(bs, vid),
        holder(bs, vid) == p,
{
    let q = holder(bs, vid);
    if q != p {
        assert(holds_id(bs[q].vectors, vid));
    }
}

pub proof fn lemma_holds_push(vs: Seq<VectorView>, v: VectorView, x: u64)
    ensures
        holds_id(vs.push(v), x) <==> (holds_id(vs, x) || x == v.id),
{
    let ws = vs.push(v);
    if holds_id(ws, x) {
        let i = choose|i: int| 0 <= i < ws.len() && (#[trigger] ws[i]).id == x;
        if i < vs.len() {
            assert(vs[i].id == x);
        }
    }
    if holds_id(vs, x) {
        let i = choose|i: int| 0 <= i < vs.len() && (#[trigger] vs[i]).id == x;
        assert(ws[i].id == x);
    }
    if x == v.id {
        assert(ws[vs.len() as int].id == x);
    }
}

pub proof fn lemma_holds_remove(vs: Seq<VectorView>, i: int, x: u64)
    requires
        ids_unique(vs),
        0 <= i < vs.len(),
    ensures
        holds_id(vs.remove(i), x) <==> (holds_id(vs, x) && x != vs[i].id),
        ids_unique(vs.remove(i)),
{
    let ws = vs.remove(i);
    if holds_id(ws, x) {
        let j = choose|j: int| 0 <= j < ws.len() && (#[trigger] ws[j]).id == x;
        let j0 = if j < i { j } else { j + 1 };
        assert(vs[j0].id == x);
    }
    if holds_id(vs, x) && x != vs[i].id {
        let j = choose|j: int| 0 <= j < vs.len() && (#[trigger] vs[j]).id == x;
        if j < i {
            assert(ws[j].id == x);
        } else {
            assert(ws[j - 1].id == x);
        }
    }
    assert forall|a: int, b: int| 0 <= a < ws.len() && 0 <= b < ws.len() && a != b implies (
    #[trigger] ws[a]).id != (#[trigger] ws[b]).id by {
        let a0 = if a < i { a } else { a + 1 };
        let b0 = if b < i { b } else { b + 1 };
        assert(ws[a] == vs[a0] && ws[b] == vs[b0]);
    }
}

pub proof fn lemma_holds_update(vs: Seq<VectorView>, i: int, w: VectorView, x: u64)
    requires
        0 <= i < vs.len(),
        w.id == vs[i].id,
    ensures
        holds_id(vs.update(i, w), x) <==> holds_id(vs, x),
        ids_unique(vs) ==> ids_unique(vs.update(i, w)),
{
    let ws = vs.update(i, w);
    if holds_id(ws, x) {
        let j = choose|j: int| 0 <= j < ws.len() && (#[trigger] ws[j]).id == x;
        assert(vs[j].id == x);
    }
    if holds_id(vs, x) {
        let j = choose|j: int| 0 <= j < vs.len() && (#[trigger] vs[j]).id == x;
        assert(ws[j].id == x);
    }
    if ids_unique(vs) {
        assert forall|a: int, b: int| 0 <= a < ws.len() && 0 <= b < ws.len() && a != b implies (
        #[trigger] ws[a]).id != (#[trigger] ws[b]).id by {
            assert(ws[a].id == vs[a].id && ws[b].id == vs[b].id);
        }
    }
}

/// Adding a vector with a new identifier keeps the index well formed, puts that
/// identifier in bucket `b` and nowhere else, and leaves every other identifier in
/// the bucket where it was.
pub proof fn lemma_with_vector(bs: Seq<BucketView>, d: Option<usize>, b: u64, v: VectorView, now: i64)
    requires
        index_wf(bs, d),
        !index_holds(bs, v.id),
        d matches Some(n) ==> v.data.len() == n,
    ensures
        index_wf(with_vector(bs, b, v, now), d),
        forall|q: int|
            0 <= q < with_vector(bs, b, v, now).len() ==> (holds_id(
                (#[trigger] with_vector(bs, b, v, now)[q]).vectors,
                v.id,
            ) <==> with_vector(bs, b, v, now)[q].id == b),
        has_bucket(with_vector(bs, b, v, now), b),
        forall|q: int, x: u64|
            0 <= q < with_vector(bs, b, v, now).len() && x != v.id && #[trigger] holds_id(
                with_vector(bs, b, v, now)[q].vectors,
                x,
            ) ==> has_bucket(bs, with_vector(bs, b, v, now)[q].id) && holds_id(
                bs[bucket_index(bs, with_vector(bs, b, v, now)[q].id)].vectors,
                x,
            ),
        forall|p: int, x: u64|
            0 <= p < bs.len() && #[trigger] holds_id(bs[p].vectors, x) ==> has_bucket(
                with_vector(bs, b, v, now),
                bs[p].id,
            ) && holds_id(
                with_vector(bs, b, v, now)[bucket_index(with_vector(bs, b, v, now), bs[p].id)].vectors,
                x,
            ),
{
    let ns = with_vector(bs, b, v, now);
    if has_bucket(bs, b) {
        let p = bucket_index(bs, b);
        let grown = bs[p].vectors.push(v);
        assert(ns.len() == bs.len());
        assert forall|q: int| 0 <= q < ns.len() implies (#[trigger] ns[q]).id == bs[q].id by {}
        assert(ids_ascend(ns)) by {
            assert forall|q: int, r: int| 0 <= q < r < ns.len() implies (#[trigger] ns[q]).id < (
            #[trigger] ns[r]).id by {
                assert(bs[q].id < bs[r].id);
            }
        }
        assert forall|q: int, x: u64| 0 <= q < ns.len() implies (#[trigger] holds_id(ns[q].vectors, x)
            <==> (holds_id(bs[q].vectors, x) || (q == p && x == v.id))) by {
            if q == p {
                lemma_holds_push(bs[p].vectors, v, x);
            } else {
                assert(ns[q] == bs[q]);
            }
        }
        assert(ids_unique(grown)) by {
            assert forall|i: int, j: int|
                0 <= i < grown.len() && 0 <= j < grown.len() && i != j implies (#[trigger] grown[i]).id
                != (#[trigger] grown[j]).id by {
                if i < bs[p].vectors.len() && j < bs[p].vectors.len() {
                    assert(ids_unique(bs[p].vectors));
                    assert(grown[i] == bs[p].vectors[i] && grown[j] == bs[p].vectors[j]);
                } else if i < bs[p].vectors.len() {
                    assert(bs[p].vectors[i].id == grown[i].id);
                    assert(holds_id(bs[p].vectors, grown[i].id));
                } else {
                    assert(bs[p].vectors[j].id == grown[j].id);
                    assert(holds_id(bs[p].vectors, grown[j].id));
                }
            }
        }
        assert forall|q: int| 0 <= q < ns.len() implies ids_unique((#[trigger] ns[q]).vectors) by {
            if q != p {
                assert(ns[q] == bs[q]);
            }
        }
        assert forall|q: int| 0 <= q < ns.len() implies (#[trigger] ns[q]).vectors.len() > 0 by {
            if q != p {
                assert(ns[q] == bs[q]);
            }
        }
        assert forall|q: int, r: int, x: u64|
            0 <= q < ns.len() && 0 <= r < ns.len() && q != r && #[trigger] holds_id(
                ns[q].vectors,
                x,
            ) implies !#[trigger] holds_id(ns[r].vectors, x) by {
            if holds_id(ns[r].vectors, x) {
                if x == v.id {
                    assert(holds_id(bs[q].vectors, x) || holds_id(bs[r].vectors, x));
                } else {
                    assert(holds_id(bs[q].vectors, x) && holds_id(bs[r].vectors, x));
                }
            }
        }
        if d is Some {
            assert forall|q: int, i: int| 0 <= q < ns.len() && 0 <= i < ns[q].vectors.len() implies (
            #[trigger] ns[q].vectors[i]).data.len() == d->Some_0 by {
                if q == p {
                    if i < bs[p].vectors.len() {
                        assert(ns[q].vectors[i] == bs[p].vectors[i]);
                    }
                } else {
                    assert(ns[q] == bs[q]);
                }
            }
        }
        assert(ns[p].id == b);
        assert forall|q: int| 0 <= q < ns.len() implies (holds_id((#[trigger] ns[q]).vectors, v.id)
            <==> ns[q].id == b) by {
            assert(holds_id(ns[q].vectors, v.id) <==> (holds_id(bs[q].vectors, v.id) || q == p));
            lemma_bucket_index(bs, q);
        }
        assert forall|q: int, x: u64|
            0 <= q < ns.len() && x != v.id && #[trigger] holds_id(ns[q].vectors, x) implies has_bucket(
            bs,
            ns[q].id,
        ) && holds_id(bs[bucket_index(bs, ns[q].id)].vectors, x) by {
            lemma_bucket_index(bs, q);
        }
        assert forall|q: int, x: u64|
            0 <= q < bs.len() && #[trigger] holds_id(bs[q].vectors, x) implies has_bucket(ns, bs[q].id)
            && holds_id(ns[bucket_index(ns, bs[q].id)].vectors, x) by {
            lemma_bucket_index(ns, q);
            assert(holds_id(ns[q].vectors, x));
        }
    } else {
        let ip = insertion_point(bs, b);
        lemma_no_bucket_insertion_point(bs, b);
        let nb = BucketView { id: b, created_at: now, updated_at: now, vectors: seq![v] };
        assert(ns == bs.insert(ip, nb));
        assert forall|q: int| 0 <= q < ns.len() implies (#[trigger] ns[q]) == (if q < ip {
            bs[q]
        } else if q == ip {
            nb
        } else {
            bs[q - 1]
        }) by {}
        assert(ids_ascend(ns)) by {
            assert forall|q: int, r: int| 0 <= q < r < ns.len() implies (#[trigger] ns[q]).id < (
            #[trigger] ns[r]).id by {
                let q0 = if q < ip { q } else { q - 1 };
                let r0 = if r < ip { r } else { r - 1 };
                if q != ip && r != ip {
                    assert(bs[q0].id < bs[r0].id);
                } else if q == ip {
                    assert(bs[r0].id > b);
                } else {
                    assert(bs[q0].id < b);
                }
            }
        }
        assert(ids_unique(nb.vectors));
        assert forall|x: u64| holds_id(nb.vectors, x) <==> x == v.id by {
            if holds_id(nb.vectors, x) {
                let i = choose|i: int| 0 <= i < nb.vectors.len() && (#[trigger] nb.vectors[i]).id == x;
                assert(i == 0);
            }
            if x == v.id {
                assert(nb.vectors[0].id == x);
            }
        }
        assert forall|q: int| 0 <= q < ns.len() implies ids_unique((#[trigger] ns[q]).vectors)
            && ns[q].vectors.len() > 0 by {
            let q0 = if q < ip { q } else { q - 1 };
            if q != ip {
                assert(ns[q] == bs[q0]);
            }
        }
        assert forall|q: int, r: int, x: u64|
            0 <= q < ns.len() && 0 <= r < ns.len() && q != r && #[trigger] holds_id(
                ns[q].vectors,
                x,
            ) implies !#[trigger] holds_id(ns[r].vectors, x) by {
            let q0 = if q < ip { q } else { q - 1 };
            let r0 = if r < ip { r } else { r - 1 };
            if holds_id(ns[r].vectors, x) {
                if q != ip && r != ip {
                    assert(holds_id(bs[q0].vectors, x) && holds_id(bs[r0].vectors, x));
                } else if q == ip {
                    assert(holds_id(bs[r0].vectors, v.id));
                } else {
                    assert(holds_id(bs[q0].vectors, v.id));
                }
            }
        }
        if d is Some {
            assert forall|q: int, i: int| 0 <= q < ns.len() && 0 <= i < ns[q].vectors.len() implies (
            #[trigger] ns[q].vectors[i]).data.len() == d->Some_0 by {
                let q0 = if q < ip { q } else { q - 1 };
                if q != ip {
                    assert(ns[q].vectors[i] == bs[q0].vectors[i]);
                }
            }
        }
        assert(ns[ip].id == b);
        assert forall|q: int| 0 <= q < ns.len() implies (holds_id((#[trigger] ns[q]).vectors, v.id)
            <==> ns[q].id == b) by {
            let q0 = if q < ip { q } else { q - 1 };
            if q != ip {
                assert(ns[q] == bs[q0]);
                assert(!holds_id(bs[q0].vectors, v.id));
                assert(bs[q0].id != b);
            }
        }
        assert forall|q: int, x: u64|
            0 <= q < ns.len() && x != v.id && #[trigger] holds_id(ns[q].vectors, x) implies has_bucket(
            bs,
            ns[q].id,
        ) && holds_id(bs[bucket_index(bs, ns[q].id)].vectors, x) by {
            let q0 = if q < ip { q } else { q - 1 };
            assert(q != ip);
            assert(ns[q] == bs[q0]);
            lemma_bucket_index(bs, q0);
        }
        assert forall|q: int, x: u64|
            0 <= q < bs.len() && #[trigger] holds_id(bs[q].vectors, x) implies has_bucket(ns, bs[q].id)
            && holds_id(ns[bucket_index(ns, bs[q].id)].vectors, x) by {
            let q1 = if q < ip { q } else { q + 1 };
            assert(ns[q1] == bs[q]);
            lemma_bucket_index(ns, q1);
        }
    }
}

/// The index after the `i`-th vector of the `p`-th bucket is replaced by `nv` at time
/// `now`.
pub open spec fn changed_in_place(bs: Seq<BucketView>, p: int, i: int, nv: VectorView, now: i64) -> Seq<
    BucketView,
> {
    bs.update(p, BucketView { updated_at: now, vectors: bs[p].vectors.update(i, nv), ..bs[p] })
}

/// Changing a vector where it is, without changing its identifier, keeps the index
/// well formed and every identifier in its bucket.
pub proof fn lemma_update_in_place(
    bs: Seq<BucketView>,
    d: Option<usize>,
    p: int,
    i: int,
    nv: VectorView,
    now: i64,
)
    requires
        index_wf(bs, d),
        0 <= p < bs.len(),
        0 <= i < bs[p].vectors.len(),
        nv.id == bs[p].vectors[i].id,
        d matches Some(n) ==> nv.data.len() == n,
    ensures
        index_wf(changed_in_place(bs, p, i, nv, now), d),
        forall|q: int, x: u64|
            0 <= q < bs.len() ==> (#[trigger] holds_id(changed_in_place(bs, p, i, nv, now)[q].vectors, x)
                <==> holds_id(bs[q].vectors, x)),
{
    let ns = changed_in_place(bs, p, i, nv, now);
    assert forall|q: int| 0 <= q < ns.len() implies (#[trigger] ns[q]).id == bs[q].id by {}
    assert(ids_ascend(ns)) by {
        assert forall|q: int, r: int| 0 <= q < r < ns.len() implies (#[trigger] ns[q]).id < (
        #[trigger] ns[r]).id by {
            assert(bs[q].id < bs[r].id);
        }
    }
    assert forall|q: int, x: u64| 0 <= q < ns.len() implies (#[trigger] holds_id(ns[q].vectors, x)
        <==> holds_id(bs[q].vectors, x)) by {
        if q == p {
            lemma_holds_update(bs[p].vectors, i, nv, x);
        } else {
            assert(ns[q] == bs[q]);
        }
    }
    assert forall|q: int| 0 <= q < ns.len() implies ids_unique((#[trigger] ns[q]).vectors)
        && ns[q].vectors.len() > 0 by {
        if q == p {
            assert(ids_unique(bs[p].vectors));
            lemma_holds_update(bs[p].vectors, i, nv, 0);
        } else {
            assert(ns[q] == bs[q]);
        }
    }
    assert forall|q: int, r: int, x: u64|
        0 <= q < ns.len() && 0 <= r < ns.len() && q != r && #[trigger] holds_id(
            ns[q].vectors,
            x,
        ) implies !#[trigger] holds_id(ns[r].vectors, x) by {
        if holds_id(ns[r].vectors, x) {
            assert(holds_id(bs[q].vectors, x) && holds_id(bs[r].vectors, x));
        }
    }
    if d is Some {
        assert forall|q: int, j: int| 0 <= q < ns.len() && 0 <= j < ns[q].vectors.len() implies (
        #[trigger] ns[q].vectors[j]).data.len() == d->Some_0 by {
            if q == p {
                if j != i {
                    assert(ns[q].vectors[j] == bs[p].vectors[j]);
                }
            } else {
                assert(ns[q] == bs[q]);
            }
        }
    }
}

/// Putting a whole new bucket at its place keeps the index well formed, provided the
/// bucket is not empty and its vectors are new to the index and of its dimension.
pub proof fn lemma_insert_bucket(bs: Seq<BucketView>, d: Option<usize>, nb: BucketView)
    requires
        index_wf(bs, d),
        !has_bucket(bs, nb.id),
        nb.vectors.len() > 0,
        ids_unique(nb.vectors),
        forall|i: int| 0 <= i < nb.vectors.len() ==> !index_holds(bs, (#[trigger] nb.vectors[i]).id),
        d matches Some(n) ==> forall|i: int|
            0 <= i < nb.vectors.len() ==> (#[trigger] nb.vectors[i]).data.len() == n,
    ensures
        index_wf(bs.insert(insertion_point(bs, nb.id), nb), d),
{
    let ip = insertion_point(bs, nb.id);
    lemma_no_bucket_insertion_point(bs, nb.id);
    let ns = bs.insert(ip, nb);
    assert forall|q: int| 0 <= q < ns.len() implies (#[trigger] ns[q]) == (if q < ip {
        bs[q]
    } else if q == ip {
        nb
    } else {
        bs[q - 1]
    }) by {}
    assert(ids_ascend(ns)) by {
        assert forall|q: int, r: int| 0 <= q < r < ns.len() implies (#[trigger] ns[q]).id < (
        #[trigger] ns[r]).id by {
            let q0 = if q < ip { q } else { q - 1 };
            let r0 = if r < ip { r } else { r - 1 };
            if q != ip && r != ip {
                assert(bs[q0].id < bs[r0].id);
            } else if q == ip {
                assert(bs[r0].id > nb.id);
            } else {
                assert(bs[q0].id < nb.id);
            }
        }
    }
    assert forall|q: int| 0 <= q < ns.len() implies ids_unique((#[trigger] ns[q]).vectors)
        && ns[q].vectors.len() > 0 by {
        let q0 = if q < ip { q } else { q - 1 };
        if q != ip {
            assert(ns[q] == bs[q0]);
        }
    }
    assert forall|x: u64| holds_id(nb.vectors, x) implies !index_holds(bs, x) by {
        let i = choose|i: int| 0 <= i < nb.vectors.len() && (#[trigger] nb.vectors[i]).id == x;
        assert(!index_holds(bs, nb.vectors[i].id));
    }
    assert forall|q: int, r: int, x: u64|
        0 <= q < ns.len() && 0 <= r < ns.len() && q != r && #[trigger] holds_id(
            ns[q].vectors,
            x,
        ) implies !#[trigger] holds_id(ns[r].vectors, x) by {
        let q0 = if q < ip { q } else { q - 1 };
        let r0 = if r < ip { r } else { r - 1 };
        if holds_id(ns[r].vectors, x) {
            if q != ip && r != ip {
                assert(holds_id(bs[q0].vectors, x) && holds_id(bs[r0].vectors, x));
            } else if q == ip {
                assert(holds_id(bs[r0].vectors, x));
            } else {
                assert(holds_id(bs[q0].vectors, x));
            }
        }
    }
    if d is Some {
        assert forall|q: int, i: int| 0 <= q < ns.len() && 0 <= i < ns[q].vectors.len() implies (
        #[trigger] ns[q].vectors[i]).data.len() == d->Some_0 by {
            let q0 = if q < ip { q } else { q - 1 };
            if q != ip {
                assert(ns[q].vectors[i] == bs[q0].vectors[i]);
            } else {
                assert(ns[q].vectors[i] == nb.vectors[i]);
            }
        }
    }
}

/// Where there is no bucket `b`, an ascending index has a place for it.
pub proof fn lemma_no_bucket_insertion_point(bs: Seq<BucketView>, b: u64)
    requires
        ids_ascend(bs),
        !has_bucket(bs, b),
    ensures
        is_insertion_point(bs, b, insertion_point(bs, b)),
{
    lemma_some_insertion_point(bs, b, 0);
}

proof fn lemma_some_insertion_point(bs: Seq<BucketView>, b: u64, n: int)
    requires
        ids_ascend(bs),
        !has_bucket(bs, b),
        0 <= n <= bs.len(),
        forall|p: int| 0 <= p < n ==> (#[trigger] bs[p]).id < b,
    ensures
        exists|ip: int| is_insertion_point(bs, b, ip),
    decreases bs.len() - n,
{
    if n == bs.len() {
        assert(is_insertion_point(bs, b, n));
    } else if bs[n].id < b {
        lemma_some_insertion_point(bs, b, n + 1);
    } else {
        assert(bs[n].id != b);
        assert forall|p: int| n <= p < bs.len() implies (#[trigger] bs[p]).id > b by {
            if p > n {
                assert(bs[n].id < bs[p].id);
            }
        }
        assert(is_insertion_point(bs, b, n));
    }
}

/// Taking a vector out keeps the index well formed, removes its identifier from the
/// index, and leaves every other identifier in the bucket where it was.
pub proof fn lemma_without_vector(bs: Seq<BucketView>, d: Option<usize>, vid: u64, now: i64)
    requires
        index_wf(bs, d),
        index_holds(bs, vid),
    ensures
        index_wf(without_vector(bs, vid, now), d),
        !index_holds(without_vector(bs, vid, now), vid),
        forall|q: int, x: u64|
            0 <= q < without_vector(bs, vid, now).len() && #[trigger] holds_id(
                without_vector(bs, vid, now)[q].vectors,
                x,
            ) ==> x != vid && has_bucket(bs, without_vector(bs, vid, now)[q].id) && holds_id(
                bs[bucket_index(bs, without_vector(bs, vid, now)[q].id)].vectors,
                x,
            ),
        forall|p: int, x: u64|
            0 <= p < bs.len() && x != vid && #[trigger] holds_id(bs[p].vectors, x) ==> has_bucket(
                without_vector(bs, vid, now),
                bs[p].id,
            ) && holds_id(
                without_vector(bs, vid, now)[bucket_index(
                    without_vector(bs, vid, now),
                    bs[p].id,
                )].vectors,
                x,
            ),
{
    let ns = without_vector(bs, vid, now);
    let p = holder(bs, vid);
    assert(holds_id(bs[p].vectors, vid));
    lemma_first_exists(bs[p].vectors, vid);
    let i = first_index(bs[p].vectors, vid);
    assert(ids_unique(bs[p].vectors));
    if bs[p].vectors.len() == 1 {
        assert(ns == bs.remove(p));
        assert forall|q: int| 0 <= q < ns.len() implies (#[trigger] ns[q]) == bs[if q < p {
            q
        } else {
            q + 1
        }] by {}
        assert forall|x: u64| holds_id(bs[p].vectors, x) implies x == vid by {
            let j = choose|j: int| 0 <= j < bs[p].vectors.len() && (#[trigger] bs[p].vectors[j]).id == x;
            assert(j == 0 && i == 0);
        }
        assert(ids_ascend(ns)) by {
            assert forall|q: int, r: int| 0 <= q < r < ns.len() implies (#[trigger] ns[q]).id < (
            #[trigger] ns[r]).id by {
                let q0 = if q < p { q } else { q + 1 };
                let r0 = if r < p { r } else { r + 1 };
                assert(bs[q0].id < bs[r0].id);
            }
        }
        assert forall|q: int| 0 <= q < ns.len() implies ids_unique((#[trigger] ns[q]).vectors)
            && ns[q].vectors.len() > 0 by {
            let q0 = if q < p { q } else { q + 1 };
            assert(ns[q] == bs[q0]);
        }
        assert forall|q: int, r: int, x: u64|
            0 <= q < ns.len() && 0 <= r < ns.len() && q != r && #[trigger] holds_id(
                ns[q].vectors,
                x,
            ) implies !#[trigger] holds_id(ns[r].vectors, x) by {
            let q0 = if q < p { q } else { q + 1 };
            let r0 = if r < p { r } else { r + 1 };
            if holds_id(ns[r].vectors, x) {
                assert(holds_id(bs[q0].vectors, x) && holds_id(bs[r0].vectors, x));
            }
        }
        if d is Some {
            assert forall|q: int, j: int| 0 <= q < ns.len() && 0 <= j < ns[q].vectors.len() implies (
            #[trigger] ns[q].vectors[j]).data.len() == d->Some_0 by {
                let q0 = if q < p { q } else { q + 1 };
                assert(ns[q].vectors[j] == bs[q0].vectors[j]);
            }
        }
        assert forall|q: int, x: u64|
            0 <= q < ns.len() && #[trigger] holds_id(ns[q].vectors, x) implies x != vid && has_bucket(
            bs,
            ns[q].id,
        ) && holds_id(bs[bucket_index(bs, ns[q].id)].vectors, x) by {
            let q0 = if q < p { q } else { q + 1 };
            assert(ns[q] == bs[q0]);
            assert(holds_id(bs[q0].vectors, x));
            lemma_bucket_index(bs, q0);
        }
        assert(!index_holds(ns, vid)) by {
            if index_holds(ns, vid) {
                let q = holder(ns, vid);
                assert(holds_id(ns[q].vectors, vid));
            }
        }
        assert forall|q: int, x: u64|
            0 <= q < bs.len() && x != vid && #[trigger] holds_id(bs[q].vectors, x) implies has_bucket(
            ns,
            bs[q].id,
        ) && holds_id(ns[bucket_index(ns, bs[q].id)].vectors, x) by {
            assert(q != p);
            let q1 = if q < p { q } else { q - 1 };
            assert(ns[q1] == bs[q]);
            lemma_bucket_index(ns, q1);
        }
    } else {
        let rest = bs[p].vectors.remove(i);
        assert(ns.len() == bs.len());
        assert forall|q: int| 0 <= q < ns.len() implies (#[trigger] ns[q]).id == bs[q].id by {}
        assert(ids_ascend(ns)) by {
            assert forall|q: int, r: int| 0 <= q < r < ns.len() implies (#[trigger] ns[q]).id < (
            #[trigger] ns[r]).id by {
                assert(bs[q].id < bs[r].id);
            }
        }
        assert forall|q: int, x: u64| 0 <= q < ns.len() implies (#[trigger] holds_id(ns[q].vectors, x)
            <==> (holds_id(bs[q].vectors, x) && !(q == p && x == vid))) by {
            if q == p {
                lemma_holds_remove(bs[p].vectors, i, x);
            } else {
                assert(ns[q] == bs[q]);
            }
        }
        lemma_holds_remove(bs[p].vectors, i, vid);
        assert forall|q: int| 0 <= q < ns.len() implies ids_unique((#[trigger] ns[q]).vectors)
            && ns[q].vectors.len() > 0 by {
            if q != p {
                assert(ns[q] == bs[q]);
            }
        }
        assert forall|q: int, r: int, x: u64|
            0 <= q < ns.len() && 0 <= r < ns.len() && q != r && #[trigger] holds_id(
                ns[q].vectors,
                x,
            ) implies !#[trigger] holds_id(ns[r].vectors, x) by {
            if holds_id(ns[r].vectors, x) {
                assert(holds_id(bs[q].vectors, x) && holds_id(bs[r].vectors, x));
            }
        }
        if d is Some {
            assert forall|q: int, j: int| 0 <= q < ns.len() && 0 <= j < ns[q].vectors.len() implies (
            #[trigger] ns[q].vectors[j]).data.len() == d->Some_0 by {
                if q == p {
                    let j0 = if j < i { j } else { j + 1 };
                    assert(ns[q].vectors[j] == bs[p].vectors[j0]);
                } else {
                    assert(ns[q] == bs[q]);
                }
            }
        }
        assert forall|q: int, x: u64|
            0 <= q < ns.len() && #[trigger] holds_id(ns[q].vectors, x) implies x != vid && has_bucket(
            bs,
            ns[q].id,
        ) && holds_id(bs[bucket_index(bs, ns[q].id)].vectors, x) by {
            lemma_bucket_index(bs, q);
            if x == vid {
                assert(holds_id(bs[q].vectors, vid));
                assert(q != p);
            }
        }
        assert(!index_holds(ns, vid)) by {
            if index_holds(ns, vid) {
                let q = holder(ns, vid);
                assert(holds_id(ns[q].vectors, vid));
            }
        }
        assert forall|q: int, x: u64|
            0 <= q < bs.len() && x != vid && #[trigger] holds_id(bs[q].vectors, x) implies has_bucket(
            ns,
            bs[q].id,
        ) && holds_id(ns[bucket_index(ns, bs[q].id)].vectors, x) by {
            lemma_bucket_index(ns, q);
            assert(holds_id(ns[q].vectors, x));
        }
    }
}

/// Replacing one bucket changes the number of vectors by the difference in size of
/// the two buckets.
pub proof fn lemma_size_update(bs: Seq<BucketView>, p: int, nb: BucketView)
    requires
        0 <= p < bs.len(),
    ensures
        total_size(bs.update(p, nb)) == total_size(bs) - bs[p].vectors.len() + nb.vectors.len(),
    decreases bs.len(),
{
    let ns = bs.update(p, nb);
    if p == bs.len() - 1 {
        assert(ns.drop_last() =~= bs.drop_last());
        assert(ns.last() == nb);
    } else {
        assert(ns.drop_last() =~= bs.drop_last().update(p, nb));
        assert(ns.last() == bs.last());
        lemma_size_update(bs.drop_last(), p, nb);
    }
}

/// A new bucket adds its vectors to the number of vectors.
pub proof fn lemma_size_insert(bs: Seq<BucketView>, ip: int, nb: BucketView)
    requires
        0 <= ip <= bs.len(),
    ensures
        total_size(bs.insert(ip, nb)) == total_size(bs) + nb.vectors.len(),
    decreases bs.len(),
{
    let ns = bs.insert(ip, nb);
    if ip == bs.len() {
        assert(ns.drop_last() =~= bs);
        assert(ns.last() == nb);
    } else {
        assert(ns.drop_last() =~= bs.drop_last().insert(ip, nb));
        assert(ns.last() == bs.last());
        lemma_size_insert(bs.drop_last(), ip, nb);
    }
}

/// A bucket that is dropped takes its vectors from the number of vectors.
pub proof fn lemma_size_remove(bs: Seq<BucketView>, p: int)
    requires
        0 <= p < bs.len(),
    ensures
        total_size(bs.remove(p)) == total_size(bs) - bs[p].vectors.len(),
    decreases bs.len(),
{
    let ns = bs.remove(p);
    if p == bs.len() - 1 {
        assert(ns =~= bs.drop_last());
    } else {
        assert(ns.drop_last() =~= bs.drop_last().remove(p));
        assert(ns.last() == bs.last());
        lemma_size_remove(bs.drop_last(), p);
    }
}

/// A vector that joins the index is one vector more.
pub proof fn lemma_with_vector_size(bs: Seq<BucketView>, b: u64, v: VectorView, now: i64)
    requires
        ids_ascend(bs),
    ensures
        total_size(with_vector(bs, b, v, now)) == total_size(bs) + 1,
{
    if has_bucket(bs, b) {
        let p = bucket_index(bs, b);
        lemma_size_update(bs, p, BucketView { updated_at: now, vectors: bs[p].vectors.push(v), ..bs[p] });
    } else {
        lemma_no_bucket_insertion_point(bs, b);
        lemma_size_insert(
            bs,
            insertion_point(bs, b),
            BucketView { id: b, created_at: now, updated_at: now, vectors: seq![v] },
        );
    }
}

/// A vector that leaves the index is one vector fewer.
pub proof fn lemma_without_vector_size(bs: Seq<BucketView>, vid: u64, now: i64)
    requires
        index_holds(bs, vid),
    ensures
        total_size(without_vector(bs, vid, now)) == total_size(bs) - 1,
{
    let p = holder(bs, vid);
    assert(holds_id(bs[p].vectors, vid));
    lemma_first_exists(bs[p].vectors, vid);
    let i = first_index(bs[p].vectors, vid);
    if bs[p].vectors.len() == 1 {
        lemma_size_remove(bs, p);
    } else {
        lemma_size_update(bs, p, BucketView { updated_at: now, vectors: bs[p].vectors.remove(i), ..bs[p] });
    }
}

} // verus!
