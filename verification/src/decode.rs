//! Reading records back, with the proof that what was written is what is read.

use vstd::prelude::*;
use vstd::bytes::lemma_auto_spec_u32_to_from_le_bytes;
use vstd::bytes::lemma_auto_spec_u64_to_from_le_bytes;
use vstd::bytes::spec_u32_from_le_bytes;
use vstd::bytes::spec_u64_from_le_bytes;
use vstd::bytes::u32_from_le_bytes;
use vstd::bytes::u64_from_le_bytes;
use vstd::slice::slice_subrange;
use vstd::utf8::decode_utf8;
use vstd::utf8::encode_utf8;
use vstd::utf8::valid_utf8;
use crate::codec::enc_bucket;
use crate::codec::enc_collection;
use crate::codec::enc_i64;
use crate::codec::enc_pairs_body;
use crate::codec::enc_text;
use crate::codec::enc_u32;
use crate::codec::enc_u64;
use crate::codec::enc_vector;
use crate::codec::enc_words_body;
use crate::error::DbError;
use crate::metadata::keys_ascend;
use crate::metadata::Metadata;

verus! {

/// An unsigned word read at `pos`, with the position after it.
pub open spec fn take_u64(b: Seq<u8>, pos: int) -> Option<(u64, int)> {
    if 0 <= pos && pos + 8 <= b.len() {
        Some((spec_u64_from_le_bytes(b.subrange(pos, pos + 8)), pos + 8))
    } else {
        None
    }
}

/// A signed word read at `pos`.
pub open spec fn take_i64(b: Seq<u8>, pos: int) -> Option<(i64, int)> {
    match take_u64(b, pos) {
        Some((x, p)) => Some((x as i64, p)),
        None => None,
    }
}

/// A four-byte word read at `pos`.
pub open spec fn take_u32(b: Seq<u8>, pos: int) -> Option<(u32, int)> {
    if 0 <= pos && pos + 4 <= b.len() {
        Some((spec_u32_from_le_bytes(b.subrange(pos, pos + 4)), pos + 4))
    } else {
        None
    }
}

/// A text read at `pos`: a length, then that many bytes of valid UTF-8.
pub open spec fn take_text(b: Seq<u8>, pos: int) -> Option<(Seq<char>, int)> {
    match take_u64(b, pos) {
        Some((n, p)) => if p + n <= b.len() && valid_utf8(b.subrange(p, p + n)) {
            Some((decode_utf8(b.subrange(p, p + n)), p + n))
        } else {
            None
        },
        None => None,
    }
}

/// `n` components read from `pos` on.
pub open spec fn take_words_body(b: Seq<u8>, pos: int, n: nat) -> Option<(Seq<u32>, int)>
    decreases n,
{
    if n == 0 {
        Some((Seq::empty(), pos))
    } else {
        match take_words_body(b, pos, (n - 1) as nat) {
            Some((d, p)) => match take_u32(b, p) {
                Some((w, q)) => Some((d.push(w), q)),
                None => None,
            },
            None => None,
        }
    }
}

/// A vector's components read at `pos`: their count, then each.
pub open spec fn take_words(b: Seq<u8>, pos: int) -> Option<(Seq<u32>, int)> {
    match take_u64(b, pos) {
        Some((n, p)) => take_words_body(b, p, n as nat),
        None => None,
    }
}

/// `n` metadata entries read from `pos` on.
pub open spec fn take_pairs_body(b: Seq<u8>, pos: int, n: nat) -> Option<
    (Seq<(Seq<char>, Seq<char>)>, int),
>
    decreases n,
{
    if n == 0 {
        Some((Seq::empty(), pos))
    } else {
        match take_pairs_body(b, pos, (n - 1) as nat) {
            Some((ps, p)) => match take_text(b, p) {
                Some((k, q)) => match take_text(b, q) {
                    Some((v, r)) => Some((ps.push((k, v)), r)),
                    None => None,
                },
                None => None,
            },
            None => None,
        }
    }
}

/// Metadata read at `pos`: the count of entries, then each.
pub open spec fn take_pairs(b: Seq<u8>, pos: int) -> Option<(Seq<(Seq<char>, Seq<char>)>, int)> {
    match take_u64(b, pos) {
        Some((n, p)) => take_pairs_body(b, p, n as nat),
        None => None,
    }
}

/// A vector record as plain values: components, timestamp, metadata, identifier.
pub type VectorParts = (Seq<u32>, i64, Seq<(Seq<char>, Seq<char>)>, u64);

/// What a byte string holds if read as a vector record: the whole string must be one
/// record, with metadata keys in ascending order.
pub open spec fn parse_vector(b: Seq<u8>) -> Option<VectorParts> {
    match take_words(b, 0) {
        Some((d, p1)) => match take_i64(b, p1) {
            Some((t, p2)) => match take_pairs(b, p2) {
                Some((ps, p3)) => match take_u64(b, p3) {
                    Some((id, p4)) => if p4 == b.len() && keys_ascend(ps) {
                        Some((d, t, ps, id))
                    } else {
                        None
                    },
                    None => None,
                },
                None => None,
            },
            None => None,
        },
        None => None,
    }
}

/// What a byte string holds if read as a bucket header.
pub open spec fn parse_bucket(b: Seq<u8>) -> Option<(u64, i64, i64)> {
    match take_u64(b, 0) {
        Some((id, p1)) => match take_i64(b, p1) {
            Some((c, p2)) => match take_i64(b, p2) {
                Some((u, p3)) => if p3 == b.len() {
                    Some((id, c, u))
                } else {
                    None
                },
                None => None,
            },
            None => None,
        },
        None => None,
    }
}

/// What a byte string holds if read as a collection header: name, identifier, metric
/// name, dimension.
pub open spec fn parse_collection(b: Seq<u8>) -> Option<(Seq<char>, u64, Seq<char>, u64)> {
    match take_text(b, 0) {
        Some((name, p1)) => match take_u64(b, p1) {
            Some((id, p2)) => match take_text(b, p2) {
                Some((metric, p3)) => match take_u64(b, p3) {
                    Some((dim, p4)) => if p4 == b.len() {
                        Some((name, id, metric, dim))
                    } else {
                        None
                    },
                    None => None,
                },
                None => None,
            },
            None => None,
        },
        None => None,
    }
}

// ---------------------------------------------------------------- reading back what was written

pub proof fn lemma_take_u64(b: Seq<u8>, pos: int, x: u64)
    requires
        0 <= pos,
        pos + 8 <= b.len(),
        b.subrange(pos, pos + 8) == enc_u64(x),
    ensures
        take_u64(b, pos) == Some((x, pos + 8)),
{
    lemma_auto_spec_u64_to_from_le_bytes();
}

pub proof fn lemma_take_i64(b: Seq<u8>, pos: int, x: i64)
    requires
        0 <= pos,
        pos + 8 <= b.len(),
        b.subrange(pos, pos + 8) == enc_i64(x),
    ensures
        take_i64(b, pos) == Some((x, pos + 8)),
{
    lemma_auto_spec_u64_to_from_le_bytes();
    assert(((x as u64) as i64) == x) by (bit_vector);
}

pub proof fn lemma_take_u32(b: Seq<u8>, pos: int, x: u32)
    requires
        0 <= pos,
        pos + 4 <= b.len(),
        b.subrange(pos, pos + 4) == enc_u32(x),
    ensures
        take_u32(b, pos) == Some((x, pos + 4)),
{
    lemma_auto_spec_u32_to_from_le_bytes();
    assert(vstd::bytes::spec_u32_to_le_bytes(x).len() == 4);
}

pub proof fn lemma_enc_lengths()
    ensures
        forall|x: u64| (#[trigger] enc_u64(x)).len() == 8,
        forall|x: i64| (#[trigger] enc_i64(x)).len() == 8,
        forall|x: u32| (#[trigger] enc_u32(x)).len() == 4,
{
    lemma_auto_spec_u64_to_from_le_bytes();
    lemma_auto_spec_u32_to_from_le_bytes();
}

pub proof fn lemma_take_text(b: Seq<u8>, pos: int, s: Seq<char>)
    requires
        0 <= pos,
        pos + enc_text(s).len() <= b.len(),
        b.subrange(pos, pos + enc_text(s).len()) == enc_text(s),
        encode_utf8(s).len() <= u64::MAX,
    ensures
        take_text(b, pos) == Some((s, pos + enc_text(s).len())),
{
    lemma_enc_lengths();
    let body = encode_utf8(s);
    let n = body.len() as u64;
    let whole = enc_text(s);
    assert(b.subrange(pos, pos + 8) =~= whole.subrange(0, 8));
    assert(whole.subrange(0, 8) =~= enc_u64(n));
    lemma_take_u64(b, pos, n);
    assert(b.subrange(pos + 8, pos + 8 + n) =~= whole.subrange(8, 8 + n as int));
    assert(whole.subrange(8, 8 + n as int) =~= body);
    vstd::utf8::encode_utf8_valid_utf8(s);
    vstd::utf8::encode_utf8_decode_utf8(s);
}

pub proof fn lemma_words_body_len(d: Seq<u32>)
    ensures
        enc_words_body(d).len() == 4 * d.len(),
    decreases d.len(),
{
    lemma_enc_lengths();
    if d.len() > 0 {
        lemma_words_body_len(d.drop_last());
    }
}

pub proof fn lemma_take_words_body(b: Seq<u8>, pos: int, d: Seq<u32>)
    requires
        0 <= pos,
        pos + enc_words_body(d).len() <= b.len(),
        b.subrange(pos, pos + enc_words_body(d).len()) == enc_words_body(d),
    ensures
        take_words_body(b, pos, d.len()) == Some((d, pos + enc_words_body(d).len())),
    decreases d.len(),
{
    lemma_enc_lengths();
    if d.len() > 0 {
        let head = d.drop_last();
        let whole = enc_words_body(d);
        let hl = enc_words_body(head).len() as int;
        lemma_words_body_len(d);
        lemma_words_body_len(head);
        assert(b.subrange(pos, pos + hl) =~= whole.subrange(0, hl));
        assert(whole.subrange(0, hl) =~= enc_words_body(head));
        lemma_take_words_body(b, pos, head);
        assert(b.subrange(pos + hl, pos + hl + 4) =~= whole.subrange(hl, hl + 4));
        assert(whole.subrange(hl, hl + 4) =~= enc_u32(d.last()));
        lemma_take_u32(b, pos + hl, d.last());
        assert(head.push(d.last()) =~= d);
    } else {
        assert(d =~= Seq::<u32>::empty());
    }
}

/// Every key and value of `ps` has a byte length that fits a word.
pub open spec fn texts_fit(ps: Seq<(Seq<char>, Seq<char>)>) -> bool {
    forall|i: int|
        0 <= i < ps.len() ==> encode_utf8((#[trigger] ps[i]).0).len() <= u64::MAX && encode_utf8(
            ps[i].1,
        ).len() <= u64::MAX
}

/// The counts and text lengths of a vector's components and metadata fit a word, so
/// that the record written for it can be read back.
pub open spec fn record_fits(data: Seq<u32>, pairs: Seq<(Seq<char>, Seq<char>)>) -> bool {
    &&& data.len() <= u64::MAX
    &&& pairs.len() <= u64::MAX
    &&& texts_fit(pairs)
}

pub proof fn lemma_take_pairs_body(b: Seq<u8>, pos: int, ps: Seq<(Seq<char>, Seq<char>)>)
    requires
        0 <= pos,
        pos + enc_pairs_body(ps).len() <= b.len(),
        b.subrange(pos, pos + enc_pairs_body(ps).len()) == enc_pairs_body(ps),
        texts_fit(ps),
    ensures
        take_pairs_body(b, pos, ps.len()) == Some((ps, pos + enc_pairs_body(ps).len())),
    decreases ps.len(),
{
    if ps.len() > 0 {
        let head = ps.drop_last();
        let whole = enc_pairs_body(ps);
        let hl = enc_pairs_body(head).len() as int;
        let kl = enc_text(ps.last().0).len() as int;
        let vl = enc_text(ps.last().1).len() as int;
        assert(whole == enc_pairs_body(head) + enc_text(ps.last().0) + enc_text(ps.last().1));
        assert(b.subrange(pos, pos + hl) =~= whole.subrange(0, hl));
        assert(whole.subrange(0, hl) =~= enc_pairs_body(head));
        assert(texts_fit(head)) by {
            assert forall|i: int| 0 <= i < head.len() implies encode_utf8((#[trigger] head[i]).0).len()
                <= u64::MAX && encode_utf8(head[i].1).len() <= u64::MAX by {
                assert(head[i] == ps[i]);
            }
        }
        lemma_take_pairs_body(b, pos, head);
        assert(b.subrange(pos + hl, pos + hl + kl) =~= whole.subrange(hl, hl + kl));
        assert(whole.subrange(hl, hl + kl) =~= enc_text(ps.last().0));
        assert(ps[ps.len() - 1] == ps.last());
        lemma_take_text(b, pos + hl, ps.last().0);
        assert(b.subrange(pos + hl + kl, pos + hl + kl + vl) =~= whole.subrange(hl + kl, hl + kl + vl));
        assert(whole.subrange(hl + kl, hl + kl + vl) =~= enc_text(ps.last().1));
        lemma_take_text(b, pos + hl + kl, ps.last().1);
        assert(head.push((ps.last().0, ps.last().1)) =~= ps);
    } else {
        assert(ps =~= Seq::<(Seq<char>, Seq<char>)>::empty());
    }
}

/// A vector record reads back as what was written.
pub proof fn lemma_vector_round_trip(
    data: Seq<u32>,
    timestamp: i64,
    pairs: Seq<(Seq<char>, Seq<char>)>,
    id: u64,
)
    requires
        data.len() <= u64::MAX,
        pairs.len() <= u64::MAX,
        texts_fit(pairs),
        keys_ascend(pairs),
    ensures
        parse_vector(enc_vector(data, timestamp, pairs, id)) == Some((data, timestamp, pairs, id)),
{
    lemma_enc_lengths();
    let b = enc_vector(data, timestamp, pairs, id);
    let a1 = enc_u64(data.len() as u64);
    let a2 = enc_words_body(data);
    let a3 = enc_i64(timestamp);
    let a4 = enc_u64(pairs.len() as u64);
    let a5 = enc_pairs_body(pairs);
    let a6 = enc_u64(id);
    assert(b =~= a1 + a2 + a3 + a4 + a5 + a6);
    let l1 = 8int;
    let l2 = l1 + a2.len();
    let l3 = l2 + 8;
    let l4 = l3 + 8;
    let l5 = l4 + a5.len();
    assert(b.subrange(0, l1) =~= a1);
    lemma_take_u64(b, 0, data.len() as u64);
    assert(b.subrange(l1, l2) =~= a2);
    lemma_take_words_body(b, l1, data);
    assert(b.subrange(l2, l3) =~= a3);
    lemma_take_i64(b, l2, timestamp);
    assert(b.subrange(l3, l4) =~= a4);
    lemma_take_u64(b, l3, pairs.len() as u64);
    assert(b.subrange(l4, l5) =~= a5);
    lemma_take_pairs_body(b, l4, pairs);
    assert(b.subrange(l5, l5 + 8) =~= a6);
    lemma_take_u64(b, l5, id);
}

/// A bucket header reads back as what was written.
pub proof fn lemma_bucket_round_trip(id: u64, created_at: i64, updated_at: i64)
    ensures
        parse_bucket(enc_bucket(id, created_at, updated_at)) == Some((id, created_at, updated_at)),
{
    lemma_enc_lengths();
    let b = enc_bucket(id, created_at, updated_at);
    assert(b.subrange(0, 8) =~= enc_u64(id));
    lemma_take_u64(b, 0, id);
    assert(b.subrange(8, 16) =~= enc_i64(created_at));
    lemma_take_i64(b, 8, created_at);
    assert(b.subrange(16, 24) =~= enc_i64(updated_at));
    lemma_take_i64(b, 16, updated_at);
}

/// A collection header reads back as what was written.
pub proof fn lemma_collection_round_trip(name: Seq<char>, id: u64, metric: Seq<char>, dimension: u64)
    requires
        encode_utf8(name).len() <= u64::MAX,
        encode_utf8(metric).len() <= u64::MAX,
    ensures
        parse_collection(enc_collection(name, id, metric, dimension)) == Some(
            (name, id, metric, dimension),
        ),
{
    lemma_enc_lengths();
    let b = enc_collection(name, id, metric, dimension);
    let l1 = enc_text(name).len() as int;
    let l2 = l1 + 8;
    let l3 = l2 + enc_text(metric).len();
    assert(b.subrange(0, l1) =~= enc_text(name));
    lemma_take_text(b, 0, name);
    assert(b.subrange(l1, l2) =~= enc_u64(id));
    lemma_take_u64(b, l1, id);
    assert(b.subrange(l2, l3) =~= enc_text(metric));
    lemma_take_text(b, l2, metric);
    assert(b.subrange(l3, l3 + 8) =~= enc_u64(dimension));
    lemma_take_u64(b, l3, dimension);
}

// ---------------------------------------------------------------- reading

/// Builds a string from bytes with `String::from_utf8`: `Some` exactly when the bytes
/// are valid UTF-8, and then the string whose UTF-8 form they are.
#[verifier::external_body]
fn string_from_utf8(bytes: Vec<u8>) -> (r: Option<String>)
    ensures
        r is Some <==> valid_utf8(bytes@),
        r matches Some(s) ==> s@ == decode_utf8(bytes@),
{
    match String::from_utf8(bytes) {
        Ok(s) => Some(s),
        Err(_) => None,
    }
}

pub fn read_u64(b: &[u8], pos: usize) -> (r: Option<(u64, usize)>)
    ensures
        match r {
            Some((x, p)) => take_u64(b@, pos as int) == Some((x, p as int)),
            None => take_u64(b@, pos as int) is None,
        },
{
    if pos > b.len() || b.len() - pos < 8 {
        return None;
    }
    let x = u64_from_le_bytes(slice_subrange(b, pos, pos + 8));
    Some((x, pos + 8))
}

pub fn read_i64(b: &[u8], pos: usize) -> (r: Option<(i64, usize)>)
    ensures
        match r {
            Some((x, p)) => take_i64(b@, pos as int) == Some((x, p as int)),
            None => take_i64(b@, pos as int) is None,
        },
{
    match read_u64(b, pos) {
        Some((x, p)) => {
            let y: i64 = #[verifier::truncate] (x as i64);
            Some((y, p))
        },
        None => None,
    }
}

pub fn read_u32(b: &[u8], pos: usize) -> (r: Option<(u32, usize)>)
    ensures
        match r {
            Some((x, p)) => take_u32(b@, pos as int) == Some((x, p as int)),
            None => take_u32(b@, pos as int) is None,
        },
{
    if pos > b.len() || b.len() - pos < 4 {
        return None;
    }
    let x = u32_from_le_bytes(slice_subrange(b, pos, pos + 4));
    Some((x, pos + 4))
}

pub fn read_text(b: &[u8], pos: usize) -> (r: Option<(String, usize)>)
    ensures
        match r {
            Some((s, p)) => take_text(b@, pos as int) == Some((s@, p as int)),
            None => take_text(b@, pos as int) is None,
        },
{
    let (n, p) = match read_u64(b, pos) {
        Some(x) => x,
        None => {
            return None;
        },
    };
    if n > (b.len() - p) as u64 {
        return None;
    }
    let len = n as usize;
    let piece = slice_subrange(b, p, p + len);
    let mut bytes: Vec<u8> = Vec::new();
    crate::codec::append_bytes(&mut bytes, piece);
    assert(bytes@ =~= b@.subrange(p as int, p + n));
    match string_from_utf8(bytes) {
        Some(s) => Some((s, p + len)),
        None => None,
    }
}

pub fn read_words(b: &[u8], pos: usize) -> (r: Option<(Vec<u32>, usize)>)
    ensures
        match r {
            Some((d, p)) => take_words(b@, pos as int) == Some((d@, p as int)),
            None => take_words(b@, pos as int) is None,
        },
{
    let (n, start) = match read_u64(b, pos) {
        Some(x) => x,
        None => {
            return None;
        },
    };
    let mut d: Vec<u32> = Vec::new();
    let mut p: usize = start;
    let mut i: u64 = 0;
    while i < n
        invariant
            0 <= i <= n,
            take_u64(b@, pos as int) == Some((n, start as int)),
            take_words_body(b@, start as int, i as nat) == Some((d@, p as int)),
        decreases n - i,
    {
        match read_u32(b, p) {
            Some((w, q)) => {
                d.push(w);
                p = q;
            },
            None => {
                proof {
                    lemma_words_fail(b@, start as int, (i + 1) as nat, n as nat);
                }
                return None;
            },
        }
        i += 1;
    }
    Some((d, p))
}

/// Once reading the first `m` components fails, reading more fails too.
proof fn lemma_words_fail(b: Seq<u8>, pos: int, m: nat, n: nat)
    requires
        m <= n,
        take_words_body(b, pos, m) is None,
    ensures
        take_words_body(b, pos, n) is None,
    decreases n,
{
    if m < n {
        lemma_words_fail(b, pos, m, (n - 1) as nat);
    }
}

proof fn lemma_pairs_fail(b: Seq<u8>, pos: int, m: nat, n: nat)
    requires
        m <= n,
        take_pairs_body(b, pos, m) is None,
    ensures
        take_pairs_body(b, pos, n) is None,
    decreases n,
{
    if m < n {
        lemma_pairs_fail(b, pos, m, (n - 1) as nat);
    }
}

/// Once the keys read so far do not ascend, no longer list read from there does.
proof fn lemma_pairs_disorder(b: Seq<u8>, pos: int, m: nat, n: nat)
    requires
        m <= n,
        take_pairs_body(b, pos, m) is Some,
        !keys_ascend(take_pairs_body(b, pos, m)->Some_0.0),
    ensures
        take_pairs_body(b, pos, n) is Some ==> !keys_ascend(take_pairs_body(b, pos, n)->Some_0.0),
    decreases n,
{
    if m < n {
        lemma_pairs_disorder(b, pos, m, (n - 1) as nat);
        if take_pairs_body(b, pos, n) is Some {
            let shorter = take_pairs_body(b, pos, (n - 1) as nat)->Some_0.0;
            let longer = take_pairs_body(b, pos, n)->Some_0.0;
            assert(longer.drop_last() =~= shorter);
            if keys_ascend(longer) {
                assert forall|i: int, j: int| 0 <= i < j < shorter.len() implies crate::text::str_lt(
                    #[trigger] shorter[i].0,
                    #[trigger] shorter[j].0,
                ) by {
                    assert(shorter[i] == longer[i] && shorter[j] == longer[j]);
                }
            }
        }
    }
}

/// Reads metadata at `pos`. Entries whose keys do not ascend are refused.
pub fn read_pairs(b: &[u8], pos: usize) -> (r: Option<(Metadata, usize)>)
    ensures
        match r {
            Some((m, p)) => take_pairs(b@, pos as int) == Some((m.pairs(), p as int)) && m.wf(),
            None => take_pairs(b@, pos as int) is None || !keys_ascend(
                take_pairs(b@, pos as int)->Some_0.0,
            ),
        },
{
    let (n, start) = match read_u64(b, pos) {
        Some(x) => x,
        None => {
            return None;
        },
    };
    let mut m = Metadata::new();
    let mut p: usize = start;
    let mut i: u64 = 0;
    while i < n
        invariant
            0 <= i <= n,
            m.wf(),
            take_u64(b@, pos as int) == Some((n, start as int)),
            take_pairs_body(b@, start as int, i as nat) == Some((m.pairs(), p as int)),
        decreases n - i,
    {
        let (key, q) = match read_text(b, p) {
            Some(x) => x,
            None => {
                proof {
                    lemma_pairs_fail(b@, start as int, (i + 1) as nat, n as nat);
                }
                return None;
            },
        };
        let (value, r) = match read_text(b, q) {
            Some(x) => x,
            None => {
                proof {
                    lemma_pairs_fail(b@, start as int, (i + 1) as nat, n as nat);
                }
                return None;
            },
        };
        let ghost before = m.pairs();
        let ghost k = key@;
        let ghost v = value@;
        if !m.push_last(key, value) {
            proof {
                let longer = before.push((k, v));
                assert(take_pairs_body(b@, start as int, (i + 1) as nat) == Some((longer, r as int)));
                assert(!keys_ascend(longer)) by {
                    if keys_ascend(longer) {
                        assert(crate::text::str_lt(
                            longer[before.len() - 1].0,
                            longer[before.len() as int].0,
                        ));
                    }
                }
                lemma_pairs_disorder(b@, start as int, (i + 1) as nat, n as nat);
            }
            return None;
        }
        p = r;
        i += 1;
    }
    Some((m, p))
}

/// A vector record as stored.
pub struct StorageVector {
    pub data: Vec<u32>,
    pub timestamp: i64,
    pub metadata: Metadata,
    pub hash_id: u64,
}

/// A collection header as stored.
pub struct StorageCollection {
    pub name: String,
    pub id: u64,
    pub lsh_metric: String,
    pub vector_dimension: usize,
}

/// A bucket header as stored.
#[derive(Clone, Copy, Debug, PartialEq, Eq, Structural)]
pub struct StorageBucket {
    pub id: u64,
    pub created_at: i64,
    pub updated_at: i64,
}

/// Reads a vector record. Bytes that are not exactly one record are an I/O error.
pub fn decode_vector(b: &[u8]) -> (r: Result<StorageVector, DbError>)
    ensures
        match r {
            Ok(v) => parse_vector(b@) == Some((v.data@, v.timestamp, v.metadata.pairs(), v.hash_id))
                && v.metadata.wf(),
            Err(e) => e == DbError::Io && parse_vector(b@) is None,
        },
{
    let (data, p1) = match read_words(b, 0) {
        Some(x) => x,
        None => {
            return Err(DbError::Io);
        },
    };
    let (timestamp, p2) = match read_i64(b, p1) {
        Some(x) => x,
        None => {
            return Err(DbError::Io);
        },
    };
    let (metadata, p3) = match read_pairs(b, p2) {
        Some(x) => x,
        None => {
            return Err(DbError::Io);
        },
    };
    let (hash_id, p4) = match read_u64(b, p3) {
        Some(x) => x,
        None => {
            return Err(DbError::Io);
        },
    };
    if p4 != b.len() {
        return Err(DbError::Io);
    }
    Ok(StorageVector { data, timestamp, metadata, hash_id })
}

/// Reads a bucket header.
pub fn decode_bucket(b: &[u8]) -> (r: Result<StorageBucket, DbError>)
    ensures
        match r {
            Ok(h) => parse_bucket(b@) == Some((h.id, h.created_at, h.updated_at)),
            Err(e) => e == DbError::Io && parse_bucket(b@) is None,
        },
{
    let (id, p1) = match read_u64(b, 0) {
        Some(x) => x,
        None => {
            return Err(DbError::Io);
        },
    };
    let (created_at, p2) = match read_i64(b, p1) {
        Some(x) => x,
        None => {
            return Err(DbError::Io);
        },
    };
    let (updated_at, p3) = match read_i64(b, p2) {
        Some(x) => x,
        None => {
            return Err(DbError::Io);
        },
    };
    if p3 != b.len() {
        return Err(DbError::Io);
    }
    Ok(StorageBucket { id, created_at, updated_at })
}

/// Reads a collection header. A dimension beyond the machine's range is an I/O error.
pub fn decode_collection(b: &[u8]) -> (r: Result<StorageCollection, DbError>)
    ensures
        match r {
            Ok(h) => parse_collection(b@) == Some(
                (h.name@, h.id, h.lsh_metric@, h.vector_dimension as u64),
            ),
            Err(e) => e == DbError::Io && (parse_collection(b@) is None || parse_collection(
                b@,
            )->Some_0.3 > usize::MAX),
        },
{
    let (name, p1) = match read_text(b, 0) {
        Some(x) => x,
        None => {
            return Err(DbError::Io);
        },
    };
    let (id, p2) = match read_u64(b, p1) {
        Some(x) => x,
        None => {
            return Err(DbError::Io);
        },
    };
    let (lsh_metric, p3) = match read_text(b, p2) {
        Some(x) => x,
        None => {
            return Err(DbError::Io);
        },
    };
    let (dim, p4) = match read_u64(b, p3) {
        Some(x) => x,
        None => {
            return Err(DbError::Io);
        },
    };
    if p4 != b.len() {
        return Err(DbError::Io);
    }
    if dim > usize::MAX as u64 {
        return Err(DbError::Io);
    }
    Ok(StorageCollection { name, id, lsh_metric, vector_dimension: dim as usize })
}

} // verus!
