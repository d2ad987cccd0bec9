//! The written form of vectors, bucket headers and collection headers: fixed-width
//! words least significant byte first, and length-prefixed texts and lists.

use vstd::prelude::*;
use vstd::bytes::spec_u32_to_le_bytes;
use vstd::bytes::spec_u64_to_le_bytes;
use vstd::bytes::u32_to_le_bytes;
use vstd::bytes::u64_to_le_bytes;
use vstd::utf8::encode_utf8;
use crate::decode::lemma_bucket_round_trip;
use crate::decode::lemma_collection_round_trip;
use crate::decode::lemma_vector_round_trip;
use crate::decode::parse_bucket;
use crate::decode::parse_collection;
use crate::decode::parse_vector;
use crate::decode::record_fits;
use crate::decode::texts_fit;
use crate::metadata::Metadata;

verus! {

/// Eight bytes, least significant first.
pub open spec fn enc_u64(x: u64) -> Seq<u8> {
    spec_u64_to_le_bytes(x)
}

/// A signed word is written as the unsigned word with the same bits.
pub open spec fn enc_i64(x: i64) -> Seq<u8> {
    spec_u64_to_le_bytes(x as u64)
}

/// Four bytes, least significant first.
pub open spec fn enc_u32(x: u32) -> Seq<u8> {
    spec_u32_to_le_bytes(x)
}

/// A text is written as the length of its UTF-8 form, then that form.
pub open spec fn enc_text(s: Seq<char>) -> Seq<u8> {
    enc_u64(encode_utf8(s).len() as u64) + encode_utf8(s)
}

/// The components of a vector, one after another.
pub open spec fn enc_words_body(d: Seq<u32>) -> Seq<u8>
    decreases d.len(),
{
    if d.len() == 0 {
        Seq::empty()
    } else {
        enc_words_body(d.drop_last()) + enc_u32(d.last())
    }
}

/// A vector's components: their count, then each.
pub open spec fn enc_words(d: Seq<u32>) -> Seq<u8> {
    enc_u64(d.len() as u64) + enc_words_body(d)
}

/// Metadata entries, key then value, one after another.
pub open spec fn enc_pairs_body(ps: Seq<(Seq<char>, Seq<char>)>) -> Seq<u8>
    decreases ps.len(),
{
    if ps.len() == 0 {
        Seq::empty()
    } else {
        enc_pairs_body(ps.drop_last()) + enc_text(ps.last().0) + enc_text(ps.last().1)
    }
}

/// Metadata: the count of entries, then each.
pub open spec fn enc_pairs(ps: Seq<(Seq<char>, Seq<char>)>) -> Seq<u8> {
    enc_u64(ps.len() as u64) + enc_pairs_body(ps)
}

/// What a vector's identifier is the digest of: components, timestamp, metadata.
pub open spec fn enc_content(data: Seq<u32>, timestamp: i64, pairs: Seq<(Seq<char>, Seq<char>)>) -> Seq<
    u8,
> {
    enc_words(data) + enc_i64(timestamp) + enc_pairs(pairs)
}

/// A stored vector: its content, then its identifier.
pub open spec fn enc_vector(
    data: Seq<u32>,
    timestamp: i64,
    pairs: Seq<(Seq<char>, Seq<char>)>,
    id: u64,
) -> Seq<u8> {
    enc_content(data, timestamp, pairs) + enc_u64(id)
}

/// A stored bucket header.
pub open spec fn enc_bucket(id: u64, created_at: i64, updated_at: i64) -> Seq<u8> {
    enc_u64(id) + enc_i64(created_at) + enc_i64(updated_at)
}

/// A stored collection header.
pub open spec fn enc_collection(name: Seq<char>, id: u64, metric: Seq<char>, dimension: u64) -> Seq<u8> {
    enc_text(name) + enc_u64(id) + enc_text(metric) + enc_u64(dimension)
}

/// Appends `src` to `out`.
pub fn append_bytes(out: &mut Vec<u8>, src: &[u8])
    ensures
        final(out)@ == old(out)@ + src@,
{
    let mut i: usize = 0;
    while i < src.len()
        invariant
            0 <= i <= src.len(),
            out@ == old(out)@ + src@.take(i as int),
        decreases src.len() - i,
    {
        out.push(src[i]);
        proof {
            assert(src@.take(i + 1) =~= src@.take(i as int).push(src@[i as int]));
            assert(out@ =~= old(out)@ + src@.take(i + 1));
        }
        i += 1;
    }
    assert(src@.take(i as int) == src@);
}

pub fn put_u64(out: &mut Vec<u8>, x: u64)
    ensures
        final(out)@ == old(out)@ + enc_u64(x),
{
    let b = u64_to_le_bytes(x);
    append_bytes(out, b.as_slice());
}

pub fn put_i64(out: &mut Vec<u8>, x: i64)
    ensures
        final(out)@ == old(out)@ + enc_i64(x),
{
    let w: u64 = #[verifier::truncate] (x as u64);
    put_u64(out, w);
}

pub fn put_u32(out: &mut Vec<u8>, x: u32)
    ensures
        final(out)@ == old(out)@ + enc_u32(x),
{
    let b = u32_to_le_bytes(x);
    append_bytes(out, b.as_slice());
}

pub fn put_text(out: &mut Vec<u8>, s: &str)
    ensures
        final(out)@ == old(out)@ + enc_text(s@),
        encode_utf8(s@).len() <= u64::MAX,
{
    let b = s.as_bytes();
    put_u64(out, b.len() as u64);
    append_bytes(out, b);
    assert(out@ =~= old(out)@ + enc_text(s@));
}

pub fn put_words(out: &mut Vec<u8>, d: &Vec<u32>)
    ensures
        final(out)@ == old(out)@ + enc_words(d@),
        d@.len() <= u64::MAX,
{
    put_u64(out, d.len() as u64);
    let ghost head = out@;
    let mut i: usize = 0;
    while i < d.len()
        invariant
            0 <= i <= d.len(),
            out@ == head + enc_words_body(d@.take(i as int)),
        decreases d.len() - i,
    {
        put_u32(out, d[i]);
        proof {
            assert(d@.take(i + 1).drop_last() =~= d@.take(i as int));
            assert(out@ =~= head + enc_words_body(d@.take(i + 1)));
        }
        i += 1;
    }
    assert(d@.take(i as int) == d@);
    assert(out@ =~= old(out)@ + enc_words(d@));
}

pub fn put_pairs(out: &mut Vec<u8>, m: &Metadata)
    ensures
        final(out)@ == old(out)@ + enc_pairs(m.pairs()),
        m.pairs().len() <= u64::MAX,
        texts_fit(m.pairs()),
{
    put_u64(out, m.len() as u64);
    let ghost head = out@;
    let mut i: usize = 0;
    while i < m.len()
        invariant
            0 <= i <= m.pairs().len(),
            m.pairs().len() <= u64::MAX,
            out@ == head + enc_pairs_body(m.pairs().take(i as int)),
            forall|j: int|
                0 <= j < i ==> encode_utf8((#[trigger] m.pairs()[j]).0).len() <= u64::MAX && encode_utf8(
                    m.pairs()[j].1,
                ).len() <= u64::MAX,
        decreases m.pairs().len() - i,
    {
        put_text(out, m.key_at(i).as_str());
        put_text(out, m.value_at(i).as_str());
        proof {
            assert(m.pairs().take(i + 1).drop_last() =~= m.pairs().take(i as int));
            assert(out@ =~= head + enc_pairs_body(m.pairs().take(i + 1)));
        }
        i += 1;
    }
    assert(m.pairs().take(i as int) == m.pairs());
    assert(out@ =~= old(out)@ + enc_pairs(m.pairs()));
}

/// Writes a vector's content: what its identifier is computed from.
pub fn encode_content(data: &Vec<u32>, timestamp: i64, metadata: &Metadata) -> (out: Vec<u8>)
    ensures
        out@ == enc_content(data@, timestamp, metadata.pairs()),
        record_fits(data@, metadata.pairs()),
{
    let mut out: Vec<u8> = Vec::new();
    put_words(&mut out, data);
    put_i64(&mut out, timestamp);
    put_pairs(&mut out, metadata);
    assert(out@ =~= enc_content(data@, timestamp, metadata.pairs()));
    out
}

/// Writes a vector record. The record of well-formed metadata reads back as what was
/// written.
pub fn encode_vector(data: &Vec<u32>, timestamp: i64, metadata: &Metadata, id: u64) -> (out: Vec<u8>)
    ensures
        out@ == enc_vector(data@, timestamp, metadata.pairs(), id),
        record_fits(data@, metadata.pairs()),
        metadata.wf() ==> parse_vector(out@) == Some((data@, timestamp, metadata.pairs(), id)),
{
    let mut out = encode_content(data, timestamp, metadata);
    put_u64(&mut out, id);
    proof {
        if metadata.wf() {
            lemma_vector_round_trip(data@, timestamp, metadata.pairs(), id);
        }
    }
    out
}

/// Writes a bucket header, which reads back as what was written.
pub fn encode_bucket(id: u64, created_at: i64, updated_at: i64) -> (out: Vec<u8>)
    ensures
        out@ == enc_bucket(id, created_at, updated_at),
        parse_bucket(out@) == Some((id, created_at, updated_at)),
{
    let mut out: Vec<u8> = Vec::new();
    put_u64(&mut out, id);
    put_i64(&mut out, created_at);
    put_i64(&mut out, updated_at);
    proof {
        assert(out@ =~= enc_bucket(id, created_at, updated_at));
        lemma_bucket_round_trip(id, created_at, updated_at);
    }
    out
}

/// Writes a collection header, which reads back as what was written.
pub fn encode_collection(name: &str, id: u64, metric: &str, dimension: usize) -> (out: Vec<u8>)
    ensures
        out@ == enc_collection(name@, id, metric@, dimension as u64),
        encode_utf8(name@).len() <= u64::MAX,
        encode_utf8(metric@).len() <= u64::MAX,
        parse_collection(out@) == Some((name@, id, metric@, dimension as u64)),
{
    let mut out: Vec<u8> = Vec::new();
    put_text(&mut out, name);
    put_u64(&mut out, id);
    put_text(&mut out, metric);
    put_u64(&mut out, dimension as u64);
    proof {
        assert(out@ =~= enc_collection(name@, id, metric@, dimension as u64));
        lemma_collection_round_trip(name@, id, metric@, dimension as u64);
    }
    out
}

} // verus!
