//! Storage layout of embeddings and the ranking of search hits.
//!
//! An embedding is handled as the bit patterns of its components.

use crate::rows;
use crate::rows::sort_rows;
use vstd::prelude::*;

verus! {

/// Four bytes of a 32-bit pattern, lowest byte first.
pub open spec fn le_bytes(x: u32) -> Seq<u8> {
    seq![
        (x % 256) as u8,
        (x / 256 % 256) as u8,
        (x / 65536 % 256) as u8,
        (x / 16777216) as u8,
    ]
}

/// The 32-bit pattern of four bytes, lowest byte first.
pub open spec fn from_le_bytes(b: Seq<u8>) -> u32 {
    (b[0] + 256 * b[1] + 65536 * b[2] + 16777216 * b[3]) as u32
}

/// The stored form of the first `n` components.
pub open spec fn blob_of(bits: Seq<u32>, n: int) -> Seq<u8>
    decreases n,
{
    if n <= 0 {
        Seq::empty()
    } else {
        blob_of(bits, n - 1) + le_bytes(bits[n - 1])
    }
}

/// The components in a stored form; bytes that make up no whole component at
/// the end are left out.
pub open spec fn components_of(blob: Seq<u8>) -> Seq<u32> {
    Seq::new(blob.len() / 4, |i: int| from_le_bytes(blob.subrange(4 * i, 4 * i + 4)))
}

/// Stores an embedding: four bytes per component, lowest byte first.
pub fn embedding_to_blob(bits: &[u32]) -> (r: Vec<u8>)
    ensures
        r@ == blob_of(bits@, bits@.len() as int),
{
    let mut blob: Vec<u8> = Vec::new();
    let mut i: usize = 0;
    while i < bits.len()
        invariant
            i <= bits@.len(),
            blob@ == blob_of(bits@, i as int),
        decreases bits@.len() - i,
    {
        let x: u32 = bits[i];
        blob.push((x % 256) as u8);
        blob.push((x / 256 % 256) as u8);
        blob.push((x / 65536 % 256) as u8);
        blob.push((x / 16777216) as u8);
        assert(blob@ =~= blob_of(bits@, i as int) + le_bytes(x));
        i += 1;
    }
    blob
}

/// Reads a stored embedding.
pub fn blob_to_embedding(blob: &[u8]) -> (r: Vec<u32>)
    ensures
        r@ == components_of(blob@),
{
    let mut bits: Vec<u32> = Vec::new();
    let total: usize = blob.len();
    let n: usize = total / 4;
    let mut i: usize = 0;
    while i < n
        invariant
            i <= n,
            total == blob@.len(),
            n == total / 4,
            bits@.len() == i,
            forall|j: int|
                0 <= j < i ==> #[trigger] bits@[j] == from_le_bytes(
                    blob@.subrange(4 * j, 4 * j + 4),
                ),
        decreases n - i,
    {
        let b0: u32 = blob[4 * i] as u32;
        let b1: u32 = blob[4 * i + 1] as u32;
        let b2: u32 = blob[4 * i + 2] as u32;
        let b3: u32 = blob[4 * i + 3] as u32;
        bits.push(b0 + 256 * b1 + 65536 * b2 + 16777216 * b3);
        i += 1;
    }
    assert(bits@ =~= components_of(blob@));
    bits
}

proof fn lemma_bytes_round_trip(x: u32)
    ensures
        from_le_bytes(le_bytes(x)) == x,
{
    let b0 = x % 256;
    let b1 = x / 256 % 256;
    let b2 = x / 65536 % 256;
    let b3 = x / 16777216;
    assert(b0 + 256 * b1 + 65536 * b2 + 16777216 * b3 == x && b3 < 256) by (nonlinear_arith)
        requires
            b0 == x % 256,
            b1 == x / 256 % 256,
            b2 == x / 65536 % 256,
            b3 == x / 16777216,
            0 <= x <= 0xffff_ffff,
    ;
}

proof fn lemma_blob(bits: Seq<u32>, n: int)
    requires
        0 <= n <= bits.len(),
    ensures
        blob_of(bits, n).len() == 4 * n,
        forall|j: int|
            0 <= j < n ==> #[trigger] blob_of(bits, n).subrange(4 * j, 4 * j + 4) == le_bytes(
                bits[j],
            ),
    decreases n,
{
    if n > 0 {
        lemma_blob(bits, n - 1);
        let before = blob_of(bits, n - 1);
        let after = blob_of(bits, n);
        assert forall|j: int| 0 <= j < n implies #[trigger] after.subrange(4 * j, 4 * j + 4)
            == le_bytes(bits[j]) by {
            if j < n - 1 {
                assert(after.subrange(4 * j, 4 * j + 4) =~= before.subrange(4 * j, 4 * j + 4));
            } else {
                assert(after.subrange(4 * j, 4 * j + 4) =~= le_bytes(bits[j]));
            }
        }
    }
}

/// An embedding is read back exactly as it was stored.
pub proof fn law_blob_round_trip(bits: Seq<u32>)
    ensures
        components_of(blob_of(bits, bits.len() as int)) == bits,
{
    let n = bits.len() as int;
    let blob = blob_of(bits, n);
    lemma_blob(bits, n);
    assert forall|j: int| 0 <= j < n implies components_of(blob)[j] == bits[j] by {
        assert(blob.subrange(4 * j, 4 * j + 4) == le_bytes(bits[j]));
        lemma_bytes_round_trip(bits[j]);
    }
    assert(components_of(blob) =~= bits);
}

/// A candidate of a search: the chunk, its page, and the key by which it is
/// ranked. A greater key is a better match.
#[derive(Clone, Copy, Debug, PartialEq, Eq, Structural)]
pub struct RankedHit {
    pub chunk_id: i64,
    pub page_id: i64,
    pub key: i64,
}

/// A hit comes before one that is worse.
pub open spec fn better() -> spec_fn(RankedHit, RankedHit) -> bool {
    |a: RankedHit, b: RankedHit| a.key > b.key
}

/// The hits with a key of at least `threshold`, from the best to the worst;
/// equal ones keep their order.
pub open spec fn ranked(hits: Seq<RankedHit>, threshold: i64) -> Seq<RankedHit> {
    rows::sorted(reaching(hits, threshold), better())
}

/// The hits with a key of at least `threshold`.
pub open spec fn reaching(hits: Seq<RankedHit>, threshold: i64) -> Seq<RankedHit> {
    hits.filter(|h: RankedHit| h.key >= threshold)
}

/// Ranks the candidates of a search: those below the threshold are left out,
/// the best come first, and at most `limit` are kept.
pub fn search_embeddings(hits: &[RankedHit], limit: usize, threshold: i64) -> (r: Vec<RankedHit>)
    ensures
        r@ == if ranked(hits@, threshold).len() > limit {
            ranked(hits@, threshold).take(limit as int)
        } else {
            ranked(hits@, threshold)
        },
{
    let mut out: Vec<RankedHit> = Vec::new();
    let mut i: usize = 0;
    proof {
        reveal(Seq::filter);
        assert(reaching(hits@.take(0), threshold) =~= Seq::<RankedHit>::empty());
    }
    while i < hits.len()
        invariant
            i <= hits@.len(),
            out@ == reaching(hits@.take(i as int), threshold),
        decreases hits@.len() - i,
    {
        proof {
            reveal(Seq::filter);
            assert(hits@.take(i + 1).drop_last() =~= hits@.take(i as int));
            assert(hits@.take(i + 1).last() == hits@[i as int]);
        }
        let hit: RankedHit = hits[i];
        if hit.key >= threshold {
            out.push(hit);
        }
        i += 1;
    }
    assert(hits@.take(i as int) =~= hits@);
    let first = |a: &RankedHit, b: &RankedHit| -> (c: bool)
        ensures
            c == (a.key > b.key),
    {
        a.key > b.key
    };
    sort_rows(&mut out, first, Ghost(better()));
    if out.len() > limit {
        out.truncate(limit);
    }
    out
}

/// Ranked hits run from the best to the worst, and every one of them reaches
/// the threshold.
pub proof fn law_ranked(hits: Seq<RankedHit>, threshold: i64)
    ensures
        forall|i: int, j: int|
            0 <= i < j < ranked(hits, threshold).len() ==> (#[trigger] ranked(
                hits,
                threshold,
            )[i]).key >= (#[trigger] ranked(hits, threshold)[j]).key,
        forall|i: int|
            0 <= i < ranked(hits, threshold).len() ==> (#[trigger] ranked(hits, threshold)[i]).key
                >= threshold,
        ranked(hits, threshold).to_multiset() =~= reaching(hits, threshold).to_multiset(),
{
    let kept = reaching(hits, threshold);
    let all = ranked(hits, threshold);
    rows::law_sorted(kept, better());
    assert forall|i: int, j: int| 0 <= i < j < all.len() implies (#[trigger] all[i]).key >= (
    #[trigger] all[j]).key by {
        assert(!better()(all[j], all[i]));
    }
    assert forall|i: int| 0 <= i < all.len() implies (#[trigger] all[i]).key >= threshold by {
        broadcast use vstd::seq_lib::group_filter_ensures;

        rows::lemma_sorted_from(kept, better());
        assert(kept.contains(all[i]));
        let k = choose|k: int| 0 <= k < kept.len() && kept[k] == all[i];
        assert(kept[k].key >= threshold);
    }
}

/// The hits with the given key, in order.
pub open spec fn with_key(hits: Seq<RankedHit>, key: i64) -> Seq<RankedHit> {
    hits.filter(|h: RankedHit| h.key == key)
}

/// Hits that are equally good keep their order: those with a given key stand in
/// the ranking exactly as they were found, as long as the key reaches the
/// threshold.
pub proof fn law_equal_hits_keep_their_order(hits: Seq<RankedHit>, threshold: i64, key: i64)
    ensures
        with_key(ranked(hits, threshold), key) == if key >= threshold {
            with_key(hits, key)
        } else {
            Seq::empty()
        },
{
    rows::law_equal_rows_keep_their_order(
        reaching(hits, threshold),
        better(),
        |h: RankedHit| h.key == key,
    );
    lemma_reaching_with_key(hits, threshold, key);
}

proof fn lemma_reaching_with_key(hits: Seq<RankedHit>, threshold: i64, key: i64)
    ensures
        with_key(reaching(hits, threshold), key) == if key >= threshold {
            with_key(hits, key)
        } else {
            Seq::empty()
        },
    decreases hits.len(),
{
    reveal(Seq::filter);
    if hits.len() > 0 {
        let init = reaching(hits.drop_last(), threshold);
        lemma_reaching_with_key(hits.drop_last(), threshold, key);
        assert(init.push(hits.last()).drop_last() =~= init);
    }
}

} // verus!
