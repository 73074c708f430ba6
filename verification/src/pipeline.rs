use vstd::prelude::*;
use crate::color::{color_spec, colorize};
use crate::dedup::{
    dedup, dedup_spec, lemma_dedup_counts_nonneg, lemma_dedup_multiplicity,
    lemma_dedup_strictly_increasing, lemma_dedup_total_count, lemma_total_count_element_bound,
    total_count,
};
use crate::pack::{pack_triplets, packed_keys};
use crate::point::Point;
use crate::sort::{key_le, lemma_key_le_total_ordering, sort_keys};

verus! {

/// The packed keys of `bytes` in ascending order: the multiset of triplet
/// keys, as the unique sorted sequence.
pub open spec fn sorted_keys_spec(bytes: Seq<u8>) -> Seq<u32> {
    packed_keys(bytes).sort_by(key_le())
}

/// The whole pipeline as one mathematical function of the input bytes: pack
/// every full triplet, sort the keys ascending, merge equal keys into one
/// point carrying the extra-occurrence count, and color each point from its
/// count and its output index. Every run of the pipeline returns exactly this
/// sequence.
pub open spec fn pipeline_spec(bytes: Seq<u8>) -> Seq<Point> {
    let deduped = dedup_spec(sorted_keys_spec(bytes));
    Seq::new(
        deduped.len(),
        |j: int|
            Point {
                key: deduped[j].0,
                count: deduped[j].1 as u32,
                color: color_spec(j, deduped[j].1, deduped.len() as int),
            },
    )
}

/// The number of input triplets a point sequence accounts for: one first
/// occurrence per point plus its extra occurrences.
pub open spec fn consumed_triplets(points: Seq<Point>) -> int
    decreases points.len(),
{
    if points.len() == 0 {
        0
    } else {
        consumed_triplets(points.drop_last()) + 1 + points.last().count
    }
}

/// Point sequences and dedup pair sequences with equal counts account for the
/// same number of triplets.
proof fn lemma_consumed_matches_total(points: Seq<Point>, pairs: Seq<(u32, int)>)
    requires
        points.len() == pairs.len(),
        forall|j: int| 0 <= j < points.len() ==> (#[trigger] points[j]).count == pairs[j].1,
    ensures
        consumed_triplets(points) == total_count(pairs),
    decreases points.len(),
{
    if points.len() > 0 {
        assert(forall|j: int|
            0 <= j < points.drop_last().len() ==> (#[trigger] points.drop_last()[j]).count
                == pairs.drop_last()[j].1);
        lemma_consumed_matches_total(points.drop_last(), pairs.drop_last());
    }
}

/// Runs the full pipeline on the raw input bytes: packs consecutive 3-byte
/// triplets into 24-bit keys (dropping a trailing partial group), sorts the
/// keys, merges duplicates while counting extra occurrences, and colors the
/// surviving points in output order.
///
/// The result is pinned exactly to `pipeline_spec(bytes@)`; in particular the
/// points come in strictly ascending key order, no two points share a key,
/// and together they account for every full input triplet: the counts sum,
/// each plus one, to `len / 3`. Fewer than 3 input bytes yield no triplet and
/// an empty sequence, without error.
///
/// The one precondition is a machine limit: each point's extra-occurrence
/// count is a `u32`, so the triplet count must fit in one.
pub fn load_points(bytes: &Vec<u8>) -> (points: Vec<Point>)
    requires
        bytes@.len() / 3 <= u32::MAX,
    ensures
        points@ == pipeline_spec(bytes@),
        points@.len() <= bytes@.len() / 3,
        consumed_triplets(points@) == bytes@.len() / 3,
        forall|i: int, j: int|
            0 <= i < j < points@.len() ==> (#[trigger] points@[i]).key < (
            #[trigger] points@[j]).key,
        bytes@.len() < 3 ==> points@.len() == 0,
{
    let keys = pack_triplets(bytes);
    let sorted = sort_keys(keys);
    let deduped = dedup(&sorted);
    let colored = colorize(deduped);
    proof {
        let d = dedup_spec(sorted@);
        lemma_dedup_total_count(sorted@);
        lemma_dedup_strictly_increasing(sorted@);
        lemma_consumed_matches_total(colored@, d);
        assert(colored@ =~= pipeline_spec(bytes@));
    }
    colored
}

/// Dedup correctness law: each emitted point accounts for exactly the
/// occurrences of its key among the packed triplet keys (its count plus one
/// is the key's multiplicity), and every key that occurs is emitted as some
/// point. The input-size bound is the same machine limit `load_points`
/// carries: counts are `u32`.
pub proof fn lemma_pipeline_counts_are_multiplicities(bytes: Seq<u8>)
    requires
        bytes.len() / 3 <= u32::MAX,
    ensures
        forall|j: int|
            0 <= j < pipeline_spec(bytes).len() ==> (#[trigger] pipeline_spec(bytes)[j]).count + 1
                == packed_keys(bytes).to_multiset().count(pipeline_spec(bytes)[j].key),
        forall|v: u32|
            #[trigger] packed_keys(bytes).to_multiset().count(v) > 0 ==> exists|j: int|
                0 <= j < pipeline_spec(bytes).len() && (#[trigger] pipeline_spec(bytes)[j]).key
                    == v,
{
    let sorted = sorted_keys_spec(bytes);
    let d = dedup_spec(sorted);
    let points = pipeline_spec(bytes);
    lemma_key_le_total_ordering();
    packed_keys(bytes).lemma_sort_by_ensures(key_le());
    lemma_dedup_multiplicity(sorted);
    lemma_dedup_counts_nonneg(sorted);
    lemma_dedup_total_count(sorted);
    assert(sorted.to_multiset() =~= packed_keys(bytes).to_multiset());
    assert(sorted.to_multiset().len() == packed_keys(bytes).to_multiset().len());
    assert(sorted.len() == packed_keys(bytes).len()) by {
        broadcast use vstd::seq_lib::group_to_multiset_ensures;

    }
    assert forall|j: int| 0 <= j < points.len() implies (#[trigger] points[j]).count + 1
        == packed_keys(bytes).to_multiset().count(points[j].key) by {
        lemma_total_count_element_bound(d, j);
        assert(d[j].1 + 1 <= sorted.len());
        assert(points[j].count == d[j].1);
        assert(points[j].key == d[j].0);
    }
    assert forall|v: u32| #[trigger] packed_keys(bytes).to_multiset().count(v) > 0 implies exists|
        j: int,
    | 0 <= j < points.len() && (#[trigger] points[j]).key == v by {
        let j = choose|j: int| 0 <= j < d.len() && (#[trigger] d[j]).0 == v;
        assert(points[j].key == v);
    }
}

/// Determinism law: the pipeline is a function of the input bytes alone, so
/// any two point sequences produced from equal inputs are equal, position
/// inputs, counts and colors included.
pub proof fn lemma_pipeline_deterministic(
    b1: Seq<u8>,
    b2: Seq<u8>,
    p1: Seq<Point>,
    p2: Seq<Point>,
)
    requires
        b1 == b2,
        p1 == pipeline_spec(b1),
        p2 == pipeline_spec(b2),
    ensures
        p1 == p2,
{
}

/// Boundary law: an input of fewer than 3 bytes holds no full triplet, so the
/// pipeline emits no point at all.
pub proof fn lemma_short_input_empty(bytes: Seq<u8>)
    requires
        bytes.len() < 3,
    ensures
        pipeline_spec(bytes) == Seq::<Point>::empty(),
{
    broadcast use vstd::seq_lib::group_to_multiset_ensures;

    assert(packed_keys(bytes) =~= Seq::<u32>::empty());
    lemma_key_le_total_ordering();
    packed_keys(bytes).lemma_sort_by_ensures(key_le());
    assert(sorted_keys_spec(bytes).to_multiset().len() == 0);
    assert(sorted_keys_spec(bytes).len() == 0);
    assert(sorted_keys_spec(bytes) =~= Seq::<u32>::empty());
    assert(pipeline_spec(bytes) =~= Seq::<Point>::empty());
}

} // verus!
