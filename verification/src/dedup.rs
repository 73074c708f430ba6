use vstd::prelude::*;
use vstd::relations::sorted_by;
use vstd::pervasive::VecAdditionalExecFns;
use crate::point::{Color, Point};
use crate::sort::key_le;

verus! {

/// The deduplicated form of a key sequence: one `(key, extra)` pair per run of
/// equal adjacent keys, in run order, where `extra` counts the occurrences of
/// the run beyond the first. On a sorted sequence every occurrence of a key
/// lies in one run, so each distinct key appears exactly once.
pub open spec fn dedup_spec(keys: Seq<u32>) -> Seq<(u32, int)>
    decreases keys.len(),
{
    if keys.len() == 0 {
        Seq::empty()
    } else {
        let rest = dedup_spec(keys.drop_last());
        let k = keys.last();
        if rest.len() > 0 && rest.last().0 == k {
            rest.update(rest.len() - 1, (k, rest.last().1 + 1))
        } else {
            rest.push((k, 0))
        }
    }
}

/// The number of key occurrences a deduplicated sequence accounts for: each
/// pair stands for one first occurrence plus its extra occurrences.
pub open spec fn total_count(ps: Seq<(u32, int)>) -> int
    decreases ps.len(),
{
    if ps.len() == 0 {
        0
    } else {
        total_count(ps.drop_last()) + 1 + ps.last().1
    }
}

/// Deduplication loses no occurrence: the pairs account for exactly the
/// length of the key sequence.
pub proof fn lemma_dedup_total_count(keys: Seq<u32>)
    ensures
        total_count(dedup_spec(keys)) == keys.len(),
        dedup_spec(keys).len() <= keys.len(),
        keys.len() > 0 ==> dedup_spec(keys).len() > 0,
    decreases keys.len(),
{
    if keys.len() > 0 {
        lemma_dedup_total_count(keys.drop_last());
        let rest = dedup_spec(keys.drop_last());
        let k = keys.last();
        if rest.len() > 0 && rest.last().0 == k {
            let d = rest.update(rest.len() - 1, (k, rest.last().1 + 1));
            assert(d.drop_last() =~= rest.drop_last());
            assert(total_count(d) == total_count(rest.drop_last()) + 1 + rest.last().1 + 1);
        } else {
            let d = rest.push((k, 0));
            assert(d.drop_last() =~= rest);
        }
    }
}

/// With no negative extra count, a deduplicated sequence accounts for at
/// least one occurrence per pair.
pub proof fn lemma_total_count_at_least_len(ps: Seq<(u32, int)>)
    requires
        forall|j: int| 0 <= j < ps.len() ==> ps[j].1 >= 0,
    ensures
        total_count(ps) >= ps.len(),
    decreases ps.len(),
{
    if ps.len() > 0 {
        assert(forall|j: int| 0 <= j < ps.drop_last().len() ==> ps.drop_last()[j] == ps[j]);
        lemma_total_count_at_least_len(ps.drop_last());
    }
}

/// No extra count is ever negative.
pub proof fn lemma_dedup_counts_nonneg(keys: Seq<u32>)
    ensures
        forall|j: int| 0 <= j < dedup_spec(keys).len() ==> (#[trigger] dedup_spec(keys)[j]).1 >= 0,
    decreases keys.len(),
{
    if keys.len() > 0 {
        lemma_dedup_counts_nonneg(keys.drop_last());
        let rest = dedup_spec(keys.drop_last());
        let k = keys.last();
        if rest.len() > 0 && rest.last().0 == k {
            let d = rest.update(rest.len() - 1, (k, rest.last().1 + 1));
            assert forall|j: int| 0 <= j < d.len() implies (#[trigger] d[j]).1 >= 0 by {
                if j < d.len() - 1 {
                    assert(d[j] == rest[j]);
                }
            }
        }
    }
}

/// Each pair alone accounts for no more occurrences than the whole sequence.
pub proof fn lemma_total_count_element_bound(ps: Seq<(u32, int)>, j: int)
    requires
        forall|i: int| 0 <= i < ps.len() ==> (#[trigger] ps[i]).1 >= 0,
        0 <= j < ps.len(),
    ensures
        ps[j].1 + 1 <= total_count(ps),
    decreases ps.len(),
{
    assert(forall|i: int| 0 <= i < ps.drop_last().len() ==> ps.drop_last()[i] == ps[i]);
    if j == ps.len() - 1 {
        lemma_total_count_at_least_len(ps.drop_last());
    } else {
        lemma_total_count_element_bound(ps.drop_last(), j);
    }
}

/// On a sorted key sequence the deduplicated keys are strictly increasing:
/// no key appears twice, and the pairs come in ascending key order.
pub proof fn lemma_dedup_strictly_increasing(keys: Seq<u32>)
    requires
        sorted_by(keys, key_le()),
    ensures
        forall|i: int, j: int|
            0 <= i < j < dedup_spec(keys).len() ==> (#[trigger] dedup_spec(keys)[i]).0 < (
            #[trigger] dedup_spec(keys)[j]).0,
        keys.len() > 0 ==> dedup_spec(keys).len() > 0 && dedup_spec(keys).last().0 == keys.last(),
    decreases keys.len(),
{
    if keys.len() > 0 {
        let rest_keys = keys.drop_last();
        let k = keys.last();
        assert(forall|i: int, j: int|
            0 <= i < j < rest_keys.len() ==> #[trigger] key_le()(rest_keys[i], rest_keys[j]));
        lemma_dedup_strictly_increasing(rest_keys);
        let rest = dedup_spec(rest_keys);
        let d = dedup_spec(keys);
        if rest.len() > 0 && rest.last().0 == k {
            assert(d == rest.update(rest.len() - 1, (k, rest.last().1 + 1)));
            assert(forall|i: int| 0 <= i < d.len() ==> (#[trigger] d[i]).0 == rest[i].0);
        } else {
            assert(d == rest.push((k, 0)));
            if rest_keys.len() > 0 {
                assert(key_le()(rest_keys.last(), k));
                assert(rest.last().0 <= k);
                assert(rest.last().0 != k);
                assert(forall|i: int|
                    0 <= i < rest.len() - 1 ==> (#[trigger] rest[i]).0 < rest.last().0);
            }
        }
    }
}

/// Dedup correctness on a sorted key sequence: each pair accounts for exactly
/// the occurrences of its key (its extra count plus one is the key's
/// multiplicity), and no key is lost (every key that occurs appears as some
/// pair's key).
pub proof fn lemma_dedup_multiplicity(keys: Seq<u32>)
    requires
        sorted_by(keys, key_le()),
    ensures
        forall|j: int|
            0 <= j < dedup_spec(keys).len() ==> (#[trigger] dedup_spec(keys)[j]).1 + 1
                == keys.to_multiset().count(dedup_spec(keys)[j].0),
        forall|v: u32|
            #[trigger] keys.to_multiset().count(v) > 0 ==> exists|j: int|
                0 <= j < dedup_spec(keys).len() && (#[trigger] dedup_spec(keys)[j]).0 == v,
    decreases keys.len(),
{
    broadcast use vstd::seq_lib::group_to_multiset_ensures, vstd::multiset::group_multiset_axioms;

    if keys.len() == 0 {
        assert(forall|v: u32| keys.to_multiset().count(v) <= keys.to_multiset().len());
    } else {
        let rest_keys = keys.drop_last();
        let k = keys.last();
        assert(forall|i: int, j: int|
            0 <= i < j < rest_keys.len() ==> #[trigger] key_le()(rest_keys[i], rest_keys[j]));
        lemma_dedup_multiplicity(rest_keys);
        lemma_dedup_strictly_increasing(rest_keys);
        let rest = dedup_spec(rest_keys);
        let d = dedup_spec(keys);
        assert(keys =~= rest_keys.push(k));
        assert(rest_keys.push(k).to_multiset() =~= rest_keys.to_multiset().insert(k));
        if rest.len() > 0 && rest.last().0 == k {
            assert(d == rest.update(rest.len() - 1, (k, rest.last().1 + 1)));
            assert forall|j: int| 0 <= j < d.len() implies (#[trigger] d[j]).1 + 1
                == keys.to_multiset().count(d[j].0) by {
                if j < d.len() - 1 {
                    assert(d[j] == rest[j]);
                    assert(rest[j].0 < rest.last().0);
                } else {
                    assert(d[j] == (k, rest.last().1 + 1));
                }
            }
            assert forall|v: u32| #[trigger] keys.to_multiset().count(v) > 0 implies exists|j: int|
                0 <= j < d.len() && (#[trigger] d[j]).0 == v by {
                if v == k {
                    assert(d[d.len() - 1].0 == v);
                } else {
                    assert(rest_keys.to_multiset().count(v) > 0);
                    let j = choose|j: int| 0 <= j < rest.len() && (#[trigger] rest[j]).0 == v;
                    assert(d[j].0 == v);
                }
            }
        } else {
            assert(d == rest.push((k, 0)));
            if rest.len() > 0 {
                assert(rest_keys.len() > 0);
                assert(rest.last().0 == rest_keys.last());
                assert(key_le()(keys[keys.len() - 2], keys[keys.len() - 1]));
                assert(rest_keys.last() == keys[keys.len() - 2]);
                assert(rest.last().0 < k);
                assert forall|j: int| 0 <= j < rest.len() implies (#[trigger] rest[j]).0 < k by {
                    if j < rest.len() - 1 {
                        assert(rest[j].0 < rest.last().0);
                    }
                }
            }
            assert(rest_keys.to_multiset().count(k) == 0) by {
                if rest_keys.to_multiset().count(k) > 0 {
                    let j = choose|j: int| 0 <= j < rest.len() && (#[trigger] rest[j]).0 == k;
                    assert(rest[j].0 < k);
                }
            }
            assert forall|j: int| 0 <= j < d.len() implies (#[trigger] d[j]).1 + 1
                == keys.to_multiset().count(d[j].0) by {
                if j < d.len() - 1 {
                    assert(d[j] == rest[j]);
                    assert(rest[j].0 != k);
                } else {
                    assert(d[j] == (k, 0int));
                    assert(keys.to_multiset().count(k) == 1);
                }
            }
            assert forall|v: u32| #[trigger] keys.to_multiset().count(v) > 0 implies exists|j: int|
                0 <= j < d.len() && (#[trigger] d[j]).0 == v by {
                if v == k {
                    assert(d[d.len() - 1].0 == v);
                } else {
                    assert(rest_keys.to_multiset().count(v) > 0);
                    let j = choose|j: int| 0 <= j < rest.len() && (#[trigger] rest[j]).0 == v;
                    assert(d[j].0 == v);
                }
            }
        }
    }
}

/// Merges equal adjacent keys of a sorted key vector: one point per distinct
/// key, in ascending key order, whose `count` is the number of occurrences of
/// its key beyond the first. Colors are black until the colorizer runs.
///
/// This is the linear scan the sorter pays for: a fold over the sorted keys
/// with no failure cases of its own.
pub fn dedup(keys: &Vec<u32>) -> (points: Vec<Point>)
    requires
        sorted_by(keys@, key_le()),
        keys@.len() <= u32::MAX,
    ensures
        points@.len() == dedup_spec(keys@).len(),
        forall|j: int|
            0 <= j < points@.len() ==> (#[trigger] points@[j]).key == dedup_spec(keys@)[j].0
                && points@[j].count == dedup_spec(keys@)[j].1 && points@[j].color
                == Color::black_spec(),
{
    let len: usize = keys.len();
    let mut points: Vec<Point> = Vec::new();
    proof {
        assert(keys@.take(0) =~= Seq::<u32>::empty());
    }
    for i in 0..len
        invariant
            len == keys@.len(),
            len <= u32::MAX,
            sorted_by(keys@, key_le()),
            points@.len() == dedup_spec(keys@.take(i as int)).len(),
            total_count(dedup_spec(keys@.take(i as int))) == i,
            forall|j: int|
                0 <= j < points@.len() ==> (#[trigger] points@[j]).key == dedup_spec(
                    keys@.take(i as int),
                )[j].0 && points@[j].count == dedup_spec(keys@.take(i as int))[j].1
                    && points@[j].color == Color::black_spec(),
    {
        let ghost prefix = keys@.take(i as int);
        let ghost extended = keys@.take(i + 1);
        let ghost d = dedup_spec(prefix);
        proof {
            assert(extended.drop_last() =~= prefix);
            assert(extended.last() == keys@[i as int]);
        }
        let k = keys[i];
        if points.len() > 0 && k == points[points.len() - 1].key {
            let idx = points.len() - 1;
            let p = points[idx];
            proof {
                assert(d.last().1 == p.count);
                lemma_dedup_total_count(prefix);
                assert forall|j: int| 0 <= j < d.len() implies (#[trigger] d[j]).1 >= 0 by {
                    assert(points@[j].count == d[j].1);
                }
                assert(forall|j: int|
                    0 <= j < d.drop_last().len() ==> (#[trigger] d.drop_last()[j]).1 >= 0);
                lemma_total_count_at_least_len(d.drop_last());
                assert(total_count(d) == total_count(d.drop_last()) + 1 + d.last().1);
                assert(p.count + 1 <= i);
            }
            points.set(idx, Point { key: p.key, count: p.count + 1, color: p.color });
            proof {
                let d2 = dedup_spec(extended);
                assert(d2 == d.update(d.len() - 1, (k, d.last().1 + 1)));
                assert(d2.drop_last() =~= d.drop_last());
                assert(total_count(d2) == total_count(d.drop_last()) + 1 + d.last().1 + 1);
                assert(total_count(d2) == i + 1);
            }
        } else {
            points.push(Point { key: k, count: 0, color: Color::black() });
            proof {
                let d2 = dedup_spec(extended);
                assert(d2 == d.push((k, 0)));
                assert(d2.drop_last() =~= d);
                assert(total_count(d2) == i + 1);
            }
        }
    }
    proof {
        assert(keys@.take(len as int) =~= keys@);
    }
    points
}

} // verus!
