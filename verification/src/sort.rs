use vstd::prelude::*;
use vstd::relations::{sorted_by, total_ordering};
use vstd::seq_lib::lemma_multiset_commutative;
use vstd::seq_lib::lemma_sorted_unique;

verus! {

broadcast use vstd::seq_lib::group_to_multiset_ensures, vstd::multiset::group_multiset_axioms;

/// The ascending integer order on packed keys. Sorting by this order brings
/// every occurrence of an identical triplet into one contiguous run, so that
/// deduplication is a single linear scan.
pub open spec fn key_le() -> spec_fn(u32, u32) -> bool {
    |a: u32, b: u32| a <= b
}

/// `key_le` is a total ordering, as the sorter requires.
pub proof fn lemma_key_le_total_ordering()
    ensures
        total_ordering(key_le()),
{
    assert(vstd::relations::reflexive(key_le())) by {
        assert(forall|a: u32| #[trigger] key_le()(a, a));
    }
    assert(vstd::relations::antisymmetric(key_le()));
    assert(vstd::relations::transitive(key_le()));
    assert(vstd::relations::strongly_connected(key_le()));
}

/// Appending a value no smaller than the last element keeps a sequence sorted.
proof fn lemma_sorted_push(s: Seq<u32>, v: u32)
    requires
        sorted_by(s, key_le()),
        s.len() == 0 || s.last() <= v,
    ensures
        sorted_by(s.push(v), key_le()),
{
    let t = s.push(v);
    assert forall|i: int, j: int| 0 <= i < j < t.len() implies #[trigger] key_le()(t[i], t[j]) by {
        if j < s.len() {
            assert(key_le()(s[i], s[j]));
        } else {
            if i < s.len() - 1 {
                assert(key_le()(s[i], s[s.len() - 1]));
            }
        }
    }
}

/// Merges two ascending key vectors into one ascending vector holding exactly
/// the keys of both.
fn merge_sorted(a: Vec<u32>, b: Vec<u32>) -> (r: Vec<u32>)
    requires
        sorted_by(a@, key_le()),
        sorted_by(b@, key_le()),
    ensures
        sorted_by(r@, key_le()),
        r@.to_multiset() == a@.to_multiset().add(b@.to_multiset()),
        r@.len() == a@.len() + b@.len(),
{
    let a_len: usize = a.len();
    let b_len: usize = b.len();
    let mut out: Vec<u32> = Vec::new();
    let mut i: usize = 0;
    let mut j: usize = 0;
    proof {
        assert(a@.take(0) =~= Seq::<u32>::empty());
        assert(b@.take(0) =~= Seq::<u32>::empty());
        assert(out@.to_multiset() =~= a@.take(0).to_multiset().add(b@.take(0).to_multiset()));
    }
    while i < a_len || j < b_len
        invariant
            a_len == a@.len(),
            b_len == b@.len(),
            i <= a_len,
            j <= b_len,
            sorted_by(a@, key_le()),
            sorted_by(b@, key_le()),
            out@.len() == i + j,
            sorted_by(out@, key_le()),
            out@.to_multiset() == a@.take(i as int).to_multiset().add(
                b@.take(j as int).to_multiset(),
            ),
            out@.len() > 0 && i < a_len ==> out@.last() <= a@[i as int],
            out@.len() > 0 && j < b_len ==> out@.last() <= b@[j as int],
        decreases a_len - i + b_len - j,
    {
        let take_a: bool = if i < a_len && j < b_len {
            a[i] <= b[j]
        } else {
            i < a_len
        };
        if take_a {
            let v = a[i];
            proof {
                lemma_sorted_push(out@, v);
                assert(a@.take(i + 1) =~= a@.take(i as int).push(v));
                assert(a@.take(i as int).push(v).to_multiset() =~= a@.take(
                    i as int,
                ).to_multiset().insert(v));
                assert(out@.push(v).to_multiset() =~= out@.to_multiset().insert(v));
                assert(out@.to_multiset().insert(v) =~= a@.take(i + 1).to_multiset().add(
                    b@.take(j as int).to_multiset(),
                ));
                if i + 1 < a_len {
                    assert(key_le()(a@[i as int], a@[i + 1]));
                }
            }
            out.push(v);
            i = i + 1;
        } else {
            let v = b[j];
            proof {
                lemma_sorted_push(out@, v);
                assert(b@.take(j + 1) =~= b@.take(j as int).push(v));
                assert(b@.take(j as int).push(v).to_multiset() =~= b@.take(
                    j as int,
                ).to_multiset().insert(v));
                assert(out@.push(v).to_multiset() =~= out@.to_multiset().insert(v));
                assert(out@.to_multiset().insert(v) =~= a@.take(i as int).to_multiset().add(
                    b@.take(j + 1).to_multiset(),
                ));
                if j + 1 < b_len {
                    assert(key_le()(b@[j as int], b@[j + 1]));
                }
            }
            out.push(v);
            j = j + 1;
        }
    }
    proof {
        assert(a@.take(a_len as int) =~= a@);
        assert(b@.take(b_len as int) =~= b@);
    }
    out
}

/// Sorts the packed keys ascending with a worst-case `O(n log n)` merge sort.
///
/// The result is pinned exactly: it is `keys@.sort_by(key_le())`, the unique
/// ascending reordering of the input, so two runs on equal inputs return equal
/// vectors. The multiset of keys is preserved: nothing is dropped, nothing is
/// invented.
pub fn sort_keys(keys: Vec<u32>) -> (r: Vec<u32>)
    ensures
        r@ == keys@.sort_by(key_le()),
        sorted_by(r@, key_le()),
        r@.to_multiset() == keys@.to_multiset(),
        r@.len() == keys@.len(),
    decreases keys@.len(),
{
    proof {
        lemma_key_le_total_ordering();
        keys@.lemma_sort_by_ensures(key_le());
    }
    if keys.len() <= 1 {
        proof {
            lemma_sorted_unique(keys@, keys@.sort_by(key_le()), key_le());
        }
        return keys;
    }
    let mid: usize = keys.len() / 2;
    let len: usize = keys.len();
    let mut left: Vec<u32> = Vec::new();
    let mut right: Vec<u32> = Vec::new();
    let mut k: usize = 0;
    while k < mid
        invariant
            mid <= len,
            len == keys@.len(),
            k <= mid,
            left@ == keys@.take(k as int),
        decreases mid - k,
    {
        proof {
            assert(keys@.take(k + 1) =~= keys@.take(k as int).push(keys@[k as int]));
        }
        left.push(keys[k]);
        k = k + 1;
    }
    let mut k: usize = mid;
    while k < len
        invariant
            mid <= len,
            len == keys@.len(),
            mid <= k <= len,
            right@ == keys@.subrange(mid as int, k as int),
        decreases len - k,
    {
        proof {
            assert(keys@.subrange(mid as int, k + 1) =~= keys@.subrange(mid as int, k as int).push(
                keys@[k as int],
            ));
        }
        right.push(keys[k]);
        k = k + 1;
    }
    proof {
        assert(keys@ =~= left@ + right@);
        lemma_multiset_commutative(left@, right@);
    }
    let sorted_left = sort_keys(left);
    let sorted_right = sort_keys(right);
    let r = merge_sorted(sorted_left, sorted_right);
    proof {
        lemma_sorted_unique(r@, keys@.sort_by(key_le()), key_le());
    }
    r
}

} // verus!
