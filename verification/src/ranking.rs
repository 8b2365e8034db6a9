//! Deterministic ranking.
//!
//! Every list the library hands back is ordered totally: by value descending,
//! ties broken by index ascending.  One insertion sort over `(index, value)`
//! pairs serves all modules.

use vstd::prelude::*;

verus! {

/// Ranking order on `(index, value)` pairs: higher value first, ties by
/// lower index first.
pub open spec fn rank_le(a: (usize, i64), b: (usize, i64)) -> bool {
    a.1 > b.1 || (a.1 == b.1 && a.0 <= b.0)
}

/// A sequence ordered by [`rank_le`].
pub open spec fn rank_sorted(s: Seq<(usize, i64)>) -> bool {
    forall|i: int, j: int| 0 <= i < j < s.len() ==> rank_le(s[i], s[j])
}

/// Sort pairs by value descending, ties by index ascending.
///
/// The result holds exactly the input pairs (as a multiset), in rank order.
pub fn sort_pairs_desc(v: Vec<(usize, i64)>) -> (r: Vec<(usize, i64)>)
    ensures
        r@.len() == v@.len(),
        rank_sorted(r@),
        r@.to_multiset() == v@.to_multiset(),
{
    let mut r: Vec<(usize, i64)> = Vec::new();
    let n = v.len();
    let mut i: usize = 0;
    proof {
        broadcast use vstd::seq_lib::group_to_multiset_ensures;

        assert(v@.take(0int) =~= Seq::<(usize, i64)>::empty());
        assert(r@ =~= Seq::<(usize, i64)>::empty());
    }
    while i < n
        invariant
            i <= n,
            n == v@.len(),
            r@.len() == i,
            rank_sorted(r@),
            r@.to_multiset() == v@.take(i as int).to_multiset(),
        decreases n - i,
    {
        let x = v[i];
        // find insertion position: first slot whose element ranks after x
        let mut pos: usize = 0;
        while pos < r.len()
            invariant
                pos <= r@.len(),
                rank_sorted(r@),
                forall|k: int| 0 <= k < pos ==> rank_le(#[trigger] r@[k], x),
            ensures
                pos <= r@.len(),
                forall|k: int| 0 <= k < pos ==> rank_le(#[trigger] r@[k], x),
                pos < r@.len() ==> rank_le(x, r@[pos as int]),
            decreases r@.len() - pos,
        {
            let y = r[pos];
            if y.1 > x.1 || (y.1 == x.1 && y.0 <= x.0) {
                pos = pos + 1;
            } else {
                break;
            }
        }
        proof {
            assert forall|k: int| pos <= k < r@.len() implies rank_le(x, #[trigger] r@[k]) by {
                if k > pos {
                    assert(rank_le(r@[pos as int], r@[k]));
                }
            }
        }
        let ghost old_r = r@;
        r.insert(pos, x);
        proof {
            assert(r@ =~= old_r.take(pos as int) + seq![x] + old_r.skip(pos as int));
            assert(r@.to_multiset() =~= old_r.to_multiset().insert(x)) by {
                broadcast use vstd::seq_lib::group_to_multiset_ensures;
                assert(old_r =~= old_r.take(pos as int) + old_r.skip(pos as int));
                old_r.take(pos as int).to_multiset_ensures();
                old_r.skip(pos as int).to_multiset_ensures();
                vstd::seq_lib::lemma_multiset_commutative(
                    old_r.take(pos as int),
                    old_r.skip(pos as int),
                );
                vstd::seq_lib::lemma_multiset_commutative(
                    old_r.take(pos as int) + seq![x],
                    old_r.skip(pos as int),
                );
                vstd::seq_lib::lemma_multiset_commutative(old_r.take(pos as int), seq![x]);
            }
            assert(v@.take(i as int + 1) =~= v@.take(i as int).push(v@[i as int]));
            v@.take(i as int).to_multiset_ensures();
            assert(v@.take(i as int + 1).to_multiset() =~= v@.take(
                i as int,
            ).to_multiset().insert(x));
        }
        i = i + 1;
    }
    proof {
        assert(v@.take(n as int) =~= v@);
    }
    r
}

/// The leading `k` pairs of a ranked list, as bare indices.
pub fn take_indices(ranked: &Vec<(usize, i64)>, k: usize) -> (r: Vec<usize>)
    ensures
        r@.len() == vstd::math::min(ranked@.len() as int, k as int),
        forall|j: int| 0 <= j < r@.len() ==> r@[j] == ranked@[j].0,
{
    let mut r: Vec<usize> = Vec::new();
    let mut j: usize = 0;
    let limit: usize = if ranked.len() < k {
        ranked.len()
    } else {
        k
    };
    while j < limit
        invariant
            j <= limit,
            limit == vstd::math::min(ranked@.len() as int, k as int),
            r@.len() == j,
            forall|t: int| 0 <= t < j ==> r@[t] == ranked@[t].0,
        decreases limit - j,
    {
        r.push(ranked[j].0);
        j = j + 1;
    }
    r
}


/// Two distinct positions holding the same value give that value a
/// multiset count of at least two.
pub proof fn lemma_dup_positions_count<T>(s: Seq<T>, i: int, j: int)
    requires
        0 <= i < j < s.len(),
        s[i] == s[j],
    ensures
        s.to_multiset().count(s[i]) >= 2,
    decreases s.len(),
{
    broadcast use vstd::seq_lib::group_to_multiset_ensures;

    assert(s =~= s.drop_last().push(s.last()));
    if j == s.len() - 1 {
        assert(s.drop_last()[i] == s[i]);
        assert(s.drop_last().contains(s[i]));
        assert(s.drop_last().to_multiset().count(s[i]) >= 1);
        assert(s.to_multiset() =~= s.drop_last().to_multiset().insert(s.last()));
    } else {
        lemma_dup_positions_count(s.drop_last(), i, j);
        assert(s.to_multiset() =~= s.drop_last().to_multiset().insert(s.last()));
    }
}

/// A value with multiset count at least two sits at two distinct positions.
pub proof fn lemma_count_two_positions<T>(s: Seq<T>, x: T)
    requires
        s.to_multiset().count(x) >= 2,
    ensures
        exists|i: int, j: int| 0 <= i < j < s.len() && s[i] == x && s[j] == x,
    decreases s.len(),
{
    broadcast use vstd::seq_lib::group_to_multiset_ensures;

    assert(s.len() > 0) by {
        if s.len() == 0 {
            assert(s.to_multiset() =~= vstd::multiset::Multiset::<T>::empty());
        }
    }
    assert(s =~= s.drop_last().push(s.last()));
    assert(s.to_multiset() =~= s.drop_last().to_multiset().insert(s.last()));
    if s.last() == x {
        assert(s.drop_last().to_multiset().count(x) >= 1);
        assert(s.drop_last().contains(x));
        let k = choose|k: int| 0 <= k < s.drop_last().len() && s.drop_last()[k] == x;
        assert(s[k] == x && s[s.len() - 1] == x);
        assert(0 <= k < s.len() - 1 < s.len());
    } else {
        assert(s.drop_last().to_multiset().count(x) >= 2);
        lemma_count_two_positions(s.drop_last(), x);
        let (i, j) = choose|i: int, j: int|
            0 <= i < j < s.drop_last().len() && s.drop_last()[i] == x && s.drop_last()[j] == x;
        assert(s[i] == x && s[j] == x);
    }
}

/// A permutation keeps keys pairwise distinct: if no two positions of `s`
/// share a key, no two positions of `t` do either.
pub proof fn lemma_permutation_distinct_keys<T>(s: Seq<T>, t: Seq<T>, key: spec_fn(T) -> int)
    requires
        s.to_multiset() == t.to_multiset(),
        forall|a: int, b: int| 0 <= a < b < s.len() ==> key(s[a]) != key(s[b]),
    ensures
        forall|a: int, b: int| 0 <= a < b < t.len() ==> key(t[a]) != key(t[b]),
{
    broadcast use vstd::seq_lib::group_to_multiset_ensures;

    assert forall|a: int, b: int| 0 <= a < b < t.len() implies key(t[a]) != key(t[b]) by {
        if key(t[a]) == key(t[b]) {
            if t[a] == t[b] {
                lemma_dup_positions_count(t, a, b);
                lemma_count_two_positions(s, t[a]);
                let (i, j) = choose|i: int, j: int|
                    0 <= i < j < s.len() && s[i] == t[a] && s[j] == t[a];
                assert(key(s[i]) != key(s[j]));
            } else {
                assert(t.contains(t[a]) && t.contains(t[b]));
                assert(s.to_multiset().count(t[a]) >= 1 && s.to_multiset().count(t[b]) >= 1);
                assert(s.contains(t[a]) && s.contains(t[b]));
                let i = choose|i: int| 0 <= i < s.len() && s[i] == t[a];
                let j = choose|j: int| 0 <= j < s.len() && s[j] == t[b];
                assert(i != j);
                if i < j {
                    assert(key(s[i]) != key(s[j]));
                } else {
                    assert(key(s[j]) != key(s[i]));
                }
            }
        }
    }
}


/// The first position of a pair with the given index in a list.
pub open spec fn spec_pair_position_of(s: Seq<(usize, i64)>, index: usize) -> int {
    choose|q: int| 0 <= q < s.len() && (#[trigger] s[q]).0 == index
}

/// A witness position makes the chosen position well-formed.
pub proof fn lemma_pair_position_of(s: Seq<(usize, i64)>, index: usize, witness: int)
    requires
        0 <= witness < s.len(),
        s[witness].0 == index,
    ensures
        0 <= spec_pair_position_of(s, index) < s.len(),
        s[spec_pair_position_of(s, index)].0 == index,
{
    assert(0 <= witness < s.len() && (#[trigger] s[witness]).0 == index);
}

} // verus!
