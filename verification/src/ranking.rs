//! Stable ordering of positions by a numeric key: by key, and among equal
//! keys by position, which is the order a stable sort leaves them in.
use vstd::prelude::*;

verus! {

/// Lexicographic order on (key, position) pairs.
pub open spec fn pair_lt(a: (u64, usize), b: (u64, usize)) -> bool {
    a.0 < b.0 || (a.0 == b.0 && a.1 < b.1)
}

/// Each pair comes strictly before the next.
pub open spec fn strictly_sorted(s: Seq<(u64, usize)>) -> bool {
    forall|i: int, j: int| 0 <= i < j < s.len() ==> pair_lt(#[trigger] s[i], #[trigger] s[j])
}

/// Inserts `e`, whose index exceeds every index in `r`, at its place.
pub fn insert_ranked(r: &mut Vec<(u64, usize)>, e: (u64, usize)) -> (pos: usize)
    requires
        strictly_sorted(old(r)@),
        forall|k: int| 0 <= k < old(r)@.len() ==> (#[trigger] old(r)@[k]).1 < e.1,
    ensures
        pos <= old(r)@.len(),
        final(r)@ == old(r)@.insert(pos as int, e),
        strictly_sorted(final(r)@),
{
    let mut pos: usize = 0;
    while pos < r.len() && r[pos].0 <= e.0
        invariant
            pos <= r@.len(),
            forall|k: int| 0 <= k < pos ==> (#[trigger] r@[k]).0 <= e.0,
        decreases r@.len() - pos,
    {
        pos = pos + 1;
    }
    let ghost before = r@;
    r.insert(pos, e);
    proof {
        assert forall|i: int, j: int| 0 <= i < j < r@.len() implies pair_lt(
            #[trigger] r@[i],
            #[trigger] r@[j],
        ) by {
            if j < pos {
                assert(r@[i] == before[i] && r@[j] == before[j]);
            } else if j == pos {
                assert(r@[i] == before[i]);
            } else if i == pos {
                assert(r@[j] == before[j - 1]);
                if j - 1 > pos {
                    assert(pair_lt(before[pos as int], before[j - 1]));
                }
            } else if i < pos {
                assert(r@[i] == before[i] && r@[j] == before[j - 1]);
            } else {
                assert(r@[i] == before[i - 1] && r@[j] == before[j - 1]);
            }
        }
    }
    pos
}


/// Position `i` goes before position `j`: a smaller key, or the same key
/// and an earlier position.
pub open spec fn key_before(keys: Seq<u64>, i: int, j: int) -> bool {
    keys[i] < keys[j] || (keys[i] == keys[j] && i < j)
}

/// `ix` lists every position of `keys` once, in stable key order.
pub open spec fn stable_order(keys: Seq<u64>, ix: Seq<usize>) -> bool {
    &&& ix.len() == keys.len()
    &&& forall|k: int| 0 <= k < ix.len() ==> #[trigger] ix[k] < keys.len()
    &&& forall|i: int| 0 <= i < keys.len() ==> #[trigger] ix.contains(i as usize)
    &&& forall|a: int, b: int|
        0 <= a < b < ix.len() ==> key_before(keys, #[trigger] ix[a] as int, #[trigger] ix[b] as int)
}

/// Some pair of `r` carries position `j`.
spec fn has_pos(r: Seq<(u64, usize)>, j: int) -> bool {
    exists|k: int| 0 <= k < r.len() && r[k].1 == j
}

/// The positions of `keys` in stable key order.
pub fn stable_sort_indices(keys: &Vec<u64>) -> (ix: Vec<usize>)
    ensures
        stable_order(keys@, ix@),
{
    let n = keys.len();
    let mut r: Vec<(u64, usize)> = Vec::new();
    for i in 0..n
        invariant
            n == keys@.len(),
            r@.len() == i,
            strictly_sorted(r@),
            forall|k: int| 0 <= k < r@.len() ==> (#[trigger] r@[k]).1 < i && r@[k].0 == keys@[r@[k].1 as int],
            forall|j: int| 0 <= j < i ==> #[trigger] has_pos(r@, j),
    {
        let ghost before = r@;
        let pos = insert_ranked(&mut r, (keys[i], i));
        proof {
            assert forall|k: int| 0 <= k < r@.len() implies (#[trigger] r@[k]).1 < i + 1 && r@[k].0
                == keys@[r@[k].1 as int] by {
                if k < pos {
                    assert(r@[k] == before[k]);
                } else if k > pos {
                    assert(r@[k] == before[k - 1]);
                }
            }
            assert forall|j: int| 0 <= j < i + 1 implies #[trigger] has_pos(r@, j) by {
                if j == i {
                    assert(r@[pos as int].1 == j);
                } else {
                    assert(has_pos(before, j));
                    let k0 = choose|k: int| 0 <= k < before.len() && before[k].1 == j;
                    if k0 < pos {
                        assert(r@[k0].1 == j);
                    } else {
                        assert(r@[k0 + 1].1 == j);
                    }
                }
            }
        }
    }
    let mut ix: Vec<usize> = Vec::new();
    for t in 0..n
        invariant
            n == keys@.len(),
            r@.len() == n,
            ix@.len() == t,
            forall|k: int| 0 <= k < t ==> ix@[k] == (#[trigger] r@[k]).1,
    {
        ix.push(r[t].1);
    }
    proof {
        assert forall|k: int| 0 <= k < ix@.len() implies #[trigger] ix@[k] < keys@.len() by {
            assert(ix@[k] == r@[k].1);
        }
        assert forall|i: int| 0 <= i < keys@.len() implies #[trigger] ix@.contains(i as usize) by {
            assert(has_pos(r@, i));
            let k0 = choose|k: int| 0 <= k < r@.len() && r@[k].1 == i;
            assert(ix@[k0] == i);
        }
        assert forall|a: int, b: int| 0 <= a < b < ix@.len() implies key_before(
            keys@,
            #[trigger] ix@[a] as int,
            #[trigger] ix@[b] as int,
        ) by {
            assert(ix@[a] == r@[a].1 && ix@[b] == r@[b].1);
            assert(pair_lt(r@[a], r@[b]));
        }
    }
    ix
}

} // verus!
