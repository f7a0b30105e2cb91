//! A linear free-list allocator over a fixed range `[0, capacity)`.
//!
//! The free space is kept as a list of blocks sorted by offset. Adjacent
//! blocks are merged as soon as a range is returned, so the list is always in
//! its canonical form: sorted, disjoint, and with a gap between any two
//! blocks. Allocation is first-fit; nothing is ever moved or compacted.
use vstd::prelude::*;

verus! {

/// One run of free units, `[offset, offset + len)`.
#[derive(Clone, Copy, Debug)]
struct FreeBlock {
    offset: usize,
    len: usize,
}

/// A range handed out by `FreeListAllocator::allocate` and given back to `free`.
#[derive(Clone, Copy, Debug, PartialEq, Eq, Structural)]
pub struct Allocation {
    pub offset: usize,
    pub len: usize,
}

/// First-fit allocator over `[0, capacity)`.
pub struct FreeListAllocator {
    capacity: usize,
    free_blocks: Vec<FreeBlock>,
}

/// End (exclusive) of a span `(offset, len)`.
pub open spec fn span_end(s: (int, int)) -> int {
    s.0 + s.1
}

/// The canonical shape of a free list over `[0, cap)`: every span lies in the
/// pool and is non-empty (a pool of capacity 0 may keep its single empty
/// span), and any two spans are separated by at least one allocated unit.
pub open spec fn spans_wf(s: Seq<(int, int)>, cap: int) -> bool {
    &&& forall|i: int| 0 <= i < s.len() ==> 0 <= #[trigger] s[i].0 && 0 <= s[i].1 && span_end(s[i]) <= cap
    &&& forall|i: int| 0 <= i < s.len() ==> (#[trigger] s[i].1 > 0 || cap == 0)
    &&& forall|i: int, j: int|
        #![trigger s[i], s[j]]
        0 <= i < j < s.len() ==> span_end(s[i]) < s[j].0
}

/// Whether unit `u` lies in span `sp`.
pub open spec fn span_has(sp: (int, int), u: int) -> bool {
    sp.0 <= u < sp.0 + sp.1
}

/// All units covered by a list of spans.
pub open spec fn spans_units(s: Seq<(int, int)>) -> Set<int> {
    Set::new(|u: int| exists|i: int| 0 <= i < s.len() && #[trigger] span_has(s[i], u))
}

/// The units `[offset, offset + len)`.
pub open spec fn range_units(offset: int, len: int) -> Set<int> {
    Set::new(|u: int| offset <= u < offset + len)
}

/// Index of the first span at least `len` long, or `s.len()` if there is none.
pub open spec fn first_fit(s: Seq<(int, int)>, len: int) -> int
    decreases s.len(),
{
    if s.len() == 0 {
        0
    } else if s[0].1 >= len {
        0
    } else {
        1 + first_fit(s.drop_first(), len)
    }
}

/// Index of the first span that starts at or after `off`, or `s.len()`.
pub open spec fn insert_pos(s: Seq<(int, int)>, off: int) -> int
    decreases s.len(),
{
    if s.len() == 0 {
        0
    } else if s[0].0 >= off {
        0
    } else {
        1 + insert_pos(s.drop_first(), off)
    }
}

/// The spans after the range `[off, off + len)` is given back: unchanged for
/// an empty range; otherwise the range is put in its place by offset and
/// merged with the span just before it and the span just after it when they
/// touch it.
pub open spec fn freed_spans(s: Seq<(int, int)>, off: int, len: int) -> Seq<(int, int)> {
    if len == 0 {
        s
    } else {
        let k = insert_pos(s, off);
        let mp = k > 0 && span_end(s[k - 1]) == off;
        let mn = k < s.len() && off + len == s[k].0;
        splice_free(s, k, off, len, mp, mn)
    }
}

/// The spans after `len` units are taken from the front of span `i`.
pub open spec fn carve(s: Seq<(int, int)>, i: int, len: int) -> Seq<(int, int)> {
    if s[i].1 == len {
        s.remove(i)
    } else {
        s.update(i, (s[i].0 + len, s[i].1 - len))
    }
}

/// Sum of the span lengths.
pub open spec fn sum_lens(s: Seq<(int, int)>) -> int
    decreases s.len(),
{
    if s.len() == 0 {
        0
    } else {
        sum_lens(s.drop_last()) + s.last().1
    }
}

/// Largest span length, or 0 for an empty list.
pub open spec fn max_len(s: Seq<(int, int)>) -> int
    decreases s.len(),
{
    if s.len() == 0 {
        0
    } else {
        let m = max_len(s.drop_last());
        if s.last().1 > m {
            s.last().1
        } else {
            m
        }
    }
}

proof fn lemma_first_fit(s: Seq<(int, int)>, len: int)
    ensures
        0 <= first_fit(s, len) <= s.len(),
        forall|j: int| 0 <= j < first_fit(s, len) ==> #[trigger] s[j].1 < len,
        first_fit(s, len) < s.len() ==> s[first_fit(s, len)].1 >= len,
    decreases s.len(),
{
    if s.len() > 0 && s[0].1 < len {
        lemma_first_fit(s.drop_first(), len);
        assert forall|j: int| 0 <= j < first_fit(s, len) implies #[trigger] s[j].1 < len by {
            if j > 0 {
                assert(s[j] == s.drop_first()[j - 1]);
            }
        }
    }
}

proof fn lemma_insert_pos(s: Seq<(int, int)>, off: int)
    ensures
        0 <= insert_pos(s, off) <= s.len(),
        forall|j: int| 0 <= j < insert_pos(s, off) ==> (#[trigger] s[j]).0 < off,
        insert_pos(s, off) < s.len() ==> s[insert_pos(s, off)].0 >= off,
    decreases s.len(),
{
    if s.len() > 0 && s[0].0 < off {
        lemma_insert_pos(s.drop_first(), off);
        assert forall|j: int| 0 <= j < insert_pos(s, off) implies (#[trigger] s[j]).0 < off by {
            if j > 0 {
                assert(s[j] == s.drop_first()[j - 1]);
            }
        }
    }
}

proof fn lemma_sum_concat(a: Seq<(int, int)>, b: Seq<(int, int)>)
    ensures
        sum_lens(a + b) == sum_lens(a) + sum_lens(b),
    decreases b.len(),
{
    if b.len() == 0 {
        assert(a + b =~= a);
    } else {
        lemma_sum_concat(a, b.drop_last());
        assert((a + b).drop_last() =~= a + b.drop_last());
    }
}

proof fn lemma_sum_single(x: (int, int))
    ensures
        sum_lens(seq![x]) == x.1,
{
    reveal_with_fuel(sum_lens, 2);
    assert(seq![x].drop_last() =~= Seq::<(int, int)>::empty());
    assert(seq![x].last() == x);
}

/// Splitting a list at `i` splits its sum.
proof fn lemma_sum_split(s: Seq<(int, int)>, i: int)
    requires
        0 <= i <= s.len(),
    ensures
        sum_lens(s) == sum_lens(s.subrange(0, i)) + sum_lens(s.subrange(i, s.len() as int)),
{
    lemma_sum_concat(s.subrange(0, i), s.subrange(i, s.len() as int));
    assert(s.subrange(0, i) + s.subrange(i, s.len() as int) =~= s);
}

proof fn lemma_max_len(s: Seq<(int, int)>)
    requires
        forall|i: int| 0 <= i < s.len() ==> 0 <= #[trigger] s[i].1,
    ensures
        max_len(s) >= 0,
        forall|i: int| 0 <= i < s.len() ==> #[trigger] s[i].1 <= max_len(s),
        s.len() > 0 ==> exists|i: int| 0 <= i < s.len() && #[trigger] s[i].1 == max_len(s),
    decreases s.len(),
{
    if s.len() > 0 {
        let t = s.drop_last();
        assert forall|i: int| 0 <= i < t.len() implies 0 <= #[trigger] t[i].1 by {
            assert(t[i] == s[i]);
        }
        lemma_max_len(t);
        assert forall|i: int| 0 <= i < s.len() implies #[trigger] s[i].1 <= max_len(s) by {
            if i < s.len() - 1 {
                assert(s[i] == t[i]);
            }
        }
        if s.last().1 > max_len(t) || t.len() == 0 {
            assert(s[s.len() - 1].1 == max_len(s));
        } else {
            let k = choose|k: int| 0 <= k < t.len() && #[trigger] t[k].1 == max_len(t);
            assert(s[k] == t[k]);
            assert(s[k].1 == max_len(s));
        }
    }
}

proof fn lemma_wf_drop_last(s: Seq<(int, int)>, cap: int)
    requires
        spans_wf(s, cap),
        s.len() > 0,
    ensures
        spans_wf(s.drop_last(), cap),
{
    let t = s.drop_last();
    assert forall|i: int, j: int| 0 <= i < j < t.len() implies span_end(t[i]) < t[j].0 by {
        assert(t[i] == s[i] && t[j] == s[j]);
    }
    assert forall|i: int| 0 <= i < t.len() implies 0 <= #[trigger] t[i].0 && 0 <= t[i].1 && span_end(t[i])
        <= cap by {
        assert(t[i] == s[i]);
    }
    assert forall|i: int| 0 <= i < t.len() implies (#[trigger] t[i].1 > 0 || cap == 0) by {
        assert(t[i] == s[i]);
    }
}

/// The lengths of a well-formed list add up to no more than where its last
/// span ends.
proof fn lemma_sum_bounded(s: Seq<(int, int)>, cap: int)
    requires
        spans_wf(s, cap),
    ensures
        sum_lens(s) <= (if s.len() == 0 { 0 } else { span_end(s.last()) }),
        sum_lens(s) <= cap || s.len() == 0,
        sum_lens(s) >= 0,
    decreases s.len(),
{
    if s.len() > 0 {
        let t = s.drop_last();
        lemma_wf_drop_last(s, cap);
        lemma_sum_bounded(t, cap);
        if t.len() > 0 {
            assert(t.last() == s[s.len() - 2]);
            assert(span_end(s[s.len() - 2]) < s[s.len() - 1].0);
        }
        assert(0 <= s[s.len() - 1].0);
        assert(s[s.len() - 1].1 >= 0);
    }
}

/// Taking `len` units from the front of span `i` keeps the list canonical and
/// removes exactly those units.
proof fn lemma_carve(s: Seq<(int, int)>, cap: int, i: int, len: int)
    requires
        spans_wf(s, cap),
        0 <= i < s.len(),
        0 < len <= s[i].1,
    ensures
        spans_wf(carve(s, i, len), cap),
        range_units(s[i].0, len).subset_of(spans_units(s)),
        spans_units(carve(s, i, len)) == spans_units(s).difference(range_units(s[i].0, len)),
        sum_lens(carve(s, i, len)) == sum_lens(s) - len,
{
    let r = carve(s, i, len);
    let rg = range_units(s[i].0, len);
    assert forall|u: int| rg.contains(u) implies spans_units(s).contains(u) by {
        assert(span_has(s[i], u));
    }
    if s[i].1 == len {
        assert(r =~= s.subrange(0, i) + s.subrange(i + 1, s.len() as int));
        assert forall|a: int, b: int| 0 <= a < b < r.len() implies span_end(r[a]) < r[b].0 by {
            let a0 = if a < i { a } else { a + 1 };
            let b0 = if b < i { b } else { b + 1 };
            assert(r[a] == s[a0] && r[b] == s[b0]);
        }
        assert forall|a: int| 0 <= a < r.len() implies 0 <= #[trigger] r[a].0 && 0 <= r[a].1 && span_end(r[a])
            <= cap && (r[a].1 > 0 || cap == 0) by {
            let a0 = if a < i { a } else { a + 1 };
            assert(r[a] == s[a0]);
        }
        assert forall|u: int|
            spans_units(r).contains(u) <==> spans_units(s).difference(rg).contains(u) by {
            if spans_units(r).contains(u) {
                let a = choose|a: int| 0 <= a < r.len() && #[trigger] span_has(r[a], u);
                let a0 = if a < i { a } else { a + 1 };
                assert(r[a] == s[a0]);
                assert(span_has(s[a0], u));
                if a0 < i {
                    assert(span_end(s[a0]) < s[i].0);
                } else {
                    assert(span_end(s[i]) < s[a0].0);
                }
            }
            if spans_units(s).difference(rg).contains(u) {
                let a0 = choose|a0: int| 0 <= a0 < s.len() && #[trigger] span_has(s[a0], u);
                assert(a0 != i);
                let a = if a0 < i { a0 } else { a0 - 1 };
                assert(r[a] == s[a0]);
                assert(span_has(r[a], u));
            }
        }
        lemma_sum_split(s, i);
        lemma_sum_split(s.subrange(i, s.len() as int), 1);
        assert(s.subrange(i, s.len() as int).subrange(0, 1) =~= seq![s[i]]);
        assert(s.subrange(i, s.len() as int).subrange(1, s.len() - i) =~= s.subrange(
            i + 1,
            s.len() as int,
        ));
        lemma_sum_single(s[i]);
        lemma_sum_concat(s.subrange(0, i), s.subrange(i + 1, s.len() as int));
    } else {
        let ns = (s[i].0 + len, s[i].1 - len);
        assert forall|a: int, b: int| 0 <= a < b < r.len() implies span_end(r[a]) < r[b].0 by {
            assert(span_end(s[a]) < s[b].0);
        }
        assert forall|a: int| 0 <= a < r.len() implies 0 <= #[trigger] r[a].0 && 0 <= r[a].1 && span_end(r[a])
            <= cap && (r[a].1 > 0 || cap == 0) by {
            assert(0 <= s[a].0);
        }
        assert forall|u: int|
            spans_units(r).contains(u) <==> spans_units(s).difference(rg).contains(u) by {
            if spans_units(r).contains(u) {
                let a = choose|a: int| 0 <= a < r.len() && #[trigger] span_has(r[a], u);
                if a != i {
                    assert(span_has(s[a], u));
                    if a < i {
                        assert(span_end(s[a]) < s[i].0);
                    } else {
                        assert(span_end(s[i]) < s[a].0);
                    }
                } else {
                    assert(span_has(s[i], u));
                }
            }
            if spans_units(s).difference(rg).contains(u) {
                let a = choose|a: int| 0 <= a < s.len() && #[trigger] span_has(s[a], u);
                assert(span_has(r[a], u));
            }
        }
        lemma_sum_split(s, i);
        lemma_sum_split(r, i);
        assert(r.subrange(0, i) =~= s.subrange(0, i));
        let ts = s.subrange(i, s.len() as int);
        let tr = r.subrange(i, r.len() as int);
        lemma_sum_split(ts, 1);
        lemma_sum_split(tr, 1);
        assert(ts.subrange(0, 1) =~= seq![s[i]]);
        assert(tr.subrange(0, 1) =~= seq![ns]);
        assert(ts.subrange(1, ts.len() as int) =~= tr.subrange(1, tr.len() as int));
        lemma_sum_single(s[i]);
        lemma_sum_single(ns);
    }
    assert(spans_units(r) =~= spans_units(s).difference(rg));
}

/// The list that `free` builds: the spans `[lo, hi)` of `s` together with the
/// returned range `[a_off, a_off + a_len)` become one span.
pub open spec fn splice_free(
    s: Seq<(int, int)>,
    k: int,
    a_off: int,
    a_len: int,
    mp: bool,
    mn: bool,
) -> Seq<(int, int)> {
    s.subrange(0, splice_lo(k, mp)) + seq![splice_span(s, k, a_off, a_len, mp, mn)] + s.subrange(
        splice_hi(k, mn),
        s.len() as int,
    )
}

pub open spec fn splice_lo(k: int, mp: bool) -> int {
    if mp { k - 1 } else { k }
}

pub open spec fn splice_hi(k: int, mn: bool) -> int {
    if mn { k + 1 } else { k }
}

/// The single span that `free` builds from the returned range and the
/// neighbours it merges with.
pub open spec fn splice_span(
    s: Seq<(int, int)>,
    k: int,
    a_off: int,
    a_len: int,
    mp: bool,
    mn: bool,
) -> (int, int) {
    let start = if mp { s[k - 1].0 } else { a_off };
    let end = if mn { span_end(s[k]) } else { a_off + a_len };
    (start, end - start)
}

/// What `free` may assume about where the returned range sits.
pub open spec fn splice_pre(
    s: Seq<(int, int)>,
    cap: int,
    k: int,
    a_off: int,
    a_len: int,
    mp: bool,
    mn: bool,
) -> bool {
    &&& spans_wf(s, cap)
    &&& 0 <= k <= s.len()
    &&& 0 < a_len
    &&& 0 <= a_off
    &&& a_off + a_len <= cap
    &&& forall|j: int| 0 <= j < k ==> span_end(#[trigger] s[j]) <= a_off
    &&& forall|j: int| k <= j < s.len() ==> a_off + a_len <= (#[trigger] s[j]).0
    &&& mp ==> k > 0 && span_end(s[k - 1]) == a_off
    &&& !mp && k > 0 ==> span_end(s[k - 1]) < a_off
    &&& mn ==> k < s.len() && a_off + a_len == s[k].0
    &&& !mn && k < s.len() ==> a_off + a_len < s[k].0
}

proof fn lemma_splice_index(
    s: Seq<(int, int)>,
    cap: int,
    k: int,
    a_off: int,
    a_len: int,
    mp: bool,
    mn: bool,
)
    requires
        splice_pre(s, cap, k, a_off, a_len, mp, mn),
    ensures
        ({
            let r = splice_free(s, k, a_off, a_len, mp, mn);
            let lo = splice_lo(k, mp);
            let hi = splice_hi(k, mn);
            let ns = splice_span(s, k, a_off, a_len, mp, mn);
            &&& r.len() == lo + 1 + (s.len() - hi)
            &&& 0 <= lo <= k <= hi <= s.len()
            &&& forall|a: int| 0 <= a < lo ==> #[trigger] r[a] == s[a]
            &&& r[lo] == ns
            &&& forall|a: int| lo < a < r.len() ==> #[trigger] r[a] == s[a - lo - 1 + hi]
            &&& 0 <= ns.0
            &&& span_end(ns) <= cap
            &&& ns.1 > 0
        }),
{
    let r = splice_free(s, k, a_off, a_len, mp, mn);
    let lo = splice_lo(k, mp);
    let hi = splice_hi(k, mn);
    let ns = splice_span(s, k, a_off, a_len, mp, mn);
    let pre = s.subrange(0, lo);
    let post = s.subrange(hi, s.len() as int);
    assert(r == pre + seq![ns] + post);
    if mp {
        assert(0 <= s[k - 1].0);
    }
    if mn {
        assert(span_end(s[k]) <= cap);
    }
}

proof fn lemma_splice_shape(
    s: Seq<(int, int)>,
    cap: int,
    k: int,
    a_off: int,
    a_len: int,
    mp: bool,
    mn: bool,
)
    requires
        splice_pre(s, cap, k, a_off, a_len, mp, mn),
    ensures
        spans_wf(splice_free(s, k, a_off, a_len, mp, mn), cap),
{
    lemma_splice_index(s, cap, k, a_off, a_len, mp, mn);
    let r = splice_free(s, k, a_off, a_len, mp, mn);
    let lo = splice_lo(k, mp);
    let hi = splice_hi(k, mn);
    assert forall|a: int| 0 <= a < r.len() implies 0 <= #[trigger] r[a].0 && 0 <= r[a].1
        && span_end(r[a]) <= cap && (r[a].1 > 0 || cap == 0) by {
        if a < lo {
            assert(r[a] == s[a]);
        } else if a > lo {
            assert(r[a] == s[a - lo - 1 + hi]);
        }
    }
    assert forall|a: int, b: int| 0 <= a < b < r.len() implies span_end(r[a]) < r[b].0 by {
        if b < lo {
            assert(r[a] == s[a] && r[b] == s[b]);
        } else if b == lo {
            assert(r[a] == s[a]);
            if mp {
                assert(span_end(s[a]) < s[k - 1].0);
            } else {
                if a < k - 1 {
                    assert(span_end(s[a]) < s[k - 1].0);
                    assert(s[k - 1].0 <= span_end(s[k - 1]));
                }
            }
        } else {
            let b0 = b - lo - 1 + hi;
            assert(r[b] == s[b0]);
            assert(b0 >= k);
            if a == lo {
                if mn {
                    assert(span_end(s[k]) < s[b0].0);
                } else {
                    if b0 > k {
                        assert(span_end(s[k]) < s[b0].0);
                        assert(s[k].0 <= span_end(s[k]));
                    }
                }
            } else if a < lo {
                assert(r[a] == s[a]);
                assert(span_end(s[a]) < s[b0].0);
            } else {
                let a0 = a - lo - 1 + hi;
                assert(r[a] == s[a0]);
                assert(span_end(s[a0]) < s[b0].0);
            }
        }
    }
}

proof fn lemma_splice_units(
    s: Seq<(int, int)>,
    cap: int,
    k: int,
    a_off: int,
    a_len: int,
    mp: bool,
    mn: bool,
)
    requires
        splice_pre(s, cap, k, a_off, a_len, mp, mn),
    ensures
        spans_units(splice_free(s, k, a_off, a_len, mp, mn)) == spans_units(s).union(
            range_units(a_off, a_len),
        ),
{
    lemma_splice_index(s, cap, k, a_off, a_len, mp, mn);
    let r = splice_free(s, k, a_off, a_len, mp, mn);
    let lo = splice_lo(k, mp);
    let hi = splice_hi(k, mn);
    let rg = range_units(a_off, a_len);
    assert forall|u: int|
        spans_units(r).contains(u) <==> spans_units(s).union(rg).contains(u) by {
        if spans_units(r).contains(u) {
            let a = choose|a: int| 0 <= a < r.len() && #[trigger] span_has(r[a], u);
            if a < lo {
                assert(span_has(s[a], u));
            } else if a > lo {
                assert(span_has(s[a - lo - 1 + hi], u));
            } else {
                if u < a_off {
                    assert(span_has(s[k - 1], u));
                } else if u >= a_off + a_len {
                    assert(span_has(s[k], u));
                } else {
                    assert(rg.contains(u));
                }
            }
        }
        if spans_units(s).contains(u) {
            let a0 = choose|a0: int| 0 <= a0 < s.len() && #[trigger] span_has(s[a0], u);
            if a0 < lo {
                assert(span_has(r[a0], u));
            } else if a0 >= hi {
                assert(r[a0 - hi + lo + 1] == s[a0]);
                assert(span_has(r[a0 - hi + lo + 1], u));
            } else {
                assert(span_has(r[lo], u));
            }
        }
        if rg.contains(u) {
            assert(span_has(r[lo], u));
        }
    }
    assert(spans_units(r) =~= spans_units(s).union(rg));
}

proof fn lemma_splice_sum(
    s: Seq<(int, int)>,
    cap: int,
    k: int,
    a_off: int,
    a_len: int,
    mp: bool,
    mn: bool,
)
    requires
        splice_pre(s, cap, k, a_off, a_len, mp, mn),
    ensures
        sum_lens(splice_free(s, k, a_off, a_len, mp, mn)) == sum_lens(s) + a_len,
{
    let lo = splice_lo(k, mp);
    let hi = splice_hi(k, mn);
    let ns = splice_span(s, k, a_off, a_len, mp, mn);
    let pre = s.subrange(0, lo);
    let post = s.subrange(hi, s.len() as int);
    let r = splice_free(s, k, a_off, a_len, mp, mn);
    assert(r == pre + seq![ns] + post);
    lemma_sum_split(s, lo);
    let tail = s.subrange(lo, s.len() as int);
    lemma_sum_split(tail, hi - lo);
    assert(tail.subrange(hi - lo, tail.len() as int) =~= post);
    lemma_sum_concat(pre, seq![ns]);
    lemma_sum_concat(pre + seq![ns], post);
    lemma_sum_single(ns);
    let mid = tail.subrange(0, hi - lo);
    if hi - lo == 0 {
        assert(mid =~= Seq::<(int, int)>::empty());
    } else if hi - lo == 1 {
        if mp {
            assert(mid =~= seq![s[k - 1]]);
            lemma_sum_single(s[k - 1]);
        } else {
            assert(mid =~= seq![s[k]]);
            lemma_sum_single(s[k]);
        }
    } else {
        assert(mid =~= seq![s[k - 1]] + seq![s[k]]);
        lemma_sum_concat(seq![s[k - 1]], seq![s[k]]);
        lemma_sum_single(s[k - 1]);
        lemma_sum_single(s[k]);
    }
}

/// `[off, off + len)` shares no unit with any span of `s`.
pub open spec fn clear_of(s: Seq<(int, int)>, off: int, len: int) -> bool {
    forall|i: int| 0 <= i < s.len() ==> off + len <= (#[trigger] s[i]).0 || span_end(s[i]) <= off
}

/// Two allocations share no unit.
pub open spec fn ranges_disjoint(a: Allocation, b: Allocation) -> bool {
    a.len == 0 || b.len == 0 || a.offset + a.len <= b.offset || b.offset + b.len <= a.offset
}

/// Total length of a list of allocations.
pub open spec fn live_sum(live: Seq<Allocation>) -> int
    decreases live.len(),
{
    if live.len() == 0 {
        0
    } else {
        live_sum(live.drop_last()) + live.last().len
    }
}

/// A non-empty range is clear of the spans exactly when none of its units
/// is free.
proof fn lemma_clear_units(s: Seq<(int, int)>, cap: int, off: int, len: int)
    requires
        spans_wf(s, cap),
        len > 0,
        off >= 0,
    ensures
        clear_of(s, off, len) <==> range_units(off, len).disjoint(spans_units(s)),
{
    if clear_of(s, off, len) {
        assert forall|u: int| range_units(off, len).contains(u) implies !spans_units(s).contains(u) by {
            if spans_units(s).contains(u) {
                let i = choose|i: int| 0 <= i < s.len() && #[trigger] span_has(s[i], u);
                assert(off + len <= s[i].0 || span_end(s[i]) <= off);
            }
        }
    }
    if range_units(off, len).disjoint(spans_units(s)) {
        assert forall|i: int| 0 <= i < s.len() implies off + len <= (#[trigger] s[i]).0 || span_end(
            s[i],
        ) <= off by {
            if !(off + len <= s[i].0 || span_end(s[i]) <= off) {
                let u = if off > s[i].0 { off } else { s[i].0 };
                assert(s[i].1 > 0 || cap == 0);
                assert(span_has(s[i], u));
                assert(spans_units(s).contains(u));
                assert(range_units(off, len).contains(u));
            }
        }
    }
}

proof fn lemma_live_sum_push(live: Seq<Allocation>, a: Allocation)
    ensures
        live_sum(live.push(a)) == live_sum(live) + a.len,
{
    assert(live.push(a).drop_last() =~= live);
}

proof fn lemma_live_sum_remove(live: Seq<Allocation>, i: int)
    requires
        0 <= i < live.len(),
    ensures
        live_sum(live.remove(i)) == live_sum(live) - live[i].len,
    decreases live.len(),
{
    if i == live.len() - 1 {
        assert(live.remove(i) =~= live.drop_last());
    } else {
        let t = live.drop_last();
        lemma_live_sum_remove(t, i);
        assert(live.remove(i).drop_last() =~= t.remove(i));
        assert(live.remove(i).last() == live.last());
    }
}

/// The units of a canonical list without its first span are its units less
/// those of that span.
proof fn lemma_units_drop_first(s: Seq<(int, int)>, cap: int)
    requires
        spans_wf(s, cap),
        s.len() > 0,
    ensures
        spans_wf(s.drop_first(), cap),
        spans_units(s.drop_first()) == spans_units(s).difference(range_units(s[0].0, s[0].1)),
{
    let t = s.drop_first();
    assert forall|i: int, j: int| 0 <= i < j < t.len() implies span_end(#[trigger] t[i]) < (#[trigger] t[j]).0 by {
        assert(t[i] == s[i + 1] && t[j] == s[j + 1]);
    }
    assert forall|i: int| 0 <= i < t.len() implies 0 <= #[trigger] t[i].0 && 0 <= t[i].1 && span_end(t[i]) <= cap
        && (t[i].1 > 0 || cap == 0) by {
        assert(t[i] == s[i + 1]);
    }
    assert forall|u: int| spans_units(t).contains(u) <==> spans_units(s).difference(
        range_units(s[0].0, s[0].1),
    ).contains(u) by {
        if spans_units(t).contains(u) {
            let i = choose|i: int| 0 <= i < t.len() && #[trigger] span_has(t[i], u);
            assert(t[i] == s[i + 1]);
            assert(span_has(s[i + 1], u));
            assert(span_end(s[0]) < s[i + 1].0);
        }
        if spans_units(s).difference(range_units(s[0].0, s[0].1)).contains(u) {
            let i = choose|i: int| 0 <= i < s.len() && #[trigger] span_has(s[i], u);
            assert(i != 0);
            assert(t[i - 1] == s[i]);
            assert(span_has(t[i - 1], u));
        }
    }
    assert(spans_units(t) =~= spans_units(s).difference(range_units(s[0].0, s[0].1)));
}

/// Over a non-empty pool, a canonical free list is fixed by its free units.
proof fn lemma_spans_determined(s1: Seq<(int, int)>, s2: Seq<(int, int)>, cap: int)
    requires
        spans_wf(s1, cap),
        spans_wf(s2, cap),
        cap > 0,
        spans_units(s1) == spans_units(s2),
    ensures
        s1 == s2,
    decreases s1.len() + s2.len(),
{
    if s1.len() == 0 || s2.len() == 0 {
        if s1.len() > 0 {
            assert(span_has(s1[0], s1[0].0));
            assert(spans_units(s1).contains(s1[0].0));
        }
        if s2.len() > 0 {
            assert(span_has(s2[0], s2[0].0));
            assert(spans_units(s2).contains(s2[0].0));
        }
        assert(s1 =~= s2);
    } else {
        let a = s1[0];
        let b = s2[0];
        assert(span_has(a, a.0));
        assert(spans_units(s1).contains(a.0));
        let j = choose|j: int| 0 <= j < s2.len() && #[trigger] span_has(s2[j], a.0);
        if j > 0 {
            assert(span_end(s2[0]) < s2[j].0);
        }
        assert(span_has(b, b.0));
        assert(spans_units(s2).contains(b.0));
        let i = choose|i: int| 0 <= i < s1.len() && #[trigger] span_has(s1[i], b.0);
        if i > 0 {
            assert(span_end(s1[0]) < s1[i].0);
        }
        assert(a.0 == b.0);
        if span_end(a) < span_end(b) {
            let e = span_end(a);
            assert(span_has(b, e));
            assert(spans_units(s2).contains(e));
            let i2 = choose|i2: int| 0 <= i2 < s1.len() && #[trigger] span_has(s1[i2], e);
            if i2 > 0 {
                assert(span_end(s1[0]) < s1[i2].0);
            }
        }
        if span_end(b) < span_end(a) {
            let e = span_end(b);
            assert(span_has(a, e));
            assert(spans_units(s1).contains(e));
            let j2 = choose|j2: int| 0 <= j2 < s2.len() && #[trigger] span_has(s2[j2], e);
            if j2 > 0 {
                assert(span_end(s2[0]) < s2[j2].0);
            }
        }
        assert(a == b);
        lemma_units_drop_first(s1, cap);
        lemma_units_drop_first(s2, cap);
        lemma_spans_determined(s1.drop_first(), s2.drop_first(), cap);
        assert(s1 =~= seq![a] + s1.drop_first());
        assert(s2 =~= seq![b] + s2.drop_first());
    }
}

/// Returning a range that lies in a gap of the list, merging with the span
/// just before it (`mp`) and/or just after it (`mn`) when they touch it, keeps
/// the list canonical and adds exactly the returned units.
proof fn lemma_splice_free(
    s: Seq<(int, int)>,
    cap: int,
    k: int,
    a_off: int,
    a_len: int,
    mp: bool,
    mn: bool,
)
    requires
        splice_pre(s, cap, k, a_off, a_len, mp, mn),
    ensures
        spans_wf(splice_free(s, k, a_off, a_len, mp, mn), cap),
        spans_units(splice_free(s, k, a_off, a_len, mp, mn)) == spans_units(s).union(
            range_units(a_off, a_len),
        ),
        sum_lens(splice_free(s, k, a_off, a_len, mp, mn)) == sum_lens(s) + a_len,
{
    lemma_splice_shape(s, cap, k, a_off, a_len, mp, mn);
    lemma_splice_units(s, cap, k, a_off, a_len, mp, mn);
    lemma_splice_sum(s, cap, k, a_off, a_len, mp, mn);
}

/// Where the scan in `free` stops, the returned range sits between the spans
/// before and after that index.
proof fn lemma_gap(s: Seq<(int, int)>, cap: int, k: int, a_off: int, a_len: int)
    requires
        spans_wf(s, cap),
        0 <= k <= s.len(),
        0 < a_len,
        0 <= a_off,
        a_off + a_len <= cap,
        forall|j: int| 0 <= j < k ==> (#[trigger] s[j]).0 < a_off,
        k < s.len() ==> s[k].0 >= a_off,
        forall|i: int|
            0 <= i < s.len() ==> a_off + a_len <= (#[trigger] s[i]).0 || span_end(s[i]) <= a_off,
    ensures
        forall|j: int| 0 <= j < k ==> span_end(#[trigger] s[j]) <= a_off,
        forall|j: int| k <= j < s.len() ==> a_off + a_len <= (#[trigger] s[j]).0,
{
    assert forall|j: int| k <= j < s.len() implies a_off + a_len <= (#[trigger] s[j]).0 by {
        if j > k {
            assert(span_end(s[k]) < s[j].0);
        }
        assert(s[j].1 > 0);
    }
}

impl FreeListAllocator {
    /// The free blocks, in order, as `(offset, len)` pairs.
    pub closed spec fn spans(&self) -> Seq<(int, int)> {
        self.free_blocks@.map_values(|b: FreeBlock| (b.offset as int, b.len as int))
    }

    /// The size of the managed range.
    pub closed spec fn cap(&self) -> int {
        self.capacity as int
    }

    /// The free list is in canonical form.
    pub closed spec fn wf(&self) -> bool {
        spans_wf(self.spans(), self.cap())
    }

    /// Every unit that is currently free.
    pub open spec fn free_units(&self) -> Set<int> {
        spans_units(self.spans())
    }

    /// Total number of free units.
    pub open spec fn total_free(&self) -> int {
        sum_lens(self.spans())
    }

    /// Size of the largest free block.
    pub open spec fn largest(&self) -> int {
        max_len(self.spans())
    }

    /// `a` is a range that `free` may take back: empty, or inside the pool
    /// and clear of every free block (so it is currently handed out).
    pub open spec fn can_free(&self, a: Allocation) -> bool {
        a.len > 0 ==> {
            &&& a.offset + a.len <= self.cap()
            &&& forall|i: int|
                0 <= i < self.spans().len() ==> a.offset + a.len <= (#[trigger] self.spans()[i]).0
                    || span_end(self.spans()[i]) <= a.offset
        }
    }

    /// `live` are the allocations handed out and not given back yet: each of
    /// them may be freed, no two of them overlap, and together with the free
    /// units they account for the whole pool.
    pub open spec fn live_ok(&self, live: Seq<Allocation>) -> bool {
        &&& forall|i: int| 0 <= i < live.len() ==> self.can_free(#[trigger] live[i])
        &&& forall|i: int, j: int|
            0 <= i < j < live.len() ==> ranges_disjoint(#[trigger] live[i], #[trigger] live[j])
        &&& self.total_free() == self.cap() - live_sum(live)
    }

    /// A pool of `capacity` units, all free.
    pub fn new(capacity: usize) -> (r: Self)
        ensures
            r.wf(),
            r.cap() == capacity,
            r.spans() == seq![(0int, capacity as int)],
            r.free_units() == range_units(0, capacity as int),
            r.total_free() == capacity,
            r.live_ok(Seq::empty()),
    {
        let r = Self { capacity, free_blocks: vec![FreeBlock { offset: 0, len: capacity }] };
        assert(r.spans() =~= seq![(0int, capacity as int)]);
        proof {
            lemma_sum_single((0int, capacity as int));
            assert forall|u: int| r.free_units().contains(u) <==> range_units(0, capacity as int).contains(u) by {
                if range_units(0, capacity as int).contains(u) {
                    assert(span_has(r.spans()[0], u));
                }
            }
            assert(r.free_units() =~= range_units(0, capacity as int));
        }
        r
    }

    /// Allocates `len` contiguous units from the first free block that is
    /// large enough; `None` if no single block is. A zero-length request
    /// always succeeds with the empty allocation at offset 0.
    pub fn allocate(&mut self, len: usize) -> (r: Option<Allocation>)
        requires
            old(self).wf(),
        ensures
            final(self).wf(),
            final(self).cap() == old(self).cap(),
            len == 0 ==> r == Some(Allocation { offset: 0, len: 0 }) && final(self).spans()
                == old(self).spans(),
            len > 0 ==> (r is Some <==> len <= old(self).largest()),
            len > 0 ==> (r is Some <==> first_fit(old(self).spans(), len as int) < old(
                self,
            ).spans().len()),
            len > 0 && r is None ==> final(self).spans() == old(self).spans(),
            len > 0 && r is Some ==> ({
                let i = first_fit(old(self).spans(), len as int);
                let a = r->0;
                &&& a.len == len
                &&& a.offset == old(self).spans()[i].0
                &&& final(self).spans() == carve(old(self).spans(), i, len as int)
                &&& range_units(a.offset as int, len as int).subset_of(old(self).free_units())
                &&& final(self).free_units() == old(self).free_units().difference(
                    range_units(a.offset as int, len as int),
                )
                &&& final(self).total_free() == old(self).total_free() - len
                &&& final(self).can_free(a)
            }),
            forall|b: Allocation| old(self).can_free(b) ==> #[trigger] final(self).can_free(b),
            r matches Some(a) ==> forall|b: Allocation|
                #[trigger] old(self).can_free(b) ==> ranges_disjoint(b, a),
            r is None ==> forall|live: Seq<Allocation>|
                old(self).live_ok(live) ==> #[trigger] final(self).live_ok(live),
            r matches Some(a) ==> forall|live: Seq<Allocation>|
                old(self).live_ok(live) ==> #[trigger] final(self).live_ok(live.push(a)),
    {
        if len == 0 {
            proof {
                assert(old(self).free_units().difference(range_units(0, 0)) =~= old(self).free_units());
                lemma_alloc_keeps(*old(self), *self, Allocation { offset: 0, len: 0 });
            }
            return Some(Allocation { offset: 0, len: 0 });
        }
        let ghost s = self.spans();
        let ghost cap = self.cap();
        proof {
            lemma_first_fit(s, len as int);
            lemma_max_len(s);
        }
        let n = self.free_blocks.len();
        let mut idx: usize = 0;
        while idx < n && self.free_blocks[idx].len < len
            invariant
                n == self.free_blocks.len(),
                s == self.spans(),
                0 <= idx <= n,
                forall|j: int| 0 <= j < idx ==> #[trigger] s[j].1 < len,
            decreases n - idx,
        {
            idx = idx + 1;
        }
        assert(idx as int == first_fit(s, len as int)) by {
            if (idx as int) < first_fit(s, len as int) {
                assert(s[idx as int].1 < len);
            } else if (idx as int) > first_fit(s, len as int) {
                let f = first_fit(s, len as int);
                assert(s[f].1 < len);
            }
        }
        if idx == n {
            proof {
                if s.len() > 0 {
                    let m = choose|m: int| 0 <= m < s.len() && #[trigger] s[m].1 == max_len(s);
                    assert(s[m].1 < len);
                }
            }
            assert(*self == *old(self));
            return None;
        }
        let block = self.free_blocks[idx];
        proof {
            lemma_carve(s, cap, idx as int, len as int);
        }
        if block.len == len {
            self.free_blocks.remove(idx);
        } else {
            self.free_blocks.set(idx, FreeBlock { offset: block.offset + len, len: block.len - len });
        }
        let a = Allocation { offset: block.offset, len };
        proof {
            assert(self.spans() =~= carve(s, idx as int, len as int));
            let t = self.spans();
            assert forall|i: int| 0 <= i < t.len() implies a.offset + a.len <= (
            #[trigger] t[i]).0 || span_end(t[i]) <= a.offset by {
                if i < idx {
                    assert(t[i] == s[i]);
                    assert(span_end(s[i]) < s[idx as int].0);
                } else if block.len == len {
                    assert(t[i] == s[i + 1]);
                    assert(span_end(s[idx as int]) < s[i + 1].0);
                } else if i == idx {
                } else {
                    assert(t[i] == s[i]);
                    assert(span_end(s[idx as int]) < s[i].0);
                }
            }
            lemma_alloc_keeps(*old(self), *self, a);
        }
        Some(a)
    }

    /// Gives a range back to the pool, merging it with the free blocks right
    /// before and after it when they touch it.
    pub fn free(&mut self, allocation: Allocation)
        requires
            old(self).wf(),
            old(self).can_free(allocation),
        ensures
            final(self).wf(),
            final(self).cap() == old(self).cap(),
            final(self).free_units() == old(self).free_units().union(
                range_units(allocation.offset as int, allocation.len as int),
            ),
            final(self).total_free() == old(self).total_free() + allocation.len,
            final(self).spans() == freed_spans(
                old(self).spans(),
                allocation.offset as int,
                allocation.len as int,
            ),
            forall|b: Allocation|
                old(self).can_free(b) && ranges_disjoint(b, allocation)
                    ==> #[trigger] final(self).can_free(b),
            forall|live: Seq<Allocation>, i: int|
                old(self).live_ok(live) && 0 <= i < live.len() && live[i] == allocation
                    ==> #[trigger] final(self).live_ok(live.remove(i)),
    {
        if allocation.len == 0 {
            assert(old(self).free_units().union(range_units(allocation.offset as int, 0))
                =~= old(self).free_units());
        } else {
            self.free_range(allocation);
        }
        proof {
            lemma_free_keeps(*old(self), *self, allocation);
        }
    }

    /// Puts the non-empty range back in its place and merges it with the
    /// touching neighbours.
    #[verifier::rlimit(100)]
    #[verifier::spinoff_prover]
    fn free_range(&mut self, allocation: Allocation)
        requires
            old(self).wf(),
            old(self).can_free(allocation),
            allocation.len > 0,
        ensures
            final(self).wf(),
            final(self).cap() == old(self).cap(),
            final(self).free_units() == old(self).free_units().union(
                range_units(allocation.offset as int, allocation.len as int),
            ),
            final(self).total_free() == old(self).total_free() + allocation.len,
            final(self).spans() == freed_spans(
                old(self).spans(),
                allocation.offset as int,
                allocation.len as int,
            ),
    {
        let ghost s = self.spans();
        let ghost cap = self.cap();
        let offset = allocation.offset;
        let len = allocation.len;

        let n = self.free_blocks.len();
        let mut insert_at: usize = 0;
        while insert_at < n && self.free_blocks[insert_at].offset < offset
            invariant
                n == self.free_blocks.len(),
                s == self.spans(),
                0 <= insert_at <= n,
                offset == allocation.offset,
                forall|j: int| 0 <= j < insert_at ==> (#[trigger] s[j]).0 < offset,
            decreases n - insert_at,
        {
            insert_at = insert_at + 1;
        }
        let ghost k = insert_at as int;
        proof {
            lemma_insert_pos(s, offset as int);
            assert(k == insert_pos(s, offset as int)) by {
                if k < insert_pos(s, offset as int) {
                    assert(s[k].0 < offset);
                } else if k > insert_pos(s, offset as int) {
                    let q = insert_pos(s, offset as int);
                    assert(s[q].0 >= offset);
                }
            }
            lemma_gap(s, cap, k, allocation.offset as int, allocation.len as int);
        }
        let mut merge_next = false;
        let mut end = offset + len;
        if insert_at < n {
            let next = self.free_blocks[insert_at];
            if offset + len == next.offset {
                merge_next = true;
                end = next.offset + next.len;
            }
        }
        let mut merge_prev = false;
        let mut start = offset;
        if insert_at > 0 {
            let prev = self.free_blocks[insert_at - 1];
            assert(span_end(s[k - 1]) <= cap);
            if prev.offset + prev.len == offset {
                merge_prev = true;
                start = prev.offset;
            }
        }
        let ghost mp = merge_prev;
        let ghost mn = merge_next;
        proof {
            assert(splice_pre(s, cap, k, allocation.offset as int, allocation.len as int, mp, mn));
            lemma_splice_free(s, cap, k, allocation.offset as int, allocation.len as int, mp, mn);
            lemma_splice_index(s, cap, k, allocation.offset as int, allocation.len as int, mp, mn);
        }
        let lo = if merge_prev { insert_at - 1 } else { insert_at };
        let block = FreeBlock { offset: start, len: end - start };
        let ghost old_blocks = self.free_blocks@;
        if merge_prev || merge_next {
            self.free_blocks.set(lo, block);
            if merge_prev && merge_next {
                self.free_blocks.remove(lo + 1);
            }
        } else {
            self.free_blocks.insert(insert_at, block);
        }
        proof {
            let hi = splice_hi(k, mn);
            assert(self.free_blocks@ =~= old_blocks.subrange(0, lo as int) + seq![block]
                + old_blocks.subrange(hi, old_blocks.len() as int));
            assert(self.spans() =~= splice_free(
                s,
                k,
                allocation.offset as int,
                allocation.len as int,
                mp,
                mn,
            ));
            assert(mp == (k > 0 && span_end(s[k - 1]) == allocation.offset));
            assert(mn == (k < s.len() && allocation.offset + allocation.len == s[k].0));
            assert(freed_spans(s, allocation.offset as int, allocation.len as int) == splice_free(
                s,
                k,
                allocation.offset as int,
                allocation.len as int,
                mp,
                mn,
            ));
        }
    }

    /// Total free units across all blocks (not the ceiling on the next
    /// allocation; see `largest_free_block`).
    pub fn free_space(&self) -> (r: usize)
        requires
            self.wf(),
        ensures
            r == self.total_free(),
    {
        let ghost s = self.spans();
        let n = self.free_blocks.len();
        let mut total: usize = 0;
        let mut i: usize = 0;
        while i < n
            invariant
                n == self.free_blocks.len(),
                s == self.spans(),
                spans_wf(s, self.cap()),
                self.cap() == self.capacity,
                0 <= i <= n,
                total == sum_lens(s.subrange(0, i as int)),
            decreases n - i,
        {
            proof {
                let t = s.subrange(0, i + 1);
                assert(t.drop_last() =~= s.subrange(0, i as int));
                assert forall|a: int, b: int| 0 <= a < b < t.len() implies span_end(t[a])
                    < t[b].0 by {
                    assert(t[a] == s[a] && t[b] == s[b]);
                }
                assert forall|a: int| 0 <= a < t.len() implies 0 <= #[trigger] t[a].0 && 0 <= t[a].1
                    && span_end(t[a]) <= self.cap() && (t[a].1 > 0 || self.cap() == 0) by {
                    assert(t[a] == s[a]);
                }
                lemma_sum_bounded(t, self.cap());
                assert(t.last() == s[i as int]);
            }
            total = total + self.free_blocks[i].len;
            i = i + 1;
        }
        assert(s.subrange(0, n as int) =~= s);
        total
    }

    /// Size of the largest contiguous free block: the real ceiling on the next
    /// successful `allocate`.
    pub fn largest_free_block(&self) -> (r: usize)
        requires
            self.wf(),
        ensures
            r == self.largest(),
    {
        let ghost s = self.spans();
        let n = self.free_blocks.len();
        let mut best: usize = 0;
        let mut i: usize = 0;
        while i < n
            invariant
                n == self.free_blocks.len(),
                s == self.spans(),
                0 <= i <= n,
                best == max_len(s.subrange(0, i as int)),
            decreases n - i,
        {
            proof {
                assert(s.subrange(0, i + 1).drop_last() =~= s.subrange(0, i as int));
            }
            if self.free_blocks[i].len > best {
                best = self.free_blocks[i].len;
            }
            i = i + 1;
        }
        assert(s.subrange(0, n as int) =~= s);
        best
    }

    /// The size of the managed range.
    pub fn capacity(&self) -> (r: usize)
        ensures
            r == self.cap(),
    {
        self.capacity
    }

    /// Whether `a` may be given back with `free`: empty, or inside the pool
    /// and clear of every free block.
    pub fn is_releasable(&self, a: Allocation) -> (r: bool)
        requires
            self.wf(),
        ensures
            r == self.can_free(a),
    {
        if a.len == 0 {
            return true;
        }
        if a.offset > self.capacity || a.len > self.capacity - a.offset {
            return false;
        }
        let end = a.offset + a.len;
        let n = self.free_blocks.len();
        let mut i: usize = 0;
        while i < n
            invariant
                self.wf(),
                n == self.free_blocks@.len(),
                n == self.spans().len(),
                i <= n,
                end == a.offset + a.len,
                end <= self.cap(),
                a.len > 0,
                forall|k: int|
                    0 <= k < i ==> a.offset + a.len <= (#[trigger] self.spans()[k]).0 || span_end(
                        self.spans()[k],
                    ) <= a.offset,
            decreases n - i,
        {
            let b = self.free_blocks[i];
            assert(self.spans()[i as int] == (b.offset as int, b.len as int));
            assert(0 <= self.spans()[i as int].0 && span_end(self.spans()[i as int]) <= self.cap());
            if !(end <= b.offset || b.offset + b.len <= a.offset) {
                assert(!(a.offset + a.len <= self.spans()[i as int].0 || span_end(self.spans()[i as int])
                    <= a.offset));
                return false;
            }
            i = i + 1;
        }
        true
    }

    /// Number of separate free blocks (1 for a fully free, unfragmented pool).
    pub fn free_block_count(&self) -> (r: usize)
        ensures
            r == self.spans().len(),
    {
        self.free_blocks.len()
    }
}

/// Taking `a` out of the free units keeps every releasable range
/// releasable, keeps `a` clear of them, and extends the live list by `a`.
proof fn lemma_alloc_keeps(p: FreeListAllocator, q: FreeListAllocator, a: Allocation)
    requires
        p.wf(),
        q.wf(),
        q.cap() == p.cap(),
        range_units(a.offset as int, a.len as int).subset_of(p.free_units()),
        q.free_units() == p.free_units().difference(range_units(a.offset as int, a.len as int)),
        q.total_free() == p.total_free() - a.len,
        q.can_free(a),
    ensures
        forall|b: Allocation| p.can_free(b) ==> #[trigger] q.can_free(b),
        forall|b: Allocation| #[trigger] p.can_free(b) ==> ranges_disjoint(b, a),
        forall|live: Seq<Allocation>| p.live_ok(live) ==> #[trigger] q.live_ok(live.push(a)),
{
    assert forall|b: Allocation| #[trigger] p.can_free(b) implies q.can_free(b) && ranges_disjoint(b, a) by {
        if b.len > 0 {
            lemma_clear_units(p.spans(), p.cap(), b.offset as int, b.len as int);
            lemma_clear_units(q.spans(), q.cap(), b.offset as int, b.len as int);
            assert(range_units(b.offset as int, b.len as int).disjoint(q.free_units()));
            if a.len > 0 && !(a.offset + a.len <= b.offset || b.offset + b.len <= a.offset) {
                let u: int = if a.offset > b.offset { a.offset as int } else { b.offset as int };
                assert(range_units(a.offset as int, a.len as int).contains(u));
                assert(range_units(b.offset as int, b.len as int).contains(u));
            }
        }
    }
    assert forall|live: Seq<Allocation>| p.live_ok(live) implies #[trigger] q.live_ok(live.push(a)) by {
        let l2 = live.push(a);
        lemma_live_sum_push(live, a);
        assert forall|i: int| 0 <= i < l2.len() implies q.can_free(#[trigger] l2[i]) by {
            if i < live.len() {
                assert(l2[i] == live[i]);
                assert(p.can_free(live[i]));
            }
        }
        assert forall|i: int, j: int| 0 <= i < j < l2.len() implies ranges_disjoint(
            #[trigger] l2[i],
            #[trigger] l2[j],
        ) by {
            assert(l2[i] == live[i]);
            if j < live.len() {
                assert(l2[j] == live[j]);
            } else {
                assert(p.can_free(live[i]));
            }
        }
    }
}

/// Giving `a` back keeps every releasable range that is clear of `a`
/// releasable, and shortens a live list that holds `a` by it.
proof fn lemma_free_keeps(p: FreeListAllocator, q: FreeListAllocator, a: Allocation)
    requires
        p.wf(),
        q.wf(),
        q.cap() == p.cap(),
        p.can_free(a),
        q.free_units() == p.free_units().union(range_units(a.offset as int, a.len as int)),
        q.total_free() == p.total_free() + a.len,
    ensures
        forall|b: Allocation| p.can_free(b) && ranges_disjoint(b, a) ==> #[trigger] q.can_free(b),
        forall|live: Seq<Allocation>, i: int|
            p.live_ok(live) && 0 <= i < live.len() && live[i] == a ==> #[trigger] q.live_ok(
                live.remove(i),
            ),
{
    assert forall|b: Allocation| p.can_free(b) && ranges_disjoint(b, a) implies #[trigger] q.can_free(b) by {
        if b.len > 0 {
            lemma_clear_units(p.spans(), p.cap(), b.offset as int, b.len as int);
            lemma_clear_units(q.spans(), q.cap(), b.offset as int, b.len as int);
            assert(range_units(b.offset as int, b.len as int).disjoint(q.free_units()));
        }
    }
    assert forall|live: Seq<Allocation>, i: int|
        p.live_ok(live) && 0 <= i < live.len() && live[i] == a implies #[trigger] q.live_ok(
        live.remove(i),
    ) by {
        let l2 = live.remove(i);
        lemma_live_sum_remove(live, i);
        assert forall|k: int| 0 <= k < l2.len() implies q.can_free(#[trigger] l2[k]) by {
            let k0 = if k < i { k } else { k + 1 };
            assert(l2[k] == live[k0]);
            assert(p.can_free(live[k0]));
            if k0 < i {
                assert(ranges_disjoint(live[k0], live[i]));
            } else {
                assert(ranges_disjoint(live[i], live[k0]));
            }
            assert(ranges_disjoint(l2[k], a));
        }
        assert forall|k: int, m: int| 0 <= k < m < l2.len() implies ranges_disjoint(
            #[trigger] l2[k],
            #[trigger] l2[m],
        ) by {
            let k0 = if k < i { k } else { k + 1 };
            let m0 = if m < i { m } else { m + 1 };
            assert(l2[k] == live[k0] && l2[m] == live[m0]);
            assert(ranges_disjoint(live[k0], live[m0]));
        }
    }
}

/// Over any run of `new`, `allocate` and `free` (each `free` given a live
/// allocation), the free space is the capacity less the lengths of the live
/// allocations, and no block is larger than the free space.
pub proof fn law_live_accounting(p: FreeListAllocator, live: Seq<Allocation>)
    requires
        p.wf(),
        p.live_ok(live),
    ensures
        p.total_free() == p.cap() - live_sum(live),
        0 <= p.largest() <= p.total_free() <= p.cap(),
{
    law_free_space_bounds(p);
}

/// A well-formed pool keeps its free blocks in canonical form: each lies in
/// the pool and is non-empty (unless the pool is empty), they are sorted by
/// offset, and no two of them overlap or touch.
pub proof fn law_wf_is_canonical(p: FreeListAllocator)
    ensures
        p.wf() <==> spans_wf(p.spans(), p.cap()),
{
}

/// Over a non-empty pool, the free blocks are fixed by the free units: two
/// pools with the same capacity and the same free units have the same block
/// list, hence the same free space and largest block.
pub proof fn law_blocks_fixed_by_units(p: FreeListAllocator, q: FreeListAllocator)
    requires
        p.wf(),
        q.wf(),
        p.cap() == q.cap(),
        p.cap() > 0,
        p.free_units() == q.free_units(),
    ensures
        p.spans() == q.spans(),
        p.total_free() == q.total_free(),
        p.largest() == q.largest(),
{
    lemma_spans_determined(p.spans(), q.spans(), p.cap());
}

/// Returning an allocation undoes it: after `allocate` hands out `a` and
/// `free(a)` takes it back, the pool is as it was: the same free blocks,
/// hence the same free units, free space and largest block.
pub proof fn law_free_undoes_allocate(
    before: FreeListAllocator,
    between: FreeListAllocator,
    after: FreeListAllocator,
    a: Allocation,
)
    requires
        before.wf(),
        between.wf(),
        after.wf(),
        between.cap() == before.cap(),
        after.cap() == before.cap(),
        a.len == 0 ==> between.spans() == before.spans(),
        a.len > 0 ==> range_units(a.offset as int, a.len as int).subset_of(before.free_units()),
        a.len > 0 ==> between.free_units() == before.free_units().difference(
            range_units(a.offset as int, a.len as int),
        ),
        after.free_units() == between.free_units().union(
            range_units(a.offset as int, a.len as int),
        ),
        after.spans() == freed_spans(between.spans(), a.offset as int, a.len as int),
    ensures
        after.spans() == before.spans(),
        after.free_units() == before.free_units(),
        after.total_free() == before.total_free(),
        after.largest() == before.largest(),
{
    if a.len > 0 {
        assert(after.free_units() =~= before.free_units());
        let u = a.offset as int;
        assert(range_units(a.offset as int, a.len as int).contains(u));
        let i = choose|i: int| 0 <= i < before.spans().len() && #[trigger] span_has(before.spans()[i], u);
        assert(span_end(before.spans()[i]) <= before.cap());
        lemma_spans_determined(after.spans(), before.spans(), before.cap());
    }
}

/// The free list never describes more room than the pool has, and the
/// largest block is never larger than the total free space.
pub proof fn law_free_space_bounds(p: FreeListAllocator)
    requires
        p.wf(),
    ensures
        0 <= p.largest() <= p.total_free() <= p.cap(),
{
    lemma_sum_bounded(p.spans(), p.cap());
    lemma_max_len(p.spans());
    lemma_max_le_sum(p.spans());
    if p.spans().len() > 0 {
        assert(span_end(p.spans().last()) <= p.cap());
    }
}

proof fn lemma_max_le_sum(s: Seq<(int, int)>)
    requires
        forall|i: int| 0 <= i < s.len() ==> 0 <= #[trigger] s[i].1,
    ensures
        max_len(s) <= sum_lens(s),
        0 <= sum_lens(s),
    decreases s.len(),
{
    if s.len() > 0 {
        let t = s.drop_last();
        assert forall|i: int| 0 <= i < t.len() implies 0 <= #[trigger] t[i].1 by {
            assert(t[i] == s[i]);
        }
        lemma_max_le_sum(t);
        assert(0 <= s[s.len() - 1].1);
    }
}

/// Coalescing is complete: once every unit of a non-empty pool is free again,
/// the free list is a single block covering the whole pool.
pub proof fn law_fully_free_is_one_block(p: FreeListAllocator)
    requires
        p.wf(),
        p.cap() > 0,
        p.free_units() == range_units(0, p.cap()),
    ensures
        p.spans() == seq![(0int, p.cap())],
{
    let s = p.spans();
    let cap = p.cap();
    assert(range_units(0, cap).contains(0));
    let i0 = choose|i: int| 0 <= i < s.len() && #[trigger] span_has(s[i], 0);
    if i0 > 0 {
        assert(span_end(s[0]) < s[i0].0);
    }
    assert(s[0].0 == 0);
    if s.len() > 1 {
        let e = span_end(s[0]);
        assert(e < s[1].0);
        assert(s[1].0 <= cap);
        assert(range_units(0, cap).contains(e));
        let j = choose|j: int| 0 <= j < s.len() && #[trigger] span_has(s[j], e);
        if j > 1 {
            assert(span_end(s[1]) < s[j].0);
            assert(s[1].0 <= span_end(s[1]));
        }
        assert(false);
    }
    assert(range_units(0, cap).contains(cap - 1));
    let j = choose|j: int| 0 <= j < s.len() && #[trigger] span_has(s[j], cap - 1);
    assert(s =~= seq![(0int, cap)]);
}

} // verus!
