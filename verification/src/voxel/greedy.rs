//! Greedy merging of the visible cells of one face layer into rectangles.
use vstd::prelude::*;

verus! {

/// A rectangle of grid cells: `u` in `[u, u + w)`, `v` in `[v, v + h)`.
#[derive(Clone, Copy, Debug, PartialEq, Eq, Structural)]
pub struct GridRect {
    pub u: usize,
    pub v: usize,
    pub w: usize,
    pub h: usize,
}

/// Flat index of cell `(u, v)` in a grid with `vs` cells along `v`.
pub open spec fn gi(vs: int, u: int, v: int) -> int {
    u * vs + v
}

/// Whether rectangle `r` contains cell `(u, v)`.
pub open spec fn rect_has(r: GridRect, u: int, v: int) -> bool {
    r.u <= u < r.u + r.w && r.v <= v < r.v + r.h
}

/// `r` is a non-empty rectangle inside a `us` x `vs` grid whose cells are all
/// set in `g`.
pub open spec fn rect_ok(g: Seq<bool>, us: int, vs: int, r: GridRect) -> bool {
    &&& r.w >= 1
    &&& r.h >= 1
    &&& r.u + r.w <= us
    &&& r.v + r.h <= vs
    &&& forall|u: int, v: int| #[trigger] rect_has(r, u, v) ==> g[gi(vs, u, v)]
}

/// Some rectangle of `rs` contains `(u, v)`.
pub open spec fn covered(rs: Seq<GridRect>, u: int, v: int) -> bool {
    exists|i: int| 0 <= i < rs.len() && #[trigger] rect_has(rs[i], u, v)
}

/// No cell lies in two rectangles of `rs`.
pub open spec fn pairwise_disjoint(rs: Seq<GridRect>) -> bool {
    forall|i: int, j: int, u: int, v: int|
        0 <= i < j < rs.len() && #[trigger] rect_has(rs[i], u, v) ==> !#[trigger] rect_has(
            rs[j],
            u,
            v,
        )
}

/// `rs` tiles exactly the set cells of the `us` x `vs` grid `g`.
pub open spec fn exact_tiling(g: Seq<bool>, us: int, vs: int, rs: Seq<GridRect>) -> bool {
    &&& forall|i: int| 0 <= i < rs.len() ==> rect_ok(g, us, vs, #[trigger] rs[i])
    &&& pairwise_disjoint(rs)
    &&& forall|u: int, v: int|
        0 <= u < us && 0 <= v < vs && #[trigger] g[gi(vs, u, v)] ==> covered(rs, u, v)
}

pub proof fn lemma_gi(us: int, vs: int, u: int, v: int)
    requires
        0 <= u < us,
        0 <= v < vs,
    ensures
        0 <= gi(vs, u, v) < us * vs,
        gi(vs, u, v) < (u + 1) * vs,
        u * vs <= gi(vs, u, v),
{
    assert(0 <= u * vs) by (nonlinear_arith)
        requires
            0 <= u,
            0 <= vs,
    ;
    assert((u + 1) * vs <= us * vs) by (nonlinear_arith)
        requires
            u + 1 <= us,
            0 <= vs,
    ;
    assert((u + 1) * vs == u * vs + vs) by (nonlinear_arith);
}

/// Distinct cells have distinct flat indices.
pub proof fn lemma_gi_inj(vs: int, u1: int, v1: int, u2: int, v2: int)
    requires
        0 <= v1 < vs,
        0 <= v2 < vs,
        0 <= u1,
        0 <= u2,
        gi(vs, u1, v1) == gi(vs, u2, v2),
    ensures
        u1 == u2 && v1 == v2,
{
    if u1 < u2 {
        assert((u1 + 1) * vs <= u2 * vs) by (nonlinear_arith)
            requires
                u1 + 1 <= u2,
                0 <= vs,
        ;
        assert((u1 + 1) * vs == u1 * vs + vs) by (nonlinear_arith);
    } else if u2 < u1 {
        assert((u2 + 1) * vs <= u1 * vs) by (nonlinear_arith)
            requires
                u2 + 1 <= u1,
                0 <= vs,
        ;
        assert((u2 + 1) * vs == u2 * vs + vs) by (nonlinear_arith);
    }
}

/// Cell `(u, v)` comes before cell `(cu, cv)` in the scan order (u outer,
/// v inner).
pub open spec fn before(u: int, v: int, cu: int, cv: int) -> bool {
    u < cu || (u == cu && v < cv)
}

/// Cell `(a, b)` lies in the `us` x `vs` grid, is set in `g`, and is in no
/// rectangle of `prev`.
pub open spec fn free_cell(g: Seq<bool>, us: int, vs: int, prev: Seq<GridRect>, a: int, b: int) -> bool {
    0 <= a < us && 0 <= b < vs && g[gi(vs, a, b)] && !covered(prev, a, b)
}

/// `r` is the rectangle the greedy scan takes once `prev` is taken: it
/// starts at the first free cell in scan order, reaches along `u` up to the
/// first cell of its first row that is not free, and along `v` up to the
/// first row whose cells over its width are not all free.
pub open spec fn greedy_pick(g: Seq<bool>, us: int, vs: int, prev: Seq<GridRect>, r: GridRect) -> bool {
    &&& free_cell(g, us, vs, prev, r.u as int, r.v as int)
    &&& forall|a: int, b: int|
        before(a, b, r.u as int, r.v as int) ==> !#[trigger] free_cell(g, us, vs, prev, a, b)
    &&& (r.u + r.w == us || !free_cell(g, us, vs, prev, r.u + r.w, r.v as int))
    &&& (r.v + r.h == vs || exists|k: int|
        0 <= k < r.w && !#[trigger] free_cell(g, us, vs, prev, r.u + k, r.v + r.h))
}

/// Each rectangle of `rs` is the greedy pick once those before it are taken.
#[verifier::opaque]
pub open spec fn greedy_order(g: Seq<bool>, us: int, vs: int, rs: Seq<GridRect>) -> bool {
    forall|i: int| 0 <= i < rs.len() ==> greedy_pick(g, us, vs, rs.take(i), #[trigger] rs[i])
}

/// The rectangle at `i` of a sequence in greedy order is the greedy pick
/// once those before it are taken.
pub proof fn lemma_order_at(g: Seq<bool>, us: int, vs: int, rs: Seq<GridRect>, i: int)
    requires
        greedy_order(g, us, vs, rs),
        0 <= i < rs.len(),
    ensures
        greedy_pick(g, us, vs, rs.take(i), rs[i]),
{
    reveal(greedy_order);
}

/// Two rectangles that are both the greedy pick once `prev` is taken, and
/// both lie on set cells outside `prev`, are the same rectangle.
proof fn lemma_pick_unique(g: Seq<bool>, us: int, vs: int, prev: Seq<GridRect>, r1: GridRect, r2: GridRect)
    requires
        greedy_pick(g, us, vs, prev, r1),
        greedy_pick(g, us, vs, prev, r2),
        rect_ok(g, us, vs, r1),
        rect_ok(g, us, vs, r2),
        forall|a: int, b: int| #[trigger] rect_has(r1, a, b) ==> !covered(prev, a, b),
        forall|a: int, b: int| #[trigger] rect_has(r2, a, b) ==> !covered(prev, a, b),
    ensures
        r1 == r2,
{
    if before(r1.u as int, r1.v as int, r2.u as int, r2.v as int) {
        assert(!free_cell(g, us, vs, prev, r1.u as int, r1.v as int));
    }
    if before(r2.u as int, r2.v as int, r1.u as int, r1.v as int) {
        assert(!free_cell(g, us, vs, prev, r2.u as int, r2.v as int));
    }
    assert(r1.u == r2.u && r1.v == r2.v);
    if r1.w < r2.w {
        assert(rect_has(r2, r1.u + r1.w, r1.v as int));
        assert(free_cell(g, us, vs, prev, r1.u + r1.w, r1.v as int));
    }
    if r2.w < r1.w {
        assert(rect_has(r1, r2.u + r2.w, r2.v as int));
        assert(free_cell(g, us, vs, prev, r2.u + r2.w, r2.v as int));
    }
    assert(r1.w == r2.w);
    if r1.h < r2.h {
        let k = choose|k: int|
            0 <= k < r1.w && !#[trigger] free_cell(g, us, vs, prev, r1.u + k, r1.v + r1.h);
        assert(rect_has(r2, r1.u + k, r1.v + r1.h));
    }
    if r2.h < r1.h {
        let k = choose|k: int|
            0 <= k < r2.w && !#[trigger] free_cell(g, us, vs, prev, r2.u + k, r2.v + r2.h);
        assert(rect_has(r1, r2.u + k, r2.v + r2.h));
    }
}

/// The rectangle at `i` of a pairwise disjoint sequence shares no cell with
/// those before it.
proof fn lemma_outside_prefix(rs: Seq<GridRect>, i: int)
    requires
        pairwise_disjoint(rs),
        0 <= i < rs.len(),
    ensures
        forall|a: int, b: int| #[trigger] rect_has(rs[i], a, b) ==> !covered(rs.take(i), a, b),
{
    assert forall|a: int, b: int| #[trigger] rect_has(rs[i], a, b) implies !covered(rs.take(i), a, b) by {
        if covered(rs.take(i), a, b) {
            let j = choose|j: int| 0 <= j < rs.take(i).len() && #[trigger] rect_has(rs.take(i)[j], a, b);
            assert(rect_has(rs[j], a, b));
        }
    }
}

/// Greedy tilings of one grid agree on their first `n` rectangles.
proof fn lemma_greedy_prefix(g: Seq<bool>, us: int, vs: int, rs1: Seq<GridRect>, rs2: Seq<GridRect>, n: int)
    requires
        exact_tiling(g, us, vs, rs1),
        greedy_order(g, us, vs, rs1),
        exact_tiling(g, us, vs, rs2),
        greedy_order(g, us, vs, rs2),
        0 <= n <= rs1.len(),
        n <= rs2.len(),
    ensures
        rs1.take(n) == rs2.take(n),
    decreases n,
{
    if n > 0 {
        lemma_greedy_prefix(g, us, vs, rs1, rs2, n - 1);
        let prev = rs1.take(n - 1);
        assert(rs2.take(n - 1) == prev);
        lemma_outside_prefix(rs1, n - 1);
        lemma_outside_prefix(rs2, n - 1);
        lemma_order_at(g, us, vs, rs1, n - 1);
        lemma_order_at(g, us, vs, rs2, n - 1);
        lemma_pick_unique(g, us, vs, prev, rs1[n - 1], rs2[n - 1]);
        assert(rs1.take(n) =~= prev.push(rs1[n - 1]));
        assert(rs2.take(n) =~= prev.push(rs2[n - 1]));
    }
}

/// A greedy sequence does not go on past a prefix that already tiles the
/// grid.
proof fn lemma_no_pick_after_tiling(g: Seq<bool>, us: int, vs: int, short: Seq<GridRect>, long: Seq<GridRect>)
    requires
        exact_tiling(g, us, vs, short),
        greedy_order(g, us, vs, long),
        short.len() < long.len(),
    ensures
        long.take(short.len() as int) != short,
{
    let n = short.len() as int;
    if long.take(n) == short {
        lemma_order_at(g, us, vs, long, n);
        let r = long[n];
        assert(free_cell(g, us, vs, short, r.u as int, r.v as int));
        assert(g[gi(vs, r.u as int, r.v as int)]);
        assert(covered(short, r.u as int, r.v as int));
    }
}

/// The greedy scan determines its result: two sequences of rectangles that
/// both tile the set cells of one grid exactly and are both in greedy order
/// are equal.
pub proof fn law_greedy_tiling_unique(g: Seq<bool>, us: int, vs: int, rs1: Seq<GridRect>, rs2: Seq<GridRect>)
    requires
        exact_tiling(g, us, vs, rs1),
        greedy_order(g, us, vs, rs1),
        exact_tiling(g, us, vs, rs2),
        greedy_order(g, us, vs, rs2),
    ensures
        rs1 == rs2,
{
    if rs1.len() < rs2.len() {
        lemma_greedy_prefix(g, us, vs, rs1, rs2, rs1.len() as int);
        assert(rs1.take(rs1.len() as int) =~= rs1);
        lemma_no_pick_after_tiling(g, us, vs, rs1, rs2);
    } else if rs2.len() < rs1.len() {
        lemma_greedy_prefix(g, us, vs, rs1, rs2, rs2.len() as int);
        assert(rs2.take(rs2.len() as int) =~= rs2);
        lemma_no_pick_after_tiling(g, us, vs, rs2, rs1);
    } else {
        lemma_greedy_prefix(g, us, vs, rs1, rs2, rs1.len() as int);
        assert(rs1.take(rs1.len() as int) =~= rs1);
        assert(rs2.take(rs2.len() as int) =~= rs2);
    }
}

/// Sets every entry of `flags` to `false`.
pub fn clear_flags(flags: &mut Vec<bool>)
    ensures
        final(flags)@.len() == old(flags)@.len(),
        forall|i: int| 0 <= i < final(flags)@.len() ==> !#[trigger] final(flags)@[i],
{
    let n = flags.len();
    let mut i: usize = 0;
    while i < n
        invariant
            n == flags@.len(),
            0 <= i <= n,
            forall|j: int| 0 <= j < i ==> !#[trigger] flags@[j],
        decreases n - i,
    {
        flags.set(i, false);
        i = i + 1;
    }
}

/// Greedily merges the set cells of the `u_size` x `v_size` grid `visible`
/// (flat, `v` fastest) into rectangles: cells are scanned with `u` outer and
/// `v` inner; each set cell not yet taken starts a rectangle that grows along
/// `u` while cells are set and free, then along `v` while whole rows are.
/// `visited` is scratch space of the same size, all clear on entry.
pub fn greedy_rects(visible: &Vec<bool>, visited: &mut Vec<bool>, u_size: usize, v_size: usize) -> (r:
    Vec<GridRect>)
    requires
        visible@.len() == u_size * v_size,
        old(visited)@.len() == u_size * v_size,
        u_size * v_size <= usize::MAX,
        forall|i: int| 0 <= i < old(visited)@.len() ==> !#[trigger] old(visited)@[i],
    ensures
        final(visited)@.len() == u_size * v_size,
        exact_tiling(visible@, u_size as int, v_size as int, r@),
        greedy_order(visible@, u_size as int, v_size as int, r@),
        r@.len() <= u_size * v_size,
{
    let ghost g = visible@;
    let ghost us = u_size as int;
    let ghost vs = v_size as int;
    let mut rects: Vec<GridRect> = Vec::new();
    proof {
        reveal(greedy_order);
        assert forall|a: int, b: int| 0 <= a < us && 0 <= b < vs implies !(
        #[trigger] visited@[gi(vs, a, b)]) by {
            lemma_gi(us, vs, a, b);
        }
    }
    let mut u: usize = 0;
    while u < u_size
        invariant
            g == visible@,
            visible@.len() == us * vs,
            us * vs <= usize::MAX,
            us == u_size as int,
            vs == v_size as int,
            visited@.len() == us * vs,
            0 <= u <= u_size,
            forall|i: int| 0 <= i < rects@.len() ==> rect_ok(g, us, vs, #[trigger] rects@[i]),
            pairwise_disjoint(rects@),
            greedy_order(g, us, vs, rects@),
            forall|a: int, b: int|
                0 <= a < us && 0 <= b < vs ==> (#[trigger] visited@[gi(vs, a, b)] <==> covered(
                    rects@,
                    a,
                    b,
                )),
            forall|a: int, b: int|
                0 <= a < u && 0 <= b < vs && #[trigger] g[gi(vs, a, b)] ==> covered(rects@, a, b),
            rects@.len() <= u * vs,
        decreases u_size - u,
    {
        let mut v: usize = 0;
        while v < v_size
            invariant
                g == visible@,
                visible@.len() == us * vs,
                us * vs <= usize::MAX,
                us == u_size as int,
                vs == v_size as int,
                visited@.len() == us * vs,
                0 <= u < u_size,
                0 <= v <= v_size,
                forall|i: int| 0 <= i < rects@.len() ==> rect_ok(g, us, vs, #[trigger] rects@[i]),
                pairwise_disjoint(rects@),
                greedy_order(g, us, vs, rects@),
                forall|a: int, b: int|
                    0 <= a < us && 0 <= b < vs ==> (#[trigger] visited@[gi(vs, a, b)] <==> covered(
                        rects@,
                        a,
                        b,
                    )),
                forall|a: int, b: int|
                    0 <= a < us && 0 <= b < vs && before(a, b, u as int, v as int)
                        && #[trigger] g[gi(vs, a, b)] ==> covered(rects@, a, b),
                rects@.len() <= u * vs + v,
            decreases v_size - v,
        {
            proof {
                lemma_gi(us, vs, u as int, v as int);
            }
            let c = u * v_size + v;
            if visible[c] && !visited[c] {
                let ghost old_rects = rects@;
                let ghost old_visited = visited@;
                let rect = grow_rect(visible, visited, u_size, v_size, u, v);
                rects.push(rect);
                proof {
                    let rs = rects@;
                    assert(rs =~= old_rects.push(rect));
                    lemma_gi(us, vs, u as int, v as int);
                    assert forall|a: int, b: int|
                        before(a, b, u as int, v as int) implies !#[trigger] free_cell(g, us, vs, old_rects, a, b) by {
                        if 0 <= a < us && 0 <= b < vs && g[gi(vs, a, b)] {
                            assert(covered(old_rects, a, b));
                        }
                    }
                    if rect.u + rect.w < us {
                        lemma_gi(us, vs, rect.u + rect.w, v as int);
                        assert(old_visited[gi(vs, rect.u + rect.w, v as int)] <==> covered(old_rects, rect.u + rect.w, v as int));
                    }
                    if rect.v + rect.h < vs {
                        let k = choose|k: int|
                            0 <= k < rect.w && !(#[trigger] visible@[gi(vs, rect.u + k, rect.v + rect.h)]
                                && !old_visited[gi(vs, rect.u + k, rect.v + rect.h)]);
                        lemma_gi(us, vs, rect.u + k, rect.v + rect.h);
                        assert(old_visited[gi(vs, rect.u + k, rect.v + rect.h)] <==> covered(old_rects, rect.u + k, rect.v + rect.h));
                        assert(!free_cell(g, us, vs, old_rects, rect.u + k, rect.v + rect.h));
                    }
                    assert(greedy_pick(g, us, vs, old_rects, rect));
                    reveal(greedy_order);
                    assert forall|i: int| 0 <= i < rs.len() implies greedy_pick(g, us, vs, rs.take(i), #[trigger] rs[i]) by {
                        if i < old_rects.len() {
                            assert(rs.take(i) =~= old_rects.take(i));
                            assert(rs[i] == old_rects[i]);
                        } else {
                            assert(rs.take(i) =~= old_rects);
                        }
                    }
                    assert forall|i: int| 0 <= i < rs.len() implies rect_ok(g, us, vs, #[trigger] rs[i]) by {
                        if i < old_rects.len() {
                            assert(rs[i] == old_rects[i]);
                        }
                    }
                    assert forall|i: int, j: int, a: int, b: int|
                        0 <= i < j < rs.len() && #[trigger] rect_has(rs[i], a, b) implies !#[trigger] rect_has(rs[j], a, b) by {
                        assert(rs[i] == old_rects[i]);
                        if j < old_rects.len() {
                            assert(rs[j] == old_rects[j]);
                        } else {
                            if rect_has(rs[j], a, b) {
                                assert(rect_ok(g, us, vs, old_rects[i]));
                                assert(covered(old_rects, a, b));
                                assert(old_visited[gi(vs, a, b)]);
                            }
                        }
                    }
                    assert forall|a: int, b: int|
                        0 <= a < us && 0 <= b < vs implies (#[trigger] visited@[gi(vs, a, b)] <==> covered(rs, a, b)) by {
                        if covered(rs, a, b) {
                            let i = choose|i: int| 0 <= i < rs.len() && #[trigger] rect_has(rs[i], a, b);
                            if i < old_rects.len() {
                                assert(rect_has(old_rects[i], a, b));
                            }
                        }
                        if covered(old_rects, a, b) {
                            let i = choose|i: int| 0 <= i < old_rects.len() && #[trigger] rect_has(old_rects[i], a, b);
                            assert(rect_has(rs[i], a, b));
                        }
                        if rect_has(rect, a, b) {
                            assert(rect_has(rs[rs.len() - 1], a, b));
                        }
                    }
                    assert(rect_has(rs[rs.len() - 1], u as int, v as int));
                    assert forall|a: int, b: int|
                        0 <= a < us && 0 <= b < vs && before(a, b, u as int, v as int + 1)
                            && #[trigger] g[gi(vs, a, b)] implies covered(rs, a, b) by {
                        if a == u && b == v {
                        } else {
                            assert(covered(old_rects, a, b));
                            let i = choose|i: int| 0 <= i < old_rects.len() && #[trigger] rect_has(old_rects[i], a, b);
                            assert(rect_has(rs[i], a, b));
                        }
                    }
                }
            } else {
                proof {
                    if visible@[c as int] {
                        assert(visited@[gi(vs, u as int, v as int)]);
                    }
                }
            }
            v = v + 1;
        }
        proof {
            assert((u + 1) * vs == u * vs + vs) by (nonlinear_arith);
        }
        u = u + 1;
    }
    proof {
        assert(u_size * v_size == us * vs);
    }
    rects
}

/// Grows the rectangle that starts at the free set cell `(u, v)`, marks its
/// cells in `visited`, and returns it.
#[verifier::spinoff_prover]
fn grow_rect(
    visible: &Vec<bool>,
    visited: &mut Vec<bool>,
    u_size: usize,
    v_size: usize,
    u: usize,
    v: usize,
) -> (r: GridRect)
    requires
        visible@.len() == u_size * v_size,
        old(visited)@.len() == u_size * v_size,
        u_size * v_size <= usize::MAX,
        u < u_size,
        v < v_size,
        visible@[gi(v_size as int, u as int, v as int)],
        !old(visited)@[gi(v_size as int, u as int, v as int)],
    ensures
        final(visited)@.len() == u_size * v_size,
        r.u == u && r.v == v,
        rect_ok(visible@, u_size as int, v_size as int, r),
        forall|a: int, b: int|
            #[trigger] rect_has(r, a, b) ==> !old(visited)@[gi(v_size as int, a, b)],
        forall|a: int, b: int|
            0 <= a < u_size && 0 <= b < v_size ==> (#[trigger] final(visited)@[gi(
                v_size as int,
                a,
                b,
            )] <==> (old(visited)@[gi(v_size as int, a, b)] || rect_has(r, a, b))),
        r.u + r.w == u_size || !(visible@[gi(v_size as int, r.u + r.w, r.v as int)]
            && !old(visited)@[gi(v_size as int, r.u + r.w, r.v as int)]),
        r.v + r.h == v_size || exists|k: int|
            0 <= k < r.w && !(#[trigger] visible@[gi(v_size as int, r.u + k, r.v + r.h)]
                && !old(visited)@[gi(v_size as int, r.u + k, r.v + r.h)]),
{
    let ghost vs = v_size as int;
    let ghost us = u_size as int;
    let ghost v0 = visited@;
    let mut width: usize = 1;
    while u + width < u_size
        invariant
            1 <= width,
            u + width <= u_size,
            visible@.len() == us * vs,
            vs == v_size as int,
            us == u_size as int,
            us * vs <= usize::MAX,
            visited@ == v0,
            v0.len() == us * vs,
            u < u_size,
            v < v_size,
            forall|k: int|
                0 <= k < width ==> #[trigger] visible@[gi(vs, u + k, v as int)] && !v0[gi(
                    vs,
                    u + k,
                    v as int,
                )],
        ensures
            u + width == u_size || !(visible@[gi(vs, u + width, v as int)] && !v0[gi(
                vs,
                u + width,
                v as int,
            )]),
        decreases u_size - u - width,
    {
        proof {
            lemma_gi(us, vs, u + width, v as int);
        }
        let c = (u + width) * v_size + v;
        if !(visible[c] && !visited[c]) {
            break;
        }
        width = width + 1;
    }
    let mut height: usize = 1;
    let mut growing = true;
    while growing && v + height < v_size
        invariant
            1 <= width,
            u + width <= u_size,
            1 <= height,
            v + height <= v_size,
            visible@.len() == us * vs,
            vs == v_size as int,
            us == u_size as int,
            us * vs <= usize::MAX,
            visited@ == v0,
            v0.len() == us * vs,
            u < u_size,
            v < v_size,
            forall|k: int, m: int|
                0 <= k < width && 0 <= m < height ==> #[trigger] visible@[gi(
                    vs,
                    u + k,
                    v + m,
                )] && !v0[gi(vs, u + k, v + m)],
            !growing ==> v + height < v_size && exists|k: int|
                0 <= k < width && !(#[trigger] visible@[gi(vs, u + k, v + height)] && !v0[gi(
                    vs,
                    u + k,
                    v + height,
                )]),
        decreases v_size - v - height + (if growing { 1int } else { 0int }),
    {
        let mut k: usize = 0;
        let mut row_ok = true;
        while k < width && row_ok
            invariant
                1 <= width,
                u + width <= u_size,
                v + height < v_size,
                0 <= k <= width,
                visible@.len() == us * vs,
                vs == v_size as int,
                us == u_size as int,
                us * vs <= usize::MAX,
                visited@ == v0,
                v0.len() == us * vs,
                row_ok ==> forall|j: int|
                    0 <= j < k ==> #[trigger] visible@[gi(vs, u + j, v + height)] && !v0[gi(
                        vs,
                        u + j,
                        v + height,
                    )],
                !row_ok ==> k < width && !(visible@[gi(vs, u + k, v + height)] && !v0[gi(
                    vs,
                    u + k,
                    v + height,
                )]),
                forall|k2: int, m: int|
                    0 <= k2 < width && 0 <= m < height ==> #[trigger] visible@[gi(
                        vs,
                        u + k2,
                        v + m,
                    )] && !v0[gi(vs, u + k2, v + m)],
            decreases width - k + (if row_ok { 1int } else { 0int }),
        {
            proof {
                lemma_gi(us, vs, u + k, v + height);
            }
            let c = (u + k) * v_size + v + height;
            assert(visited@ == v0);
            if !visible[c] || visited[c] {
                row_ok = false;
            } else {
                let ghost k0 = k as int;
                assert(c == gi(vs, u + k0, v + height));
                assert(visible@[c as int] && !v0[c as int]);
                assert forall|j: int|
                    0 <= j < k0 + 1 implies #[trigger] visible@[gi(vs, u + j, v + height)] && !v0[gi(
                        vs,
                        u + j,
                        v + height,
                    )] by {
                    if j < k0 {
                        assert(visible@[gi(vs, u + j, v + height)]);
                    }
                }
                k = k + 1;
            }
        }
        if row_ok {
            assert forall|k2: int, m: int|
                0 <= k2 < width && 0 <= m < height + 1 implies #[trigger] visible@[gi(
                    vs,
                    u + k2,
                    v + m,
                )] && !v0[gi(vs, u + k2, v + m)] by {
                if m == height {
                    assert(visible@[gi(vs, u + k2, v + height)]);
                }
            }
            height = height + 1;
        } else {
            let ghost kw = k as int;
            assert(0 <= kw < width && !(visible@[gi(vs, u + kw, v + height)] && !v0[gi(
                vs,
                u + kw,
                v + height,
            )]));
            growing = false;
        }
    }
    let rect = GridRect { u, v, w: width, h: height };
    assert(v + height < v_size ==> exists|k: int|
        0 <= k < width && !(#[trigger] visible@[gi(vs, u + k, v + height)] && !v0[gi(
            vs,
            u + k,
            v + height,
        )]));
    let mut a: usize = 0;
    while a < width
        invariant
            1 <= width,
            u + width <= u_size,
            1 <= height,
            v + height <= v_size,
            0 <= a <= width,
            visited@.len() == us * vs,
            vs == v_size as int,
            us == u_size as int,
            us * vs <= usize::MAX,
            forall|x: int, y: int|
                0 <= x < us && 0 <= y < vs ==> (#[trigger] visited@[gi(vs, x, y)] <==> (v0[gi(
                    vs,
                    x,
                    y,
                )] || (u <= x < u + a && v <= y < v + height))),
        decreases width - a,
    {
        let mut b: usize = 0;
        while b < height
            invariant
                1 <= width,
                u + width <= u_size,
                1 <= height,
                v + height <= v_size,
                0 <= a < width,
                0 <= b <= height,
                visited@.len() == us * vs,
                vs == v_size as int,
                us == u_size as int,
                us * vs <= usize::MAX,
                forall|x: int, y: int|
                    0 <= x < us && 0 <= y < vs ==> (#[trigger] visited@[gi(vs, x, y)] <==> (v0[gi(
                        vs,
                        x,
                        y,
                    )] || (u <= x < u + a && v <= y < v + height) || (x == u + a && v <= y < v
                        + b))),
            decreases height - b,
        {
            proof {
                lemma_gi(us, vs, (u + a) as int, (v + b) as int);
            }
            let c = (u + a) * v_size + v + b;
            visited.set(c, true);
            proof {
                assert forall|x: int, y: int| 0 <= x < us && 0 <= y < vs implies (
                #[trigger] visited@[gi(vs, x, y)] <==> (v0[gi(vs, x, y)] || (u <= x < u + a && v
                    <= y < v + height) || (x == u + a && v <= y < v + b + 1))) by {
                    lemma_gi(us, vs, x, y);
                    if gi(vs, x, y) == c {
                        lemma_gi_inj(vs, x, y, (u + a) as int, (v + b) as int);
                    }
                }
            }
            b = b + 1;
        }
        a = a + 1;
    }
    proof {
        assert forall|x: int, y: int| #[trigger] rect_has(rect, x, y) implies visible@[gi(vs, x, y)]
            && !v0[gi(vs, x, y)] by {
            assert(visible@[gi(vs, u + (x - u), v + (y - v))]);
        }
        if v + height < v_size {
            let k = choose|k: int|
                0 <= k < width && !(#[trigger] visible@[gi(vs, u + k, v + height)] && !v0[gi(
                    vs,
                    u + k,
                    v + height,
                )]);
            assert(!(visible@[gi(v_size as int, rect.u + k, rect.v + rect.h)] && !old(
                visited,
            )@[gi(v_size as int, rect.u + k, rect.v + rect.h)]));
        }
        assert(rect.v + rect.h == v_size || exists|k: int|
            0 <= k < rect.w && !(#[trigger] visible@[gi(v_size as int, rect.u + k, rect.v + rect.h)]
                && !old(visited)@[gi(v_size as int, rect.u + k, rect.v + rect.h)]));
    }
    rect
}

} // verus!
