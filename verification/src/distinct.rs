//! Facts about sequences without repeats, used by the registries that keep
//! their members in vectors.
use vstd::prelude::*;

verus! {

/// The members of `s.push(p)` are those of `s` and `p`.
pub proof fn lemma_push_contains<A>(s: Seq<A>, p: A)
    ensures
        forall|x: A| #[trigger] s.push(p).contains(x) <==> (s.contains(x) || x == p),
{
    let t = s.push(p);
    assert forall|x: A| #[trigger] t.contains(x) <==> (s.contains(x) || x == p) by {
        if t.contains(x) {
            let j = choose|j: int| 0 <= j < t.len() && t[j] == x;
            if j < s.len() {
                assert(s[j] == x);
            }
        }
        if s.contains(x) {
            let j = choose|j: int| 0 <= j < s.len() && s[j] == x;
            assert(t[j] == x);
        }
        if x == p {
            assert(t[s.len() as int] == p);
        }
    }
}

/// Appending a new member keeps a sequence free of repeats.
pub proof fn lemma_push_fresh<A>(s: Seq<A>, p: A)
    requires
        s.no_duplicates(),
        !s.contains(p),
    ensures
        s.push(p).no_duplicates(),
        forall|x: A| #[trigger] s.push(p).contains(x) <==> (s.contains(x) || x == p),
        s.push(p).to_set() == s.to_set().insert(p),
{
    lemma_push_contains(s, p);
    let t = s.push(p);
    assert forall|a: int, b: int| 0 <= a < t.len() && 0 <= b < t.len() && a != b implies t[a]
        != t[b] by {
        if a < s.len() && b < s.len() {
            assert(t[a] == s[a] && t[b] == s[b]);
        } else if a < s.len() {
            assert(t[a] == s[a]);
        } else {
            assert(t[b] == s[b]);
        }
    }
    assert(t.to_set() =~= s.to_set().insert(p));
}

/// Removing entry `i` of a sequence without repeats drops exactly that
/// member.
pub proof fn lemma_remove_distinct<A>(s: Seq<A>, i: int)
    requires
        s.no_duplicates(),
        0 <= i < s.len(),
    ensures
        s.remove(i).no_duplicates(),
        forall|x: A| #[trigger] s.remove(i).contains(x) <==> (s.contains(x) && x != s[i]),
        s.remove(i).to_set() == s.to_set().remove(s[i]),
{
    let t = s.remove(i);
    assert forall|a: int, b: int| 0 <= a < t.len() && 0 <= b < t.len() && a != b implies t[a]
        != t[b] by {
        let a0 = if a < i { a } else { a + 1 };
        let b0 = if b < i { b } else { b + 1 };
        assert(t[a] == s[a0] && t[b] == s[b0]);
    }
    assert forall|x: A| #[trigger] t.contains(x) <==> (s.contains(x) && x != s[i]) by {
        if t.contains(x) {
            let a = choose|a: int| 0 <= a < t.len() && t[a] == x;
            let a0 = if a < i { a } else { a + 1 };
            assert(s[a0] == x);
        }
        if s.contains(x) && x != s[i] {
            let a0 = choose|a: int| 0 <= a < s.len() && s[a] == x;
            if a0 < i {
                assert(t[a0] == x);
            } else {
                assert(t[a0 - 1] == x);
            }
        }
    }
    assert(t.to_set() =~= s.to_set().remove(s[i]));
}

/// A member of `a + b` is a member of `a` or of `b`.
pub proof fn lemma_concat_contains<A>(a: Seq<A>, b: Seq<A>, x: A)
    ensures
        (a + b).contains(x) <==> (a.contains(x) || b.contains(x)),
{
    let t = a + b;
    if t.contains(x) {
        let j = choose|j: int| 0 <= j < t.len() && t[j] == x;
        if j < a.len() {
            assert(a[j] == x);
        } else {
            assert(b[j - a.len()] == x);
        }
    }
    if a.contains(x) {
        let j = choose|j: int| 0 <= j < a.len() && a[j] == x;
        assert(t[j] == x);
    }
    if b.contains(x) {
        let j = choose|j: int| 0 <= j < b.len() && b[j] == x;
        assert(t[a.len() + j] == x);
    }
}

} // verus!
