//! A stable insertion sort under a total preorder.

use vstd::prelude::*;

verus! {

/// A total preorder on `T`: `le(a, b)` reads "`a` may come before `b`".
pub trait Preorder<T> {
    spec fn le_spec(&self, a: T, b: T) -> bool;

    fn le(&self, a: &T, b: &T) -> (r: bool)
        ensures
            r == self.le_spec(*a, *b),
    ;

    proof fn lemma_total(&self, a: T, b: T)
        ensures
            self.le_spec(a, b) || self.le_spec(b, a),
    ;

    proof fn lemma_transitive(&self, a: T, b: T, c: T)
        requires
            self.le_spec(a, b),
            self.le_spec(b, c),
        ensures
            self.le_spec(a, c),
    ;
}

/// In a stable sort of `s`, the item at index `i` comes before the one at
/// index `j`: it is ordered before it, or equal to it and earlier.
pub open spec fn precedes<T>(le: spec_fn(T, T) -> bool, s: Seq<T>, i: int, j: int) -> bool {
    le(s[i], s[j]) && (!le(s[j], s[i]) || i < j)
}

/// `p` lists every index of `s` once, in the order of a stable sort.
pub open spec fn is_stable_order<T>(le: spec_fn(T, T) -> bool, s: Seq<T>, p: Seq<int>) -> bool {
    &&& p.len() == s.len()
    &&& forall|a: int| 0 <= a < p.len() ==> 0 <= #[trigger] p[a] < s.len()
    &&& forall|a: int, b: int| 0 <= a < b < p.len() ==> precedes(le, s, #[trigger] p[a], #[trigger] p[b])
}

/// The order of a `Preorder` as a relation.
pub open spec fn le_of<T, C: Preorder<T>>(c: C) -> spec_fn(T, T) -> bool {
    |a: T, b: T| c.le_spec(a, b)
}

/// The items of `s` in the order `p`.
pub open spec fn permuted<T>(s: Seq<T>, p: Seq<int>) -> Seq<T> {
    p.map_values(|k: int| s[k])
}

/// Sorts `v` stably: items ordered before others come first, and equal items
/// keep their order (as `slice::sort_by` with the matching comparison does).
pub fn stable_sort_by<T, C: Preorder<T>>(v: Vec<T>, c: &C) -> (r: Vec<T>)
    ensures
        exists|p: Seq<int>| is_stable_order(le_of(*c), v@, p) && r@ == permuted(v@, p),
{
    let ghost orig = v@;
    let n = v.len();
    let mut rest = v;
    let mut r: Vec<T> = Vec::new();
    let ghost mut idx: Seq<int> = Seq::empty();
    let mut i: usize = 0;
    while i < n
        invariant
            n == orig.len(),
            i <= n,
            rest@ == orig.subrange(i as int, n as int),
            idx.len() == i,
            r@ == permuted(orig, idx),
            forall|a: int| 0 <= a < idx.len() ==> 0 <= #[trigger] idx[a] < i,
            forall|a: int, b: int|
                0 <= a < b < idx.len() ==> precedes(le_of(*c), orig, #[trigger] idx[a], #[trigger] idx[b]),
        decreases n - i,
    {
        let x = rest.remove(0);
        assert(x == orig[i as int]);
        let mut pos: usize = 0;
        while pos < r.len() && c.le(&r[pos], &x)
            invariant
                pos <= r@.len(),
                r@ == permuted(orig, idx),
                forall|k: int| 0 <= k < pos ==> c.le_spec(r@[k], x),
            decreases r@.len() - pos,
        {
            pos += 1;
        }
        proof {
            // Items at `pos` and after are not ordered before `x`.
            assert forall|b: int| pos <= b < r@.len() implies !c.le_spec(#[trigger] r@[b], x) by {
                if c.le_spec(r@[b], x) {
                    assert(idx[pos as int] != idx[b] || pos == b);
                    if pos < b {
                        assert(precedes(le_of(*c), orig, idx[pos as int], idx[b]));
                        c.lemma_transitive(r@[pos as int], r@[b], x);
                    }
                }
            }
        }
        assert forall|k: int| 0 <= k < pos implies c.le_spec(orig[#[trigger] idx[k]], x) by {
            assert(r@[k] == orig[idx[k]]);
        }
        assert forall|k: int| pos <= k < idx.len() implies !c.le_spec(orig[#[trigger] idx[k]], x) by {
            assert(r@[k] == orig[idx[k]]);
        }
        r.insert(pos, x);
        let ghost old_idx = idx;
        proof {
            idx = old_idx.insert(pos as int, i as int);
            assert forall|a: int, b: int| 0 <= a < b < idx.len() implies precedes(
                le_of(*c),
                orig,
                #[trigger] idx[a],
                #[trigger] idx[b],
            ) by {
                if a < pos && b < pos {
                    assert(precedes(le_of(*c), orig, old_idx[a], old_idx[b]));
                } else if a < pos && b == pos {
                    assert(c.le_spec(orig[old_idx[a]], x));
                } else if a < pos && b > pos {
                    assert(precedes(le_of(*c), orig, old_idx[a], old_idx[b - 1]));
                } else if a == pos {
                    assert(!c.le_spec(orig[old_idx[b - 1]], x));
                    c.lemma_total(orig[old_idx[b - 1]], x);
                } else {
                    assert(precedes(le_of(*c), orig, old_idx[a - 1], old_idx[b - 1]));
                }
            }
            assert(r@ =~= permuted(orig, idx));
        }
        i += 1;
        assert(rest@ =~= orig.subrange(i as int, n as int));
    }
    assert(is_stable_order(le_of(*c), orig, idx));
    r
}

} // verus!
