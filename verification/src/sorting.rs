//! Sorting that keeps equal items in their order.
use vstd::prelude::*;

verus! {

/// Items with a place in an order. Different items may have the same place.
pub trait Ranked: Sized {
    /// Whether this item's place is not after the other's.
    spec fn le(self, other: Self) -> bool;

    /// Whether this item's place is before the other's.
    fn comes_before(&self, other: &Self) -> (r: bool)
        ensures
            r == !other.le(*self),
    ;

    proof fn le_total(a: Self, b: Self)
        ensures
            a.le(b) || b.le(a),
    ;

    proof fn le_transitive(a: Self, b: Self, c: Self)
        requires
            a.le(b),
            b.le(c),
        ensures
            a.le(c),
    ;
}

/// Whether the items of `s` at `i` and `j` may stand in this order: the one at `i`
/// comes no later, and of two at the same place, the one that was first stays
/// first.
pub open spec fn may_precede<T: Ranked>(s: Seq<T>, i: int, j: int) -> bool {
    s[i].le(s[j]) && (s[j].le(s[i]) ==> i < j)
}

/// Whether `p` lists every position of `s` once, in the order of the items there,
/// and positions of equal items in their own order.
pub open spec fn stable_order<T: Ranked>(s: Seq<T>, p: Seq<int>) -> bool {
    &&& p.len() == s.len()
    &&& forall|i: int| 0 <= i < p.len() ==> 0 <= #[trigger] p[i] < s.len()
    &&& forall|i: int, j: int|
        0 <= i < j < p.len() ==> #[trigger] p[i] != #[trigger] p[j] && may_precede(s, p[i], p[j])
}

/// The items of `s` at the positions `p`.
pub open spec fn gather<T>(s: Seq<T>, p: Seq<int>) -> Seq<T> {
    Seq::new(p.len(), |i: int| s[p[i]])
}

/// Whether `out` holds the items of `s` in their order, equal items as they were.
pub open spec fn is_sorting_of<T: Ranked>(s: Seq<T>, out: Seq<T>) -> bool {
    exists|p: Seq<int>| stable_order(s, p) && out == #[trigger] gather(s, p)
}

/// Whether the first `n` of the positions `p` list those before `n`, in order, and
/// the others stand as they were.
spec fn sorted_upto<T: Ranked>(s: Seq<T>, p: Seq<int>, n: int) -> bool {
    &&& p.len() == s.len()
    &&& 0 <= n <= p.len()
    &&& forall|i: int| 0 <= i < n ==> 0 <= #[trigger] p[i] < n
    &&& forall|i: int| n <= i < p.len() ==> #[trigger] p[i] == i
    &&& forall|i: int, j: int|
        0 <= i < j < n ==> #[trigger] p[i] != #[trigger] p[j] && may_precede(s, p[i], p[j])
}

proof fn lemma_insert_one<T: Ranked>(s: Seq<T>, p: Seq<int>, n: int, at: int)
    requires
        sorted_upto(s, p, n),
        n < p.len(),
        0 <= at <= n,
        at > 0 ==> s[p[at - 1]].le(s[n]),
        forall|k: int| at <= k < n ==> !s[#[trigger] p[k]].le(s[n]),
    ensures
        sorted_upto(s, p.remove(n).insert(at, n), n + 1),
{
    let q = p.remove(n).insert(at, n);
    assert forall|i: int| 0 <= i < q.len() implies q[i] == if i < at {
        p[i]
    } else if i == at {
        n
    } else if i <= n {
        p[i - 1]
    } else {
        p[i]
    } by {}
    assert forall|i: int, j: int| 0 <= i < j < n + 1 implies #[trigger] q[i] != #[trigger] q[j]
        && may_precede(s, q[i], q[j]) by {
        if j == at {
            if i < at - 1 {
                assert(may_precede(s, p[i], p[at - 1]));
                T::le_transitive(s[p[i]], s[p[at - 1]], s[n]);
            }
        } else if i == at {
            let k = j - 1;
            assert(at <= k < n);
            T::le_total(s[p[k]], s[n]);
        } else {
            let x = if i < at {
                i
            } else {
                i - 1
            };
            let y = if j < at {
                j
            } else {
                j - 1
            };
            assert(q[i] == p[x] && q[j] == p[y] && x < y);
            assert(may_precede(s, p[x], p[y]));
        }
    }
}

/// Sorts items; equal ones keep their order.
pub fn sort_stable<T: Ranked>(items: Vec<T>) -> (out: Vec<T>)
    ensures
        is_sorting_of(items@, out@),
{
    let ghost s = items@;
    let mut v: Vec<T> = items;
    let ghost mut p: Seq<int> = Seq::new(s.len(), |i: int| i);
    let mut n: usize = 0;
    assert(v@ =~= gather(s, p));
    while n < v.len()
        invariant
            v@.len() == s.len(),
            v@ == gather(s, p),
            sorted_upto(s, p, n as int),
        decreases v@.len() - n,
    {
        let mut at: usize = n;
        while at > 0 && v[n].comes_before(&v[at - 1])
            invariant
                at <= n < v@.len(),
                v@.len() == s.len(),
                v@ == gather(s, p),
                sorted_upto(s, p, n as int),
                forall|k: int| at <= k < n ==> !s[#[trigger] p[k]].le(s[n as int]),
            decreases at,
        {
            assert(v@[at - 1] == s[p[at - 1]]);
            assert(v@[n as int] == s[n as int]);
            at = at - 1;
        }
        assert(v@[n as int] == s[n as int]);
        assert(at > 0 ==> v@[at - 1] == s[p[at - 1]]);
        proof {
            lemma_insert_one(s, p, n as int, at as int);
        }
        let item: T = v.remove(n);
        v.insert(at, item);
        proof {
            p = p.remove(n as int).insert(at as int, n as int);
            assert(v@ =~= gather(s, p));
        }
        n = n + 1;
    }
    assert(stable_order(s, p));
    v
}

/// As many different positions as there are items are all positions.
proof fn lemma_every_position(p: Seq<int>, k: int)
    requires
        forall|i: int| 0 <= i < p.len() ==> 0 <= #[trigger] p[i] < p.len(),
        forall|i: int, j: int| 0 <= i < j < p.len() ==> #[trigger] p[i] != #[trigger] p[j],
        0 <= k < p.len(),
    ensures
        exists|i: int| 0 <= i < p.len() && #[trigger] p[i] == k,
{
    let n = p.len() as int;
    let all = vstd::set_lib::set_int_range(0, n);
    p.unique_seq_to_set();
    vstd::set_lib::lemma_int_range(0, n);
    vstd::seq_lib::seq_to_set_is_finite(p);
    assert(p.to_set().subset_of(all)) by {
        assert forall|x: int| p.to_set().contains(x) implies all.contains(x) by {
            assert(p.contains(x));
        }
    }
    vstd::set_lib::lemma_subset_equality(p.to_set(), all);
    assert(all.contains(k));
    assert(p.contains(k));
}

/// Sorting keeps every item, brings no other item in, and puts them in order.
pub proof fn sorting_keeps_every_item<T: Ranked>(s: Seq<T>, out: Seq<T>)
    requires
        is_sorting_of(s, out),
    ensures
        out.len() == s.len(),
        forall|i: int| 0 <= i < out.len() ==> s.contains(#[trigger] out[i]),
        forall|i: int| 0 <= i < s.len() ==> out.contains(#[trigger] s[i]),
        forall|i: int, j: int| 0 <= i <= j < out.len() ==> #[trigger] out[i].le(#[trigger] out[j]),
{
    let p = choose|p: Seq<int>| stable_order(s, p) && out == #[trigger] gather(s, p);
    assert forall|i: int| 0 <= i < out.len() implies s.contains(#[trigger] out[i]) by {
        assert(out[i] == s[p[i]]);
    }
    assert forall|i: int| 0 <= i < s.len() implies out.contains(#[trigger] s[i]) by {
        lemma_every_position(p, i);
        let k = choose|k: int| 0 <= k < p.len() && #[trigger] p[k] == i;
        assert(out[k] == s[i]);
    }
    assert forall|i: int, j: int| 0 <= i <= j < out.len() implies #[trigger] out[i].le(
        #[trigger] out[j],
    ) by {
        if i < j {
            assert(may_precede(s, p[i], p[j]));
        } else {
            T::le_total(out[i], out[i]);
        }
    }
}

/// Pairs are ordered by their first number, then by their second.
impl Ranked for (u64, u64) {
    open spec fn le(self, other: Self) -> bool {
        self.0 < other.0 || (self.0 == other.0 && self.1 <= other.1)
    }

    fn comes_before(&self, other: &Self) -> (r: bool) {
        self.0 < other.0 || (self.0 == other.0 && self.1 < other.1)
    }

    proof fn le_total(a: Self, b: Self) {
    }

    proof fn le_transitive(a: Self, b: Self, c: Self) {
    }
}

} // verus!
