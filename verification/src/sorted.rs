//! Vectors kept in strictly ascending order, which makes them sets.

use vstd::prelude::*;

verus! {

/// A type whose values are placed in a strict total order by a key.
pub trait Ranked: Sized {
    type Key;

    /// What the order looks at.
    spec fn key(&self) -> Self::Key;

    /// `a` comes before `b`.
    spec fn before(a: Self::Key, b: Self::Key) -> bool;

    proof fn irreflexive(a: Self::Key)
        ensures
            !Self::before(a, a),
    ;

    proof fn transitive(a: Self::Key, b: Self::Key, c: Self::Key)
        requires
            Self::before(a, b),
            Self::before(b, c),
        ensures
            Self::before(a, c),
    ;

    proof fn connected(a: Self::Key, b: Self::Key)
        ensures
            Self::before(a, b) || a == b || Self::before(b, a),
    ;

    /// Whether `self` comes before `other`.
    fn comes_before(&self, other: &Self) -> (r: bool)
        ensures
            r == Self::before(self.key(), other.key()),
    ;
}

/// The keys of a sequence of values.
pub open spec fn keys<T: Ranked>(s: Seq<T>) -> Seq<T::Key> {
    s.map_values(|x: T| x.key())
}

/// Each key comes before all the keys behind it.
pub open spec fn ascending<T: Ranked>(k: Seq<T::Key>) -> bool {
    forall|i: int, j: int| 0 <= i < j < k.len() ==> T::before(#[trigger] k[i], #[trigger] k[j])
}

/// Two ascending sequences with the same keys are the same.
pub proof fn ascending_is_unique<T: Ranked>(a: Seq<T::Key>, b: Seq<T::Key>)
    requires
        ascending::<T>(a),
        ascending::<T>(b),
        forall|k: T::Key| #[trigger] a.contains(k) <==> b.contains(k),
    ensures
        a == b,
    decreases a.len(),
{
    if a.len() == 0 {
        if b.len() > 0 {
            assert(b.contains(b[0]));
            assert(!a.contains(b[0]));
        }
        assert(a =~= b);
    } else {
        assert(a.contains(a[0]));
        assert(b.len() > 0);
        let x = a[0];
        let y = b[0];
        assert(b.contains(y));
        assert(a.contains(y));
        let i = choose|i: int| 0 <= i < a.len() && a[i] == y;
        let j = choose|j: int| 0 <= j < b.len() && b[j] == x;
        if x != y {
            assert(T::before(a[0], a[i]));
            assert(T::before(b[0], b[j]));
            T::transitive(x, y, x);
            T::irreflexive(x);
        }
        let p = a.drop_first();
        let q = b.drop_first();
        assert forall|k: T::Key| #[trigger] p.contains(k) <==> q.contains(k) by {
            if p.contains(k) {
                let m = choose|m: int| 0 <= m < p.len() && p[m] == k;
                assert(a[m + 1] == k);
                assert(T::before(a[0], a[m + 1]));
                assert(a.contains(k));
                let n = choose|n: int| 0 <= n < b.len() && b[n] == k;
                if n == 0 {
                    T::irreflexive(x);
                }
                assert(q[n - 1] == k);
            }
            if q.contains(k) {
                let m = choose|m: int| 0 <= m < q.len() && q[m] == k;
                assert(b[m + 1] == k);
                assert(T::before(b[0], b[m + 1]));
                assert(b.contains(k));
                assert(a.contains(k));
                let n = choose|n: int| 0 <= n < a.len() && a[n] == k;
                if n == 0 {
                    T::irreflexive(x);
                }
                assert(p[n - 1] == k);
            }
        }
        ascending_is_unique::<T>(p, q);
        assert(a =~= seq![x] + p);
        assert(b =~= seq![y] + q);
    }
}

/// Puts `x` in its place, unless a value with its key is there already.
pub fn insert_sorted<T: Ranked>(v: &mut Vec<T>, x: T)
    requires
        ascending::<T>(keys(old(v)@)),
    ensures
        ascending::<T>(keys(final(v)@)),
        forall|k: T::Key| #[trigger] keys(final(v)@).contains(k) <==> keys(old(v)@).contains(k) || k
            == x.key(),
        forall|i: int| 0 <= i < final(v)@.len() ==> old(v)@.contains(#[trigger] final(v)@[i])
            || final(v)@[i] == x,
{
    let ghost before = keys(v@);
    let mut i: usize = 0;
    while i < v.len() && v[i].comes_before(&x)
        invariant
            i <= v@.len(),
            v@ == old(v)@,
            before == keys(v@),
            forall|j: int| 0 <= j < i ==> T::before(#[trigger] before[j], x.key()),
        decreases v.len() - i,
    {
        proof {
            assert(before[i as int] == v@[i as int].key());
        }
        i += 1;
    }
    if i < v.len() && !x.comes_before(&v[i]) {
        proof {
            T::connected(v@[i as int].key(), x.key());
            assert(before[i as int] == x.key());
        }
        return;
    }
    let ghost k = x.key();
    v.insert(i, x);
    proof {
        let after = keys(v@);
        assert(after =~= before.insert(i as int, k));
        if i < before.len() {
            assert(before[i as int] == old(v)@[i as int].key());
            T::connected(before[i as int], k);
        }
        assert forall|a: int, b: int| 0 <= a < b < after.len() implies T::before(
            #[trigger] after[a],
            #[trigger] after[b],
        ) by {
            if a < i && b == i {
            } else if a == i {
                assert(after[b] == before[b - 1]);
                if b - 1 > i {
                    assert(T::before(before[i as int], before[b - 1]));
                    T::transitive(k, before[i as int], before[b - 1]);
                }
            } else if a < i {
                if b < i {
                    assert(T::before(before[a], before[b]));
                } else {
                    assert(T::before(before[a], before[b - 1]));
                }
            } else {
                assert(T::before(before[a - 1], before[b - 1]));
            }
        }
        assert forall|q: T::Key| #[trigger] after.contains(q) <==> before.contains(q) || q == k by {
            if before.contains(q) {
                let m = choose|m: int| 0 <= m < before.len() && before[m] == q;
                if m < i {
                    assert(after[m] == q);
                } else {
                    assert(after[m + 1] == q);
                }
            }
            if q == k {
                assert(after[i as int] == q);
            }
            if after.contains(q) {
                let m = choose|m: int| 0 <= m < after.len() && after[m] == q;
                if m < i {
                    assert(before[m] == q);
                } else if m > i {
                    assert(before[m - 1] == q);
                }
            }
        }
        assert forall|m: int| 0 <= m < v@.len() implies old(v)@.contains(#[trigger] v@[m]) || v@[m]
            == x by {
            if m < i {
                assert(v@[m] == old(v)@[m]);
            } else if m > i {
                assert(v@[m] == old(v)@[m - 1]);
            }
        }
    }
}

} // verus!
