//! Sorting with duplicates removed, and stable sorting, over any ranked type.

use crate::text::{chars_of, texts};
use vstd::prelude::*;

verus! {

/// A type whose values are compared through a model by a strict total order.
pub trait Ranked: Sized {
    /// What a value stands for.
    type Model;

    spec fn model(&self) -> Self::Model;

    /// Whether `a` comes strictly before `b`.
    spec fn before(a: Self::Model, b: Self::Model) -> bool;

    proof fn before_is_strict(a: Self::Model)
        ensures
            !Self::before(a, a),
    ;

    proof fn before_is_transitive(a: Self::Model, b: Self::Model, c: Self::Model)
        requires
            Self::before(a, b),
            Self::before(b, c),
        ensures
            Self::before(a, c),
    ;

    proof fn before_is_total(a: Self::Model, b: Self::Model)
        ensures
            Self::before(a, b) || Self::before(b, a) || a == b,
    ;

    fn is_before(&self, other: &Self) -> (r: bool)
        ensures
            r == Self::before(self.model(), other.model()),
    ;
}

impl Ranked for usize {
    type Model = usize;

    open spec fn model(&self) -> usize {
        *self
    }

    open spec fn before(a: usize, b: usize) -> bool {
        a < b
    }

    proof fn before_is_strict(a: usize) {
    }

    proof fn before_is_transitive(a: usize, b: usize, c: usize) {
    }

    proof fn before_is_total(a: usize, b: usize) {
    }

    fn is_before(&self, other: &usize) -> (r: bool) {
        *self < *other
    }
}

impl Ranked for i64 {
    type Model = i64;

    open spec fn model(&self) -> i64 {
        *self
    }

    open spec fn before(a: i64, b: i64) -> bool {
        a < b
    }

    proof fn before_is_strict(a: i64) {
    }

    proof fn before_is_transitive(a: i64, b: i64, c: i64) {
    }

    proof fn before_is_total(a: i64, b: i64) {
    }

    fn is_before(&self, other: &i64) -> (r: bool) {
        *self < *other
    }
}

/// Dictionary order of texts: by the first character that differs, a prefix before its extensions.
pub open spec fn text_before(a: Seq<char>, b: Seq<char>) -> bool
    decreases a.len(),
{
    if b.len() == 0 {
        false
    } else if a.len() == 0 {
        true
    } else if a[0] == b[0] {
        text_before(a.drop_first(), b.drop_first())
    } else {
        a[0] < b[0]
    }
}

proof fn lemma_text_strict(a: Seq<char>)
    ensures
        !text_before(a, a),
    decreases a.len(),
{
    if a.len() > 0 {
        lemma_text_strict(a.drop_first());
    }
}

proof fn lemma_text_transitive(a: Seq<char>, b: Seq<char>, c: Seq<char>)
    requires
        text_before(a, b),
        text_before(b, c),
    ensures
        text_before(a, c),
    decreases a.len(),
{
    if a.len() > 0 && a[0] == b[0] && b[0] == c[0] {
        lemma_text_transitive(a.drop_first(), b.drop_first(), c.drop_first());
    }
}

proof fn lemma_text_total(a: Seq<char>, b: Seq<char>)
    ensures
        text_before(a, b) || text_before(b, a) || a == b,
    decreases a.len(),
{
    if a.len() == 0 || b.len() == 0 {
        if a.len() == b.len() {
            assert(a =~= b);
        }
    } else if a[0] == b[0] {
        lemma_text_total(a.drop_first(), b.drop_first());
        if a.drop_first() == b.drop_first() {
            assert(a =~= seq![a[0]] + a.drop_first());
            assert(b =~= seq![b[0]] + b.drop_first());
        }
    }
}

impl Ranked for String {
    type Model = Seq<char>;

    open spec fn model(&self) -> Seq<char> {
        self@
    }

    open spec fn before(a: Seq<char>, b: Seq<char>) -> bool {
        text_before(a, b)
    }

    proof fn before_is_strict(a: Seq<char>) {
        lemma_text_strict(a);
    }

    proof fn before_is_transitive(a: Seq<char>, b: Seq<char>, c: Seq<char>) {
        lemma_text_transitive(a, b, c);
    }

    proof fn before_is_total(a: Seq<char>, b: Seq<char>) {
        lemma_text_total(a, b);
    }

    fn is_before(&self, other: &String) -> (r: bool) {
        let a = chars_of(self.as_str());
        let b = chars_of(other.as_str());
        let mut i: usize = 0;
        assert(a@.skip(0) =~= a@);
        assert(b@.skip(0) =~= b@);
        while i < a.len() && i < b.len()
            invariant
                i <= a.len(),
                i <= b.len(),
                a@ == self@,
                b@ == other@,
                text_before(a@, b@) == text_before(a@.skip(i as int), b@.skip(i as int)),
            decreases a.len() - i,
        {
            assert(a@.skip(i as int)[0] == a@[i as int]);
            assert(b@.skip(i as int)[0] == b@[i as int]);
            let x = a[i];
            let y = b[i];
            if x != y {
                return x < y;
            }
            assert(a@.skip(i as int).drop_first() =~= a@.skip(i + 1));
            assert(b@.skip(i as int).drop_first() =~= b@.skip(i + 1));
            i += 1;
        }
        i < b.len()
    }
}

impl<A: Ranked, B: Ranked> Ranked for (A, B) {
    type Model = (A::Model, B::Model);

    open spec fn model(&self) -> (A::Model, B::Model) {
        (self.0.model(), self.1.model())
    }

    open spec fn before(a: (A::Model, B::Model), b: (A::Model, B::Model)) -> bool {
        A::before(a.0, b.0) || (a.0 == b.0 && B::before(a.1, b.1))
    }

    proof fn before_is_strict(a: (A::Model, B::Model)) {
        A::before_is_strict(a.0);
        B::before_is_strict(a.1);
    }

    proof fn before_is_transitive(
        a: (A::Model, B::Model),
        b: (A::Model, B::Model),
        c: (A::Model, B::Model),
    ) {
        if A::before(a.0, b.0) && A::before(b.0, c.0) {
            A::before_is_transitive(a.0, b.0, c.0);
        }
        if B::before(a.1, b.1) && B::before(b.1, c.1) {
            B::before_is_transitive(a.1, b.1, c.1);
        }
    }

    proof fn before_is_total(a: (A::Model, B::Model), b: (A::Model, B::Model)) {
        A::before_is_total(a.0, b.0);
        B::before_is_total(a.1, b.1);
    }

    fn is_before(&self, other: &(A, B)) -> (r: bool) {
        proof {
            A::before_is_total(self.0.model(), other.0.model());
            A::before_is_strict(self.0.model());
        }
        if self.0.is_before(&other.0) {
            true
        } else if other.0.is_before(&self.0) {
            proof {
                if A::before(self.0.model(), other.0.model()) {
                    A::before_is_transitive(self.0.model(), other.0.model(), self.0.model());
                }
            }
            false
        } else {
            self.1.is_before(&other.1)
        }
    }
}

/// The models of a list.
pub open spec fn models<T: Ranked>(v: Seq<T>) -> Seq<T::Model> {
    v.map_values(|x: T| x.model())
}

/// Whether each element comes strictly before the next ones.
pub open spec fn ascending<T: Ranked>(v: Seq<T::Model>) -> bool {
    forall|i: int, j: int| 0 <= i < j < v.len() ==> T::before(#[trigger] v[i], #[trigger] v[j])
}

/// Sorts in ascending order and keeps one of each value.
pub fn sorted_distinct<T: Ranked>(items: Vec<T>) -> (r: Vec<T>)
    ensures
        ascending::<T>(models(r@)),
        models(r@).to_set() == models(items@).to_set(),
{
    let ghost all = items@;
    let mut rest = items;
    let mut out: Vec<T> = Vec::new();
    assert(models(all.skip(all.len() as int)) =~= Seq::empty());
    while rest.len() > 0
        invariant
            rest@.len() <= all.len(),
            rest@ == all.take(rest@.len() as int),
            ascending::<T>(models(out@)),
            models(out@).to_set() == models(all.skip(rest@.len() as int)).to_set(),
        decreases rest.len(),
    {
        let ghost n = rest@.len() as int;
        let x = rest.pop().unwrap();
        assert(x == all[n - 1]);
        let ghost before_out = out@;
        insert_distinct(&mut out, x);
        proof {
            assert(rest@ =~= all.take(n - 1));
            let m1 = models(all.skip(n - 1));
            let m0 = models(all.skip(n));
            assert(m1 =~= seq![x.model()] + m0);
            assert forall|y: T::Model| m1.to_set().contains(y) == models(out@).to_set().contains(
                y,
            ) by {
                assert(m1.contains(y) <==> (y == x.model() || m0.contains(y))) by {
                    if m1.contains(y) {
                        let k = choose|k: int| 0 <= k < m1.len() && m1[k] == y;
                        if k > 0 {
                            assert(m0[k - 1] == y);
                        }
                    }
                    if y == x.model() {
                        assert(m1[0] == y);
                    }
                    if m0.contains(y) {
                        let k = choose|k: int| 0 <= k < m0.len() && m0[k] == y;
                        assert(m1[k + 1] == y);
                    }
                }
                assert(m0.to_set().contains(y) == models(before_out).to_set().contains(y));
            }
            assert(models(out@).to_set() =~= m1.to_set());
        }
    }
    assert(all.skip(0) =~= all);
    out
}

/// Inserts into an ascending list at its place, unless an equal value is there already.
fn insert_distinct<T: Ranked>(out: &mut Vec<T>, x: T)
    requires
        ascending::<T>(models(old(out)@)),
    ensures
        ascending::<T>(models(final(out)@)),
        forall|y: T::Model|
            models(final(out)@).contains(y) <==> (y == x.model() || models(old(out)@).contains(y)),
{
    let ghost start = out@;
    let mut at: usize = 0;
    while at < out.len() && out[at].is_before(&x)
        invariant
            at <= out.len(),
            out@ == start,
            forall|i: int| 0 <= i < at ==> T::before(#[trigger] models(start)[i], x.model()),
        decreases out.len() - at,
    {
        at += 1;
    }
    if at < out.len() && !x.is_before(&out[at]) {
        proof {
            T::before_is_total(start[at as int].model(), x.model());
            assert(models(start)[at as int] == x.model());
            assert(models(start).contains(x.model()));
        }
        return;
    }
    proof {
        assert forall|j: int| at <= j < start.len() implies T::before(
            x.model(),
            #[trigger] models(start)[j],
        ) by {
            if j > at {
                assert(T::before(models(start)[at as int], models(start)[j]));
                T::before_is_transitive(x.model(), models(start)[at as int], models(start)[j]);
            }
        }
    }
    let ghost xm = x.model();
    out.insert(at, x);
    proof {
        let m = models(out@);
        assert(m =~= models(start).insert(at as int, xm));
        assert forall|i: int, j: int| 0 <= i < j < m.len() implies T::before(
            #[trigger] m[i],
            #[trigger] m[j],
        ) by {
            let i0 = if i < at { i } else { i - 1 };
            let j0 = if j < at { j } else { j - 1 };
            if i != at && j != at {
                assert(T::before(models(start)[i0], models(start)[j0]));
            }
        }
        assert forall|y: T::Model| m.contains(y) <==> (y == xm || models(start).contains(y)) by {
            if m.contains(y) {
                let k = choose|k: int| 0 <= k < m.len() && m[k] == y;
                if k != at {
                    assert(models(start)[if k < at { k } else { k - 1 }] == y);
                }
            }
            if y == xm {
                assert(m[at as int] == y);
            }
            if models(start).contains(y) {
                let k = choose|k: int| 0 <= k < start.len() && models(start)[k] == y;
                assert(m[if k < at { k } else { k + 1 }] == y);
            }
        }
    }
}

/// Whether `r` lists the positions `0..n` in the stable order of `keys`: every position once, no
/// later key before an earlier one, and positions of equal keys in their first order.
pub open spec fn stable_order_of<K: Ranked>(keys: Seq<K::Model>, r: Seq<usize>) -> bool {
    &&& r.len() == keys.len()
    &&& forall|i: int| 0 <= i < r.len() ==> (#[trigger] r[i]) < keys.len()
    &&& r.no_duplicates()
    &&& forall|i: int, j: int|
        0 <= i < j < r.len() ==> K::before(keys[(#[trigger] r[i]) as int], keys[(
        #[trigger] r[j]) as int]) || (keys[r[i] as int] == keys[r[j] as int] && r[i] < r[j])
}

/// The positions of `keys` in stable ascending order.
pub fn stable_order<K: Ranked>(keys: &Vec<K>) -> (r: Vec<usize>)
    ensures
        stable_order_of::<K>(models(keys@), r@),
{
    let mut out: Vec<usize> = Vec::new();
    let mut i: usize = 0;
    let ghost m = models(keys@);
    while i < keys.len()
        invariant
            i <= keys.len(),
            m == models(keys@),
            out.len() == i,
            forall|k: int| 0 <= k < out.len() ==> (#[trigger] out@[k]) < i,
            out@.no_duplicates(),
            forall|a: int, b: int|
                0 <= a < b < out.len() ==> K::before(m[(#[trigger] out@[a]) as int], m[(
                #[trigger] out@[b]) as int]) || (m[out@[a] as int] == m[out@[b] as int] && out@[a]
                    < out@[b]),
        decreases keys.len() - i,
    {
        let ghost start = out@;
        let mut at: usize = out.len();
        while at > 0 && keys[i].is_before(&keys[out[at - 1]])
            invariant
                at <= out.len(),
                out@ == start,
                i < keys.len(),
                m == models(keys@),
                out.len() == i,
                forall|k: int| 0 <= k < out.len() ==> (#[trigger] out@[k]) < i,
                forall|k: int|
                    at <= k < out.len() ==> K::before(
                        m[i as int],
                        m[(#[trigger] out@[k]) as int],
                    ),
            decreases at,
        {
            at -= 1;
        }
        proof {
            assert forall|k: int| 0 <= k < at implies K::before(
                m[(#[trigger] start[k]) as int],
                m[i as int],
            ) || m[start[k] as int] == m[i as int] by {
                let last = start[at - 1] as int;
                K::before_is_total(m[last], m[i as int]);
                assert(!K::before(m[i as int], m[last]));
                if k < at - 1 {
                    if K::before(m[start[k] as int], m[last]) && K::before(m[last], m[i as int]) {
                        K::before_is_transitive(m[start[k] as int], m[last], m[i as int]);
                    }
                }
            }
        }
        out.insert(at, i);
        proof {
            assert forall|a: int, b: int| 0 <= a < b < out@.len() implies K::before(
                m[(#[trigger] out@[a]) as int],
                m[(#[trigger] out@[b]) as int],
            ) || (m[out@[a] as int] == m[out@[b] as int] && out@[a] < out@[b]) by {
                let a0 = if a < at { a } else { a - 1 };
                let b0 = if b < at { b } else { b - 1 };
                if a != at {
                    assert(out@[a] == start[a0]);
                }
                if b != at {
                    assert(out@[b] == start[b0]);
                }
            }
            assert forall|a: int, b: int| 0 <= a < b < out@.len() implies out@[a] != out@[b] by {
                let a0 = if a < at { a } else { a - 1 };
                let b0 = if b < at { b } else { b - 1 };
                if a != at {
                    assert(out@[a] == start[a0]);
                }
                if b != at {
                    assert(out@[b] == start[b0]);
                }
            }
            assert forall|k: int| 0 <= k < out@.len() implies (#[trigger] out@[k]) < i + 1 by {
                if k != at {
                    assert(out@[k] == start[if k < at { k } else { k - 1 }]);
                }
            }
        }
        i += 1;
    }
    out
}

/// Sorts texts in dictionary order and keeps one of each.
pub fn distinct_texts(v: Vec<String>) -> (r: Vec<String>)
    ensures
        ascending::<String>(texts(r@)),
        texts(r@).to_set() == texts(v@).to_set(),
{
    assert(models(v@) =~= texts(v@));
    let r = sorted_distinct(v);
    assert(models(r@) =~= texts(r@));
    r
}

/// Sorts numbers and keeps one of each.
pub fn distinct_numbers(v: Vec<usize>) -> (r: Vec<usize>)
    ensures
        ascending::<usize>(r@),
        r@.to_set() == v@.to_set(),
{
    assert(models(v@) =~= v@);
    let r = sorted_distinct(v);
    assert(models(r@) =~= r@);
    r
}

/// Two ascending lists of the same values are the same list.
pub proof fn ascending_is_unique<T: Ranked>(a: Seq<T::Model>, b: Seq<T::Model>)
    requires
        ascending::<T>(a),
        ascending::<T>(b),
        a.to_set() == b.to_set(),
    ensures
        a == b,
    decreases a.len(),
{
    if a.len() == 0 || b.len() == 0 {
        if a.len() > 0 {
            assert(a.to_set().contains(a[0]));
            assert(b.to_set().contains(a[0]));
        }
        if b.len() > 0 {
            assert(b.to_set().contains(b[0]));
            assert(a.to_set().contains(b[0]));
        }
        assert(a =~= b);
    } else {
        let x = a.last();
        let y = b.last();
        assert(a.to_set().contains(a[a.len() - 1]));
        assert(b.to_set().contains(b[b.len() - 1]));
        assert(b.to_set().contains(x));
        assert(a.to_set().contains(y));
        let i = choose|i: int| 0 <= i < b.len() && b[i] == x;
        let j = choose|j: int| 0 <= j < a.len() && a[j] == y;
        assert(x == y) by {
            if i < b.len() - 1 && j < a.len() - 1 {
                assert(T::before(b[i], b[b.len() - 1]));
                assert(T::before(a[j], a[a.len() - 1]));
                T::before_is_transitive(x, y, x);
                T::before_is_strict(x);
            }
        }
        let a1 = a.drop_last();
        let b1 = b.drop_last();
        assert forall|p: int, q: int| 0 <= p < q < a1.len() implies T::before(
            #[trigger] a1[p],
            #[trigger] a1[q],
        ) by {
            assert(T::before(a[p], a[q]));
        }
        assert forall|p: int, q: int| 0 <= p < q < b1.len() implies T::before(
            #[trigger] b1[p],
            #[trigger] b1[q],
        ) by {
            assert(T::before(b[p], b[q]));
        }
        assert forall|z: T::Model| #[trigger] a1.to_set().contains(z) == b1.to_set().contains(
            z,
        ) by {
            T::before_is_strict(x);
            if a1.contains(z) {
                let p = choose|p: int| 0 <= p < a1.len() && a1[p] == z;
                assert(T::before(a[p], a[a.len() - 1]));
                assert(a.to_set().contains(a[p]));
                assert(b.to_set().contains(z));
                let q = choose|q: int| 0 <= q < b.len() && b[q] == z;
                assert(b1[q] == z);
            }
            if b1.contains(z) {
                let p = choose|p: int| 0 <= p < b1.len() && b1[p] == z;
                assert(T::before(b[p], b[b.len() - 1]));
                assert(b.to_set().contains(b[p]));
                assert(a.to_set().contains(z));
                let q = choose|q: int| 0 <= q < a.len() && a[q] == z;
                assert(a1[q] == z);
            }
        }
        assert(a1.to_set() =~= b1.to_set());
        ascending_is_unique::<T>(a1, b1);
        assert(a =~= a1.push(x));
        assert(b =~= b1.push(y));
    }
}

/// The ascending list of some values, each once.
pub open spec fn arranged<T: Ranked>(v: Seq<T::Model>) -> Seq<T::Model> {
    choose|r: Seq<T::Model>| #[trigger] ascending::<T>(r) && r.to_set() == v.to_set()
}

/// An ascending list of the same values is the ascending list of them.
pub proof fn arranged_is<T: Ranked>(v: Seq<T::Model>, r: Seq<T::Model>)
    requires
        ascending::<T>(r),
        r.to_set() == v.to_set(),
    ensures
        arranged::<T>(v) == r,
{
    ascending_is_unique::<T>(arranged::<T>(v), r);
}

/// A stable order lists every position.
pub proof fn order_reaches<K: Ranked>(keys: Seq<K::Model>, order: Seq<usize>, k: int)
    requires
        stable_order_of::<K>(keys, order),
        0 <= k < keys.len(),
        keys.len() <= usize::MAX,
    ensures
        order.contains(k as usize),
{
    let n = keys.len();
    if !order.contains(k as usize) {
        let ints = order.map_values(|i: usize| i as int);
        assert forall|a: int, b: int| 0 <= a < ints.len() && 0 <= b < ints.len() && a
            != b implies ints[a] != ints[b] by {
            assert(order[a] != order[b]);
        }
        ints.unique_seq_to_set();
        let range = vstd::set_lib::set_int_range(0, n as int);
        vstd::set_lib::lemma_int_range(0, n as int);
        let short = range.remove(k);
        assert forall|x: int| ints.to_set().contains(x) implies short.contains(x) by {
            let a = choose|a: int| 0 <= a < ints.len() && ints[a] == x;
            assert(order[a] < n);
            if x == k {
                assert(order[a] == k as usize);
                assert(order.contains(k as usize));
            }
        }
        assert(ints.to_set().subset_of(short));
        vstd::set_lib::lemma_len_subset(ints.to_set(), short);
        assert(false);
    }
}

} // verus!
