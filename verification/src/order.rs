//! Stable sorting, and the order of texts.

use crate::text;
use vstd::prelude::*;

verus! {

/// Items with a total preorder.
pub trait Ranked: Sized {
    /// Whether `self` may stand before `other`.
    spec fn at_most(self, other: Self) -> bool;

    /// Of two items, one may stand before the other.
    proof fn total(a: Self, b: Self)
        ensures
            a.at_most(b) || b.at_most(a),
    ;

    /// The order is transitive.
    proof fn transitive(a: Self, b: Self, c: Self)
        requires
            a.at_most(b),
            b.at_most(c),
        ensures
            a.at_most(c),
    ;

    /// Tests whether `self` may stand before `other`.
    fn is_at_most(&self, other: &Self) -> (r: bool)
        ensures
            r == self.at_most(*other),
    ;
}

/// Whether `p` lists the positions of `s` in the order of a stable sort: by
/// rank, and by position among items of one rank.
pub open spec fn stable_order<A>(s: Seq<A>, p: Seq<int>, at_most: spec_fn(A, A) -> bool) -> bool {
    &&& p.len() == s.len()
    &&& forall|i: int| 0 <= i < p.len() ==> 0 <= #[trigger] p[i] < s.len()
    &&& forall|i: int, j: int|
        0 <= i < j < p.len() ==> precedes(s, #[trigger] p[i], #[trigger] p[j], at_most)
}

/// Whether position `a` of `s` stands before position `b` in a stable sort.
pub open spec fn precedes<A>(s: Seq<A>, a: int, b: int, at_most: spec_fn(A, A) -> bool) -> bool {
    at_most(s[a], s[b]) && (at_most(s[b], s[a]) ==> a < b)
}

/// Whether `r` is `s` sorted stably.
pub open spec fn stable_sorted<A>(
    s: Seq<A>,
    r: Seq<A>,
    at_most: spec_fn(A, A) -> bool,
) -> bool {
    exists|p: Seq<int>| #[trigger]
        stable_order(s, p, at_most) && r == Seq::new(p.len(), |i: int| s[p[i]])
}

/// The order of a ranked type.
pub open spec fn rank<T: Ranked>() -> spec_fn(T, T) -> bool {
    |a: T, b: T| a.at_most(b)
}

/// The position behind the last item of the sorted `out` that may stand
/// before `item`.
fn insertion_point<T: Ranked>(out: &Vec<T>, item: &T) -> (r: usize)
    requires
        forall|i: int, j: int|
            0 <= i < j < out@.len() ==> (#[trigger] out@[i]).at_most(#[trigger] out@[j]),
    ensures
        r <= out@.len(),
        forall|i: int| 0 <= i < r ==> (#[trigger] out@[i]).at_most(*item),
        forall|i: int| r <= i < out@.len() ==> !(#[trigger] out@[i]).at_most(*item),
{
    let mut pos: usize = 0;
    while pos < out.len() && out[pos].is_at_most(item)
        invariant
            pos <= out@.len(),
            forall|i: int| 0 <= i < pos ==> (#[trigger] out@[i]).at_most(*item),
        decreases out@.len() - pos,
    {
        pos += 1;
    }
    proof {
        assert forall|i: int| pos <= i < out@.len() implies !(#[trigger] out@[i]).at_most(
            *item,
        ) by {
            if pos < i && out@[i].at_most(*item) {
                T::transitive(out@[pos as int], out@[i], *item);
            }
        }
    }
    pos
}

/// Sorts the items, keeping the order of items of one rank.
pub fn stable_sort<T: Ranked>(items: Vec<T>) -> (r: Vec<T>)
    ensures
        stable_sorted(items@, r@, rank::<T>()),
{
    let ghost s = items@;
    let ghost le = rank::<T>();
    let mut rest = items;
    let mut out: Vec<T> = Vec::new();
    let ghost mut p: Seq<int> = seq![];
    let ghost mut k: int = 0;
    assert(s.take(0) =~= seq![]);
    while rest.len() > 0
        invariant
            0 <= k <= s.len(),
            le == rank::<T>(),
            rest@ == s.skip(k),
            p.len() == k,
            forall|i: int| 0 <= i < k ==> 0 <= #[trigger] p[i] < k,
            forall|i: int, j: int|
                0 <= i < j < k ==> precedes(s, #[trigger] p[i], #[trigger] p[j], le),
            out@ =~= Seq::new(k as nat, |i: int| s[p[i]]),
        decreases rest@.len(),
    {
        let item = rest.remove(0);
        assert(item == s[k]);
        assert(rest@ =~= s.skip(k + 1));
        assert forall|i: int, j: int| 0 <= i < j < out@.len() implies (#[trigger] out@[i]).at_most(
            #[trigger] out@[j],
        ) by {
            assert(precedes(s, p[i], p[j], le));
        }
        let pos = insertion_point(&out, &item);
        let ghost before = out@;
        let ghost q = p.insert(pos as int, k);
        proof {
            assert forall|i: int| 0 <= i < k + 1 implies 0 <= #[trigger] q[i] < k + 1 by {
                if i < pos {
                    assert(q[i] == p[i]);
                } else if i > pos {
                    assert(q[i] == p[i - 1]);
                }
            }
            assert forall|i: int, j: int| 0 <= i < j < k + 1 implies precedes(
                s,
                #[trigger] q[i],
                #[trigger] q[j],
                le,
            ) by {
                if j < pos {
                    assert(precedes(s, p[i], p[j], le));
                } else if j == pos {
                    assert(before[i].at_most(item));
                } else if i < pos {
                    assert(precedes(s, p[i], p[j - 1], le));
                } else if i == pos {
                    assert(!before[j - 1].at_most(item));
                    T::total(before[j - 1], item);
                } else {
                    assert(precedes(s, p[i - 1], p[j - 1], le));
                }
            }
        }
        out.insert(pos, item);
        proof {
            assert forall|i: int| 0 <= i < k + 1 implies out@[i] == s[#[trigger] q[i]] by {
                if i < pos {
                    assert(before[i] == s[p[i]]);
                } else if i > pos {
                    assert(before[i - 1] == s[p[i - 1]]);
                }
            }
            p = q;
            k = k + 1;
        }
    }
    assert(k == s.len());
    assert(stable_order(s, p, le));
    out
}

/// A stable sort stays one under a map that respects the order.
pub proof fn lemma_stable_sorted_map<A, B>(
    s: Seq<A>,
    r: Seq<A>,
    le: spec_fn(A, A) -> bool,
    f: spec_fn(A) -> B,
    le_image: spec_fn(B, B) -> bool,
)
    requires
        stable_sorted(s, r, le),
        forall|a: A, b: A| #[trigger] le(a, b) == le_image(f(a), f(b)),
    ensures
        stable_sorted(
            Seq::new(s.len(), |i: int| f(s[i])),
            Seq::new(r.len(), |i: int| f(r[i])),
            le_image,
        ),
{
    let p = choose|p: Seq<int>| #[trigger]
        stable_order(s, p, le) && r == Seq::new(p.len(), |i: int| s[p[i]]);
    let t = Seq::new(s.len(), |i: int| f(s[i]));
    assert forall|i: int, j: int| 0 <= i < j < p.len() implies precedes(
        t,
        #[trigger] p[i],
        #[trigger] p[j],
        le_image,
    ) by {
        assert(precedes(s, p[i], p[j], le));
        assert(le(s[p[i]], s[p[j]]) == le_image(t[p[i]], t[p[j]]));
        assert(le(s[p[j]], s[p[i]]) == le_image(t[p[j]], t[p[i]]));
    }
    assert(stable_order(t, p, le_image));
    assert(Seq::new(r.len(), |i: int| f(r[i])) =~= Seq::new(p.len(), |i: int| t[p[i]]));
}

/// A stable sort has one result only.
pub proof fn law_stable_sort_unique<A>(
    s: Seq<A>,
    r1: Seq<A>,
    r2: Seq<A>,
    at_most: spec_fn(A, A) -> bool,
)
    requires
        stable_sorted(s, r1, at_most),
        stable_sorted(s, r2, at_most),
    ensures
        r1 == r2,
{
    let p1 = choose|p: Seq<int>| #[trigger]
        stable_order(s, p, at_most) && r1 == Seq::new(p.len(), |i: int| s[p[i]]);
    let p2 = choose|p: Seq<int>| #[trigger]
        stable_order(s, p, at_most) && r2 == Seq::new(p.len(), |i: int| s[p[i]]);
    lemma_same_order(s, p1, p2, at_most, s.len() as int);
    assert(p1 =~= p2);
}

/// A stable sort keeps every item and adds none, and leaves the items in
/// order.
pub proof fn law_stable_sort_keeps<A>(s: Seq<A>, r: Seq<A>, at_most: spec_fn(A, A) -> bool)
    requires
        stable_sorted(s, r, at_most),
    ensures
        r.len() == s.len(),
        forall|x: A| #[trigger] r.contains(x) <==> s.contains(x),
        forall|i: int, j: int|
            0 <= i < j < r.len() ==> at_most(#[trigger] r[i], #[trigger] r[j]),
{
    let p = choose|p: Seq<int>| #[trigger]
        stable_order(s, p, at_most) && r == Seq::new(p.len(), |i: int| s[p[i]]);
    assert forall|x: A| #[trigger] r.contains(x) <==> s.contains(x) by {
        if r.contains(x) {
            let i = choose|i: int| 0 <= i < r.len() && r[i] == x;
            assert(s[p[i]] == x);
        }
        if s.contains(x) {
            let k = choose|k: int| 0 <= k < s.len() && s[k] == x;
            let j = lemma_finds(s, p, at_most, k);
            assert(r[j] == x);
        }
    }
    assert forall|i: int, j: int| 0 <= i < j < r.len() implies at_most(
        #[trigger] r[i],
        #[trigger] r[j],
    ) by {
        assert(precedes(s, p[i], p[j], at_most));
    }
}

proof fn lemma_same_order<A>(
    s: Seq<A>,
    p1: Seq<int>,
    p2: Seq<int>,
    at_most: spec_fn(A, A) -> bool,
    n: int,
)
    requires
        stable_order(s, p1, at_most),
        stable_order(s, p2, at_most),
        0 <= n <= s.len(),
    ensures
        forall|i: int| 0 <= i < n ==> p1[i] == p2[i],
    decreases n,
{
    if n > 0 {
        lemma_same_order(s, p1, p2, at_most, n - 1);
        if p1[n - 1] != p2[n - 1] {
            let j1 = lemma_finds(s, p1, at_most, p2[n - 1]);
            let j2 = lemma_finds(s, p2, at_most, p1[n - 1]);
            lemma_distinct(s, p1, at_most);
            lemma_distinct(s, p2, at_most);
            if j1 < n - 1 {
                assert(p2[j1] == p2[n - 1]);
            }
            if j2 < n - 1 {
                assert(p1[j2] == p1[n - 1]);
            }
            assert(precedes(s, p1[n - 1], p1[j1], at_most));
            assert(precedes(s, p2[n - 1], p2[j2], at_most));
        }
    }
}

proof fn lemma_distinct<A>(s: Seq<A>, p: Seq<int>, at_most: spec_fn(A, A) -> bool)
    requires
        stable_order(s, p, at_most),
    ensures
        forall|i: int, j: int| 0 <= i < j < p.len() ==> #[trigger] p[i] != #[trigger] p[j],
{
    assert forall|i: int, j: int| 0 <= i < j < p.len() implies #[trigger] p[i] != #[trigger] p[j] by {
        assert(precedes(s, p[i], p[j], at_most));
    }
}

/// Every position occurs in the order.
proof fn lemma_finds<A>(
    s: Seq<A>,
    p: Seq<int>,
    at_most: spec_fn(A, A) -> bool,
    x: int,
) -> (j: int)
    requires
        stable_order(s, p, at_most),
        0 <= x < s.len(),
    ensures
        0 <= j < p.len(),
        p[j] == x,
{
    lemma_distinct(s, p, at_most);
    let all = vstd::set_lib::set_int_range(0, s.len() as int);
    vstd::set_lib::lemma_int_range(0, s.len() as int);
    assert(p.no_duplicates());
    p.unique_seq_to_set();
    assert(p.to_set().subset_of(all)) by {
        assert forall|y: int| p.to_set().contains(y) implies all.contains(y) by {
            let i = p.index_of(y);
            assert(p[i] == y);
        }
    }
    vstd::set_lib::lemma_subset_equality(p.to_set(), all);
    assert(all.contains(x));
    assert(p.to_set().contains(x));
    assert(p.contains(x));
    p.index_of(x)
}

/// The lexicographic order of texts, by code point.
pub open spec fn text_at_most(a: Seq<char>, b: Seq<char>) -> bool
    decreases a.len(),
{
    if a.len() == 0 {
        true
    } else if b.len() == 0 {
        false
    } else if a[0] != b[0] {
        a[0] < b[0]
    } else {
        text_at_most(a.skip(1), b.skip(1))
    }
}

/// Of two texts, one is at most the other.
pub proof fn lemma_text_total(a: Seq<char>, b: Seq<char>)
    ensures
        text_at_most(a, b) || text_at_most(b, a),
    decreases a.len(),
{
    if a.len() > 0 && b.len() > 0 && a[0] == b[0] {
        lemma_text_total(a.skip(1), b.skip(1));
    }
}

/// The order of texts is transitive.
pub proof fn lemma_text_transitive(a: Seq<char>, b: Seq<char>, c: Seq<char>)
    requires
        text_at_most(a, b),
        text_at_most(b, c),
    ensures
        text_at_most(a, c),
    decreases a.len(),
{
    if a.len() > 0 && b.len() > 0 && c.len() > 0 && a[0] == b[0] && b[0] == c[0] {
        lemma_text_transitive(a.skip(1), b.skip(1), c.skip(1));
    }
}

/// Compares two texts by code point.
pub fn is_text_at_most(a: &str, b: &str) -> (r: bool)
    ensures
        r == text_at_most(a@, b@),
{
    let x = text::chars_of(a);
    let y = text::chars_of(b);
    let mut i: usize = 0;
    assert(x@.skip(0) =~= x@);
    assert(y@.skip(0) =~= y@);
    loop
        invariant
            x@ == a@,
            y@ == b@,
            i <= x@.len(),
            i <= y@.len(),
            text_at_most(a@, b@) == text_at_most(x@.skip(i as int), y@.skip(i as int)),
        decreases x@.len() - i,
    {
        if i == x.len() {
            return true;
        }
        if i == y.len() {
            return false;
        }
        if x[i] != y[i] {
            return x[i] < y[i];
        }
        assert(x@.skip(i as int).skip(1) =~= x@.skip(i + 1));
        assert(y@.skip(i as int).skip(1) =~= y@.skip(i + 1));
        i += 1;
    }
}

/// Texts are ordered as in a dictionary by the numbers of their characters: what
/// comes first is decided by the first difference, and a text comes before its
/// continuations.
pub proof fn law_text_order(p: Seq<char>, c: char, x: Seq<char>, d: char, y: Seq<char>)
    ensures
        text_at_most(p, p + x),
        x.len() > 0 ==> !text_at_most(p + x, p),
        c < d ==> text_at_most(p + seq![c] + x, p + seq![d] + y),
        c < d ==> !text_at_most(p + seq![d] + y, p + seq![c] + x),
    decreases p.len(),
{
    let a = p + seq![c] + x;
    let b = p + seq![d] + y;
    let e = p + x;
    if p.len() == 0 {
        assert(a[0] == c && b[0] == d);
        assert(e =~= x);
    } else {
        let r = p.skip(1);
        law_text_order(r, c, x, d, y);
        assert(a[0] == p[0] && b[0] == p[0] && e[0] == p[0]);
        assert(a.skip(1) =~= r + seq![c] + x);
        assert(b.skip(1) =~= r + seq![d] + y);
        assert(e.skip(1) =~= r + x);
    }
}

/// Two texts that may each stand before the other are the same.
pub proof fn law_text_order_is_strict(a: Seq<char>, b: Seq<char>)
    ensures
        text_at_most(a, b) && text_at_most(b, a) ==> a == b,
    decreases a.len(),
{
    if a.len() > 0 && b.len() > 0 && text_at_most(a, b) && text_at_most(b, a) {
        law_text_order_is_strict(a.skip(1), b.skip(1));
        assert(a =~= seq![a[0]] + a.skip(1));
        assert(b =~= seq![b[0]] + b.skip(1));
    } else if a.len() == 0 && text_at_most(b, a) {
        assert(a =~= b);
    }
}

/// A sorted list has the items of the list it was made of, each from one place of
/// it, and items that may stand in either order keep the order they had.
pub proof fn law_stable_sort_keeps_order<A>(s: Seq<A>, r: Seq<A>, at_most: spec_fn(A, A) -> bool)
    requires
        stable_sorted(s, r, at_most),
        forall|a: A| #[trigger] at_most(a, a),
    ensures
        exists|p: Seq<int>|
            p.len() == s.len() && r.len() == s.len() && (forall|i: int|
                0 <= i < p.len() ==> 0 <= #[trigger] p[i] < s.len() && r[i] == s[p[i]]) && (forall|
                i: int,
                j: int,
            |
                0 <= i < j < p.len() ==> #[trigger] p[i] != #[trigger] p[j]) && (forall|
                i: int,
                j: int,
            |
                0 <= i < j < p.len() && at_most(s[#[trigger] p[j]], s[#[trigger] p[i]]) ==> p[i]
                    < p[j]),
{
    let p = choose|p: Seq<int>| #[trigger]
        stable_order(s, p, at_most) && r == Seq::new(p.len(), |i: int| s[p[i]]);
    assert forall|i: int, j: int| 0 <= i < j < p.len() implies #[trigger] p[i] != #[trigger] p[j] by {
        assert(precedes(s, p[i], p[j], at_most));
        assert(at_most(s[p[i]], s[p[i]]));
    }
    assert forall|i: int, j: int|
        0 <= i < j < p.len() && at_most(s[#[trigger] p[j]], s[#[trigger] p[i]]) implies p[i]
        < p[j] by {
        assert(precedes(s, p[i], p[j], at_most));
    }
}

} // verus!
