//! A stable merge sort over any type that carries a total preorder.
//!
//! Every list the report presents in a fixed order (files and directories by
//! size, languages by size, dependencies by kind and name) goes through
//! [`sort`], so its result is pinned down by one spec function, [`sorted`]:
//! a stable merge sort whose result is ordered and a permutation of its input.
use std::collections::VecDeque;
use vstd::multiset::Multiset;
use vstd::prelude::*;
use vstd::seq_lib::lemma_multiset_commutative;

verus! {

/// A total preorder: `ranks_before(a, b)` means `a` may come first.
pub trait Ranked: Sized {
    spec fn ranks_before(self, other: Self) -> bool;

    fn ranks_before_exec(&self, other: &Self) -> (r: bool)
        ensures
            r == self.ranks_before(*other),
    ;

    proof fn ranks_total(a: Self, b: Self)
        ensures
            a.ranks_before(b) || b.ranks_before(a),
    ;

    proof fn ranks_transitive(a: Self, b: Self, c: Self)
        requires
            a.ranks_before(b),
            b.ranks_before(c),
        ensures
            a.ranks_before(c),
    ;
}

/// `s` is ordered: every element ranks before every later one.
pub open spec fn is_ranked<T: Ranked>(s: Seq<T>) -> bool {
    forall|i: int, j: int| 0 <= i < j < s.len() ==> #[trigger] s[i].ranks_before(#[trigger] s[j])
}

/// The stable merge of two sequences: on a tie, the left one goes first.
pub open spec fn merged<T: Ranked>(l: Seq<T>, r: Seq<T>) -> Seq<T>
    decreases l.len() + r.len(),
{
    if l.len() == 0 {
        r
    } else if r.len() == 0 {
        l
    } else if l[0].ranks_before(r[0]) {
        seq![l[0]] + merged(l.drop_first(), r)
    } else {
        seq![r[0]] + merged(l, r.drop_first())
    }
}

/// `s` sorted by a stable top-down merge sort that splits at the middle.
pub open spec fn sorted<T: Ranked>(s: Seq<T>) -> Seq<T>
    decreases s.len(),
{
    if s.len() <= 1 {
        s
    } else {
        let m = s.len() / 2;
        merged(sorted(s.subrange(0, m as int)), sorted(s.subrange(m as int, s.len() as int)))
    }
}

/// `x` ranks before every element of `s`.
pub open spec fn ranks_before_all<T: Ranked>(x: T, s: Seq<T>) -> bool {
    forall|i: int| 0 <= i < s.len() ==> x.ranks_before(#[trigger] s[i])
}

proof fn lemma_merged_lower_bound<T: Ranked>(x: T, l: Seq<T>, r: Seq<T>)
    requires
        ranks_before_all(x, l),
        ranks_before_all(x, r),
    ensures
        ranks_before_all(x, merged(l, r)),
        merged(l, r).len() == l.len() + r.len(),
    decreases l.len() + r.len(),
{
    if l.len() == 0 || r.len() == 0 {
    } else if l[0].ranks_before(r[0]) {
        lemma_merged_lower_bound(x, l.drop_first(), r);
        let rest = merged(l.drop_first(), r);
        assert forall|i: int| 0 <= i < merged(l, r).len() implies x.ranks_before(
            #[trigger] merged(l, r)[i],
        ) by {
            if i > 0 {
                assert(merged(l, r)[i] == rest[i - 1]);
            }
        }
    } else {
        lemma_merged_lower_bound(x, l, r.drop_first());
        let rest = merged(l, r.drop_first());
        assert forall|i: int| 0 <= i < merged(l, r).len() implies x.ranks_before(
            #[trigger] merged(l, r)[i],
        ) by {
            if i > 0 {
                assert(merged(l, r)[i] == rest[i - 1]);
            }
        }
    }
}

proof fn lemma_prepend_ranked<T: Ranked>(x: T, s: Seq<T>)
    requires
        is_ranked(s),
        ranks_before_all(x, s),
    ensures
        is_ranked(seq![x] + s),
{
    let t = seq![x] + s;
    assert forall|i: int, j: int| 0 <= i < j < t.len() implies #[trigger] t[i].ranks_before(
        #[trigger] t[j],
    ) by {
        if i == 0 {
            assert(t[j] == s[j - 1]);
        } else {
            assert(t[i] == s[i - 1]);
            assert(t[j] == s[j - 1]);
        }
    }
}

proof fn lemma_ranked_tail<T: Ranked>(s: Seq<T>)
    requires
        is_ranked(s),
        s.len() > 0,
    ensures
        is_ranked(s.drop_first()),
        ranks_before_all(s[0], s.drop_first()),
{
    assert forall|i: int, j: int| 0 <= i < j < s.drop_first().len() implies #[trigger] s.drop_first()[i].ranks_before(
        #[trigger] s.drop_first()[j],
    ) by {
        assert(s[i + 1].ranks_before(s[j + 1]));
    }
    assert forall|i: int| 0 <= i < s.drop_first().len() implies s[0].ranks_before(
        #[trigger] s.drop_first()[i],
    ) by {
        assert(s[0].ranks_before(s[i + 1]));
    }
}

proof fn lemma_lower_bound_chain<T: Ranked>(x: T, y: T, s: Seq<T>)
    requires
        x.ranks_before(y),
        ranks_before_all(y, s),
    ensures
        ranks_before_all(x, s),
{
    assert forall|i: int| 0 <= i < s.len() implies x.ranks_before(#[trigger] s[i]) by {
        T::ranks_transitive(x, y, s[i]);
    }
}

/// Merging two ordered sequences gives an ordered permutation of both.
pub proof fn lemma_merged<T: Ranked>(l: Seq<T>, r: Seq<T>)
    requires
        is_ranked(l),
        is_ranked(r),
    ensures
        is_ranked(merged(l, r)),
        merged(l, r).to_multiset() == (l + r).to_multiset(),
        merged(l, r).len() == l.len() + r.len(),
    decreases l.len() + r.len(),
{
    if l.len() == 0 {
        assert(l + r =~= r);
    } else if r.len() == 0 {
        assert(l + r =~= l);
    } else if l[0].ranks_before(r[0]) {
        lemma_ranked_tail(l);
        lemma_merged(l.drop_first(), r);
        if r.len() > 0 {
            lemma_ranked_tail(r);
            lemma_lower_bound_chain(l[0], r[0], r.drop_first());
        }
        assert(ranks_before_all(l[0], r)) by {
            assert forall|i: int| 0 <= i < r.len() implies l[0].ranks_before(#[trigger] r[i]) by {
                if i > 0 {
                    assert(r[i] == r.drop_first()[i - 1]);
                }
            }
        }
        lemma_merged_lower_bound(l[0], l.drop_first(), r);
        lemma_prepend_ranked(l[0], merged(l.drop_first(), r));
        lemma_multiset_commutative(seq![l[0]], merged(l.drop_first(), r));
        lemma_multiset_commutative(seq![l[0]], l.drop_first() + r);
        assert(seq![l[0]] + (l.drop_first() + r) =~= l + r);
    } else {
        T::ranks_total(l[0], r[0]);
        lemma_ranked_tail(r);
        lemma_merged(l, r.drop_first());
        lemma_ranked_tail(l);
        lemma_lower_bound_chain(r[0], l[0], l.drop_first());
        assert(ranks_before_all(r[0], l)) by {
            assert forall|i: int| 0 <= i < l.len() implies r[0].ranks_before(#[trigger] l[i]) by {
                if i > 0 {
                    assert(l[i] == l.drop_first()[i - 1]);
                }
            }
        }
        lemma_merged_lower_bound(r[0], l, r.drop_first());
        lemma_prepend_ranked(r[0], merged(l, r.drop_first()));
        lemma_multiset_commutative(seq![r[0]], merged(l, r.drop_first()));
        lemma_multiset_commutative(seq![r[0]], l + r.drop_first());
        lemma_multiset_commutative(l, r);
        lemma_multiset_commutative(l, r.drop_first());
        lemma_multiset_commutative(seq![r[0]], r.drop_first());
        assert(seq![r[0]] + r.drop_first() =~= r);
        assert(seq![r[0]].to_multiset().add(l.to_multiset().add(r.drop_first().to_multiset()))
            =~= l.to_multiset().add(seq![r[0]].to_multiset().add(r.drop_first().to_multiset())));
    }
}

/// Sorting gives an ordered permutation of the input.
pub proof fn lemma_sorted<T: Ranked>(s: Seq<T>)
    ensures
        is_ranked(sorted(s)),
        sorted(s).to_multiset() == s.to_multiset(),
        sorted(s).len() == s.len(),
    decreases s.len(),
{
    if s.len() > 1 {
        let m = s.len() / 2;
        let a = s.subrange(0, m as int);
        let b = s.subrange(m as int, s.len() as int);
        lemma_sorted(a);
        lemma_sorted(b);
        lemma_merged(sorted(a), sorted(b));
        lemma_multiset_commutative(sorted(a), sorted(b));
        lemma_multiset_commutative(a, b);
        assert(a + b =~= s);
    } else if s.len() == 1 {
        assert forall|i: int, j: int| 0 <= i < j < s.len() implies #[trigger] s[i].ranks_before(
            #[trigger] s[j],
        ) by {}
    }
}

/// Sorting keeps keys apart: when no two elements share a key, no two
/// places of the sorted sequence do.
pub proof fn lemma_sorted_keys_distinct<T: Ranked>(s: Seq<T>, key: spec_fn(T) -> Seq<char>)
    requires
        forall|i: int, j: int| 0 <= i < j < s.len() ==> key(#[trigger] s[i]) != key(#[trigger] s[j]),
    ensures
        forall|i: int, j: int| 0 <= i < j < sorted(s).len() ==> key(#[trigger] sorted(s)[i]) != key(#[trigger] sorted(s)[j]),
{
    broadcast use vstd::seq_lib::group_to_multiset_ensures;

    lemma_sorted(s);
    let t = sorted(s);
    assert(s.no_duplicates()) by {
        assert forall|i: int, j: int| 0 <= i < s.len() && 0 <= j < s.len() && i != j implies s[i] != s[j] by {
            if i < j {
                assert(key(s[i]) != key(s[j]));
            } else {
                assert(key(s[j]) != key(s[i]));
            }
        }
    }
    s.lemma_multiset_has_no_duplicates();
    t.lemma_multiset_has_no_duplicates_conv();
    assert forall|i: int, j: int| 0 <= i < j < t.len() implies key(#[trigger] t[i]) != key(#[trigger] t[j]) by {
        assert(t.contains(t[i]));
        assert(t.contains(t[j]));
        assert(t.to_multiset().count(t[i]) > 0);
        assert(t.to_multiset().count(t[j]) > 0);
        assert(s.to_multiset().count(t[i]) > 0);
        assert(s.to_multiset().count(t[j]) > 0);
        assert(s.contains(t[i]));
        assert(s.contains(t[j]));
        let p = choose|p: int| 0 <= p < s.len() && s[p] == t[i];
        let q = choose|q: int| 0 <= q < s.len() && s[q] == t[j];
        assert(t[i] != t[j]);
        assert(p != q);
        if p < q {
            assert(key(s[p]) != key(s[q]));
        } else {
            assert(key(s[q]) != key(s[p]));
        }
    }
}

/// Two ordered sequences holding the same elements agree position by
/// position up to the order: each element ranks before, and after, the one
/// at its place in the other.
pub proof fn lemma_ranked_alike<T: Ranked>(a: Seq<T>, b: Seq<T>)
    requires
        is_ranked(a),
        is_ranked(b),
        a.to_multiset() == b.to_multiset(),
    ensures
        a.len() == b.len(),
        forall|k: int| #![trigger a[k]] 0 <= k < a.len() ==> a[k].ranks_before(b[k]) && b[k].ranks_before(a[k]),
    decreases a.len(),
{
    broadcast use vstd::seq_lib::group_to_multiset_ensures;

    assert(a.to_multiset().len() == a.len());
    assert(b.to_multiset().len() == b.len());
    if a.len() > 0 {
        assert(a.to_multiset().count(a[0]) > 0) by {
            assert(a.contains(a[0]));
        }
        assert(b.contains(a[0]));
        assert(b.to_multiset().count(b[0]) > 0) by {
            assert(b.contains(b[0]));
        }
        assert(a.contains(b[0]));
        let i = choose|i: int| 0 <= i < b.len() && b[i] == a[0];
        let j = choose|j: int| 0 <= j < a.len() && a[j] == b[0];
        if i > 0 {
            assert(b[0].ranks_before(b[i]));
        } else {
            T::ranks_total(b[0], b[0]);
        }
        if j > 0 {
            assert(a[0].ranks_before(a[j]));
        } else {
            T::ranks_total(a[0], a[0]);
        }
        let rest_a = a.drop_first();
        let rest_b = b.remove(i);
        b.remove_ensures(i);
        assert(rest_a =~= a.remove(0));
        vstd::seq_lib::to_multiset_remove(a, 0);
        vstd::seq_lib::to_multiset_remove(b, i);
        assert forall|x: int, y: int| 0 <= x < y < rest_b.len() implies #[trigger] rest_b[x].ranks_before(
            #[trigger] rest_b[y],
        ) by {
            if y < i {
            } else if x < i {
                assert(b[x].ranks_before(b[y + 1]));
            } else {
                assert(b[x + 1].ranks_before(b[y + 1]));
            }
        }
        assert forall|x: int, y: int| 0 <= x < y < rest_a.len() implies #[trigger] rest_a[x].ranks_before(
            #[trigger] rest_a[y],
        ) by {
            assert(a[x + 1].ranks_before(a[y + 1]));
        }
        lemma_ranked_alike(rest_a, rest_b);
        assert forall|k: int| #![trigger a[k]] 0 <= k < a.len() implies a[k].ranks_before(b[k]) && b[k].ranks_before(
            a[k],
        ) by {
            if k > 0 {
                assert(a[k] == rest_a[k - 1]);
                assert(rest_a[k - 1].ranks_before(rest_b[k - 1]) && rest_b[k - 1].ranks_before(rest_a[k - 1]));
                if k - 1 < i {
                    // b[k - 1] and b[k] both lie between b[0] and b[i], which
                    // rank alike, so they rank alike too.
                    assert(rest_b[k - 1] == b[k - 1]);
                    assert(b[k - 1].ranks_before(b[k]));
                    if k < i {
                        assert(b[k].ranks_before(b[i]));
                        T::ranks_transitive(b[k], b[i], b[0]);
                    } else {
                        assert(b[k] == a[0]);
                    }
                    if k - 1 > 0 {
                        assert(b[0].ranks_before(b[k - 1]));
                        T::ranks_transitive(b[k], b[0], b[k - 1]);
                    }
                    T::ranks_transitive(a[k], b[k - 1], b[k]);
                    T::ranks_transitive(b[k], b[k - 1], a[k]);
                } else {
                    assert(rest_b[k - 1] == b[k]);
                }
            }
        }
    }
}

fn deque_of<T>(v: Vec<T>) -> (d: VecDeque<T>)
    ensures
        d@ == v@,
{
    let mut d: VecDeque<T> = VecDeque::new();
    let ghost original = v@;
    for x in it: v
        invariant
            d@ == it.seq().take(it.index() as int),
    {
        d.push_back(x);
    }
    d
}

fn merge<T: Ranked>(l: Vec<T>, r: Vec<T>) -> (out: Vec<T>)
    ensures
        out@ == merged(l@, r@),
{
    let ghost whole = merged(l@, r@);
    let mut a = deque_of(l);
    let mut b = deque_of(r);
    let mut out: Vec<T> = Vec::new();
    loop
        invariant
            whole == out@ + merged(a@, b@),
            whole == merged(l@, r@),
        decreases a@.len() + b@.len(),
    {
        if a.len() == 0 {
            assert(merged(a@, b@) == b@);
            let mut rest = b;
            loop
                invariant
                    whole == out@ + rest@,
                    whole == merged(l@, r@),
                decreases rest@.len(),
            {
                match rest.pop_front() {
                    Some(x) => {
                        out.push(x);
                        assert(out@ + rest@ =~= whole);
                    },
                    None => {
                        assert(whole =~= out@);
                        return out;
                    },
                }
            }
        }
        if b.len() == 0 {
            assert(merged(a@, b@) == a@);
            let mut rest = a;
            loop
                invariant
                    whole == out@ + rest@,
                    whole == merged(l@, r@),
                decreases rest@.len(),
            {
                match rest.pop_front() {
                    Some(x) => {
                        out.push(x);
                        assert(out@ + rest@ =~= whole);
                    },
                    None => {
                        assert(whole =~= out@);
                        return out;
                    },
                }
            }
        }
        let take_left = a[0].ranks_before_exec(&b[0]);
        if take_left {
            let ghost before = a@;
            let x = a.pop_front().unwrap();
            assert(a@ =~= before.drop_first());
            out.push(x);
            assert(whole =~= out@ + merged(a@, b@));
        } else {
            let ghost before = b@;
            let x = b.pop_front().unwrap();
            assert(b@ =~= before.drop_first());
            out.push(x);
            assert(whole =~= out@ + merged(a@, b@));
        }
    }
}

/// Sorts `v` by a stable merge sort: the result is [`sorted`] of the input,
/// which is ordered and a permutation of it.
pub fn sort<T: Ranked>(v: Vec<T>) -> (out: Vec<T>)
    ensures
        out@ == sorted(v@),
        is_ranked(out@),
        out@.to_multiset() == v@.to_multiset(),
    decreases v@.len(),
{
    proof {
        lemma_sorted(v@);
    }
    if v.len() <= 1 {
        return v;
    }
    let mut left = v;
    let m = left.len() / 2;
    let right = left.split_off(m);
    let left = sort(left);
    let right = sort(right);
    merge(left, right)
}


/// The sum of `f` over `s`.
pub open spec fn sum_by<T>(s: Seq<T>, f: spec_fn(T) -> nat) -> nat
    decreases s.len(),
{
    if s.len() == 0 {
        0
    } else {
        f(s[0]) + sum_by(s.drop_first(), f)
    }
}

pub proof fn lemma_sum_by_concat<T>(a: Seq<T>, b: Seq<T>, f: spec_fn(T) -> nat)
    ensures
        sum_by(a + b, f) == sum_by(a, f) + sum_by(b, f),
    decreases a.len(),
{
    if a.len() == 0 {
        assert(a + b =~= b);
    } else {
        lemma_sum_by_concat(a.drop_first(), b, f);
        assert((a + b).drop_first() =~= a.drop_first() + b);
    }
}

pub proof fn lemma_sum_by_push<T>(a: Seq<T>, x: T, f: spec_fn(T) -> nat)
    ensures
        sum_by(a.push(x), f) == sum_by(a, f) + f(x),
{
    lemma_sum_by_concat(a, seq![x], f);
    assert(a.push(x) =~= a + seq![x]);
    assert(seq![x].drop_first() =~= Seq::<T>::empty());
    assert(sum_by(seq![x], f) == f(seq![x][0]) + sum_by(seq![x].drop_first(), f));
    assert(sum_by(Seq::<T>::empty(), f) == 0);
}

proof fn lemma_sum_by_merged<T: Ranked>(l: Seq<T>, r: Seq<T>, f: spec_fn(T) -> nat)
    ensures
        sum_by(merged(l, r), f) == sum_by(l, f) + sum_by(r, f),
    decreases l.len() + r.len(),
{
    if l.len() == 0 || r.len() == 0 {
    } else if l[0].ranks_before(r[0]) {
        lemma_sum_by_merged(l.drop_first(), r, f);
        assert((seq![l[0]] + merged(l.drop_first(), r)).drop_first() =~= merged(l.drop_first(), r));
    } else {
        lemma_sum_by_merged(l, r.drop_first(), f);
        assert((seq![r[0]] + merged(l, r.drop_first())).drop_first() =~= merged(l, r.drop_first()));
    }
}

/// Sorting leaves any sum over the elements unchanged.
pub proof fn lemma_sum_by_sorted<T: Ranked>(s: Seq<T>, f: spec_fn(T) -> nat)
    ensures
        sum_by(sorted(s), f) == sum_by(s, f),
    decreases s.len(),
{
    if s.len() > 1 {
        let m = s.len() / 2;
        let a = s.subrange(0, m as int);
        let b = s.subrange(m as int, s.len() as int);
        lemma_sum_by_sorted(a, f);
        lemma_sum_by_sorted(b, f);
        lemma_sum_by_merged(sorted(a), sorted(b), f);
        lemma_sum_by_concat(a, b, f);
        assert(a + b =~= s);
    }
}
} // verus!
