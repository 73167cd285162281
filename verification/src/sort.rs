//! Stable sorting, as `slice::sort_by` does it, for the orders the library uses.
use crate::text::{
    chars_lt, lemma_occurrences_concat, lemma_seq_lt_asymmetric, lemma_seq_lt_irreflexive,
    lemma_seq_lt_total, lemma_seq_lt_transitive, occurrences, seq_lt, to_chars,
};
use vstd::prelude::*;

verus! {

/// A type with a strict order used to sort it.
pub trait Ordered: Sized {
    spec fn before(&self, other: &Self) -> bool;

    fn is_before(&self, other: &Self) -> (r: bool)
        ensures
            r == self.before(other),
    ;
}

/// `x` placed into `s` in front of the first element it comes before, that is, after every
/// element it does not come before.
pub open spec fn insert_sorted<T: Ordered>(s: Seq<T>, x: T) -> Seq<T>
    decreases s.len(),
{
    if s.len() == 0 {
        seq![x]
    } else if x.before(&s[0]) {
        seq![x] + s
    } else {
        seq![s[0]] + insert_sorted(s.drop_first(), x)
    }
}

/// The stable sort of `s`: each element in turn inserted after every earlier element that it
/// does not come before.
pub open spec fn sorted_spec<T: Ordered>(s: Seq<T>) -> Seq<T>
    decreases s.len(),
{
    if s.len() == 0 {
        seq![]
    } else {
        insert_sorted(sorted_spec(s.drop_last()), s.last())
    }
}

/// Inserting adds exactly `x`.
pub proof fn lemma_insert_sorted_perm<T: Ordered>(s: Seq<T>, x: T)
    ensures
        insert_sorted(s, x).len() == s.len() + 1,
        insert_sorted(s, x).to_multiset() =~= s.to_multiset().insert(x),
    decreases s.len(),
{
    broadcast use {vstd::seq_lib::group_to_multiset_ensures, vstd::multiset::group_multiset_axioms};

    if s.len() == 0 {
        assert(seq![x] =~= Seq::<T>::empty().push(x));
        assert(s =~= Seq::<T>::empty());
    } else if x.before(&s[0]) {
        assert(seq![x] + s =~= s.insert(0, x));
    } else {
        let t = s.drop_first();
        lemma_insert_sorted_perm(t, x);
        vstd::seq_lib::lemma_multiset_commutative(seq![s[0]], t);
        vstd::seq_lib::lemma_multiset_commutative(seq![s[0]], insert_sorted(t, x));
        assert(seq![s[0]] + t =~= s);
    }
}

/// Sorting keeps every element, as often as it occurs.
pub proof fn lemma_sorted_perm<T: Ordered>(s: Seq<T>)
    ensures
        sorted_spec(s).len() == s.len(),
        sorted_spec(s).to_multiset() =~= s.to_multiset(),
    decreases s.len(),
{
    broadcast use {vstd::seq_lib::group_to_multiset_ensures, vstd::multiset::group_multiset_axioms};

    if s.len() > 0 {
        lemma_sorted_perm(s.drop_last());
        lemma_insert_sorted_perm(sorted_spec(s.drop_last()), s.last());
        assert(s.drop_last().push(s.last()) =~= s);
    }
}

/// Where `insert_sorted` puts `x`: the first position of an element that `x` comes before.
pub open spec fn insert_pos<T: Ordered>(s: Seq<T>, x: T, p: int) -> bool {
    &&& 0 <= p <= s.len()
    &&& forall|j: int| 0 <= j < p ==> !x.before(&s[j])
    &&& (p < s.len() ==> x.before(&s[p]))
}

pub proof fn lemma_insert_at<T: Ordered>(s: Seq<T>, x: T, p: int)
    requires
        insert_pos(s, x, p),
    ensures
        insert_sorted(s, x) == s.take(p) + seq![x] + s.skip(p),
    decreases s.len(),
{
    if s.len() == 0 {
        assert(s.take(p) + seq![x] + s.skip(p) =~= seq![x]);
    } else if p == 0 {
        assert(s.take(p) + seq![x] + s.skip(p) =~= seq![x] + s);
    } else {
        assert(!x.before(&s[0]));
        let t = s.drop_first();
        assert forall|j: int| 0 <= j < p - 1 implies !x.before(&t[j]) by {
            assert(t[j] == s[j + 1]);
        }
        if p - 1 < t.len() {
            assert(t[p - 1] == s[p]);
        }
        lemma_insert_at(t, x, p - 1);
        assert(seq![s[0]] + (t.take(p - 1) + seq![x] + t.skip(p - 1)) =~= s.take(p) + seq![x]
            + s.skip(p));
    }
}

fn insert_into<T: Ordered>(out: &mut Vec<T>, x: T)
    ensures
        final(out)@ == insert_sorted(old(out)@, x),
{
    let mut p: usize = 0;
    while p < out.len() && !x.is_before(&out[p])
        invariant
            p <= out@.len(),
            forall|j: int| 0 <= j < p ==> !x.before(&out@[j]),
        decreases out.len() - p,
    {
        p = p + 1;
    }
    proof {
        lemma_insert_at(out@, x, p as int);
    }
    let ghost before = out@;
    out.insert(p, x);
    assert(out@ =~= before.take(p as int) + seq![x] + before.skip(p as int));
}

/// Sorts `v` stably by the order of its element type.
pub fn sort_stable<T: Ordered>(v: Vec<T>) -> (r: Vec<T>)
    ensures
        r@ == sorted_spec(v@),
{
    let ghost orig = v@;
    let mut v = v;
    let n0 = v.len();
    assert(orig.len() == n0);
    let mut out: Vec<T> = Vec::new();
    let mut k: usize = 0;
    assert(orig.take(0) =~= Seq::<T>::empty());
    while v.len() > 0
        invariant
            k + v@.len() == orig.len(),
            orig.len() <= usize::MAX,
            v@ == orig.skip(k as int),
            out@ == sorted_spec(orig.take(k as int)),
        decreases v.len(),
    {
        let x = v.remove(0);
        assert(orig.take(k + 1).drop_last() =~= orig.take(k as int));
        assert(x == orig[k as int]);
        insert_into(&mut out, x);
        k = k + 1;
        assert(v@ =~= orig.skip(k as int));
    }
    assert(orig.take(k as int) =~= orig);
    out
}

/// Text ordered as `String`'s `Ord` orders it.
#[derive(Debug)]
pub struct Text(pub String);

impl Ordered for Text {
    open spec fn before(&self, other: &Self) -> bool {
        seq_lt(self.0@, other.0@)
    }

    fn is_before(&self, other: &Self) -> (r: bool) {
        let a = to_chars(self.0.as_str());
        let b = to_chars(other.0.as_str());
        chars_lt(&a, &b)
    }
}

/// A value ordered by a text key alone, so that equal keys keep their order.
#[derive(Debug)]
pub struct Keyed<P> {
    pub key: String,
    pub val: P,
}

impl<P> Ordered for Keyed<P> {
    open spec fn before(&self, other: &Self) -> bool {
        seq_lt(self.key@, other.key@)
    }

    fn is_before(&self, other: &Self) -> (r: bool) {
        let a = to_chars(self.key.as_str());
        let b = to_chars(other.key.as_str());
        chars_lt(&a, &b)
    }
}

/// Strings as `Text` values.
pub open spec fn texts(v: Seq<String>) -> Seq<Text> {
    Seq::new(v.len(), |i: int| Text(v[i]))
}

/// The text of each value.
pub open spec fn text_views(s: Seq<Text>) -> Seq<Seq<char>> {
    Seq::new(s.len(), |i: int| s[i].0@)
}

/// No element comes before an earlier one.
pub open spec fn in_order<T: Ordered>(s: Seq<T>) -> bool {
    forall|a: int, b: int| 0 <= a < b < s.len() ==> !#[trigger] s[b].before(&s[a])
}

proof fn lemma_insert_sorted_occurrences(s: Seq<Text>, x: Text, k: Seq<char>)
    ensures
        occurrences(text_views(insert_sorted(s, x)), k) == occurrences(text_views(s), k)
            + occurrences(seq![x.0@], k),
    decreases s.len(),
{
    if s.len() == 0 {
        assert(text_views(insert_sorted(s, x)) =~= seq![x.0@]);
        assert(text_views(s) =~= Seq::<Seq<char>>::empty());
    } else if x.before(&s[0]) {
        assert(text_views(insert_sorted(s, x)) =~= seq![x.0@] + text_views(s));
        lemma_occurrences_concat(seq![x.0@], text_views(s), k);
    } else {
        let t = s.drop_first();
        lemma_insert_sorted_occurrences(t, x, k);
        assert(text_views(insert_sorted(s, x)) =~= seq![s[0].0@] + text_views(insert_sorted(t, x)));
        assert(text_views(s) =~= seq![s[0].0@] + text_views(t));
        lemma_occurrences_concat(seq![s[0].0@], text_views(insert_sorted(t, x)), k);
        lemma_occurrences_concat(seq![s[0].0@], text_views(t), k);
    }
}

proof fn lemma_insert_sorted_in_order(s: Seq<Text>, x: Text)
    requires
        in_order(s),
    ensures
        in_order(insert_sorted(s, x)),
    decreases s.len(),
{
    if s.len() == 0 {
    } else if x.before(&s[0]) {
        let r = seq![x] + s;
        assert forall|a: int, b: int| 0 <= a < b < r.len() implies !#[trigger] r[b].before(&r[a]) by {
            if a == 0 {
                let y = s[b - 1];
                assert(r[b] == y);
                if b - 1 > 0 {
                    assert(!s[b - 1].before(&s[0]));
                } else {
                    lemma_seq_lt_irreflexive(s[0].0@);
                }
                lemma_seq_lt_total(s[0].0@, y.0@);
                if seq_lt(s[0].0@, y.0@) {
                    lemma_seq_lt_transitive(x.0@, s[0].0@, y.0@);
                }
                lemma_seq_lt_asymmetric(x.0@, y.0@);
            } else {
                assert(r[a] == s[a - 1] && r[b] == s[b - 1]);
            }
        }
    } else {
        let t = s.drop_first();
        assert forall|a: int, b: int| 0 <= a < b < t.len() implies !#[trigger] t[b].before(&t[a]) by {
            assert(t[a] == s[a + 1] && t[b] == s[b + 1]);
        }
        lemma_insert_sorted_in_order(t, x);
        lemma_insert_sorted_perm(t, x);
        let u = insert_sorted(t, x);
        let r = seq![s[0]] + u;
        assert forall|a: int, b: int| 0 <= a < b < r.len() implies !#[trigger] r[b].before(&r[a]) by {
            broadcast use vstd::seq_lib::group_to_multiset_ensures;
            broadcast use vstd::multiset::group_multiset_axioms;

            if a == 0 {
                let y = u[b - 1];
                assert(r[b] == y);
                assert(u.contains(y));
                if y != x {
                    assert(u.to_multiset().count(y) > 0);
                    assert(u.to_multiset() =~= t.to_multiset().insert(x));
                    assert(t.to_multiset().insert(x).count(y) == t.to_multiset().count(y));
                    assert(t.to_multiset().count(y) > 0);
                    assert(t.contains(y));
                    let k = choose|k: int| 0 <= k < t.len() && t[k] == y;
                    assert(s[k + 1] == y);
                    assert(!s[k + 1].before(&s[0]));
                }
            } else {
                assert(r[a] == u[a - 1] && r[b] == u[b - 1]);
            }
        }
    }
}

/// Sorting text puts it in order and keeps how often each text occurs.
pub proof fn lemma_sorted_texts(s: Seq<Text>)
    ensures
        in_order(sorted_spec(s)),
        forall|k: Seq<char>|
            #[trigger] occurrences(text_views(sorted_spec(s)), k) == occurrences(text_views(s), k),
    decreases s.len(),
{
    if s.len() > 0 {
        let p = s.drop_last();
        lemma_sorted_texts(p);
        lemma_insert_sorted_in_order(sorted_spec(p), s.last());
        assert forall|k: Seq<char>|
            #[trigger] occurrences(text_views(sorted_spec(s)), k) == occurrences(text_views(s), k) by {
            lemma_insert_sorted_occurrences(sorted_spec(p), s.last(), k);
            assert(text_views(s) =~= text_views(p) + seq![s.last().0@]);
            lemma_occurrences_concat(text_views(p), seq![s.last().0@], k);
        }
    }
}

/// Sorts strings by `String`'s order.
pub fn sort_strings(v: Vec<String>) -> (r: Vec<String>)
    ensures
        texts(r@) == sorted_spec(texts(v@)),
{
    let mut w: Vec<Text> = Vec::new();
    let mut v = v;
    let ghost orig = v@;
    let n0 = v.len();
    assert(orig.len() == n0);
    let mut k: usize = 0;
    while v.len() > 0
        invariant
            k + v@.len() == orig.len(),
            orig.len() <= usize::MAX,
            v@ == orig.skip(k as int),
            w@ == texts(orig.take(k as int)),
        decreases v.len(),
    {
        let x = v.remove(0);
        w.push(Text(x));
        k = k + 1;
        assert(v@ =~= orig.skip(k as int));
        assert(w@ =~= texts(orig.take(k as int)));
    }
    assert(orig.take(k as int) =~= orig);
    let s = sort_stable(w);
    let ghost sv = s@;
    let mut s = s;
    let n1 = s.len();
    assert(sv.len() == n1);
    let mut out: Vec<String> = Vec::new();
    let mut j: usize = 0;
    while s.len() > 0
        invariant
            j + s@.len() == sv.len(),
            sv.len() <= usize::MAX,
            s@ == sv.skip(j as int),
            texts(out@) == sv.take(j as int),
        decreases s.len(),
    {
        let t = s.remove(0);
        assert(t == sv[j as int]);
        let Text(x) = t;
        let ghost prev = out@;
        out.push(x);
        assert(out@ == prev.push(t.0));
        assert(texts(prev).len() == prev.len());
        assert(sv.take(j as int).len() == j);
        assert(prev.len() == j);
        assert(out@.len() == j + 1);
        assert(Text(t.0) == t);
        assert forall|i: int| 0 <= i < j + 1 implies texts(out@)[i] == sv[i] by {
            assert(texts(out@)[i] == Text(out@[i]));
            if i < j {
                assert(out@[i] == prev[i]);
                assert(texts(prev)[i] == Text(prev[i]));
                assert(texts(prev)[i] == sv.take(j as int)[i]);
            } else {
                assert(out@[i] == t.0);
            }
        }
        j = j + 1;
        assert(s@ =~= sv.skip(j as int));
        assert(texts(out@) =~= sv.take(j as int));
    }
    assert(sv.take(j as int) =~= sv);
    out
}

} // verus!
