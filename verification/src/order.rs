//! Stable ordering of named items by name.
use crate::text::{lemma_seq_less_asym, lemma_seq_less_trans, seq_less, str_less};
use vstd::prelude::*;

verus! {

/// Values that are ordered by a name.
pub trait NamedKey {
    spec fn key(&self) -> Seq<char>;
}

/// Items that are ordered by a name they can hand out.
pub trait Named: NamedKey {
    fn name_str(&self) -> (r: &str)
        ensures
            r@ == self.key(),
    ;
}

/// Where a stable insertion puts `x` among the first `p` items: after every
/// item whose name is not greater than `x`'s.
pub open spec fn back_pos<T: NamedKey>(s: Seq<T>, x: T, p: int) -> int
    decreases p,
{
    if p <= 0 || p > s.len() {
        if p <= 0 {
            0
        } else {
            p
        }
    } else if seq_less(x.key(), s[p - 1].key()) {
        back_pos(s, x, p - 1)
    } else {
        p
    }
}

/// `s` with `x` inserted after the last item whose name is not greater.
pub open spec fn insert_by_name<T: NamedKey>(s: Seq<T>, x: T) -> Seq<T> {
    s.insert(back_pos(s, x, s.len() as int), x)
}

/// The items of `s` sorted by name, keeping the order of equal names
/// (what a stable sort by name gives).
pub open spec fn sorted_by_name<T: NamedKey>(s: Seq<T>) -> Seq<T>
    decreases s.len(),
{
    if s.len() == 0 {
        s
    } else {
        insert_by_name(sorted_by_name(s.drop_last()), s.last())
    }
}

/// Names never decrease along the sequence.
pub open spec fn names_ascending<T: NamedKey>(s: Seq<T>) -> bool {
    forall|i: int, j: int| 0 <= i < j < s.len() ==> !seq_less(#[trigger] s[j].key(), #[trigger] s[i].key())
}

proof fn lemma_back_pos_bounds<T: NamedKey>(s: Seq<T>, x: T, p: int)
    requires
        0 <= p <= s.len(),
    ensures
        0 <= back_pos(s, x, p) <= p,
        forall|k: int| back_pos(s, x, p) <= k < p ==> seq_less(x.key(), #[trigger] s[k].key()),
        back_pos(s, x, p) > 0 ==> !seq_less(x.key(), s[back_pos(s, x, p) - 1].key()),
    decreases p,
{
    if p > 0 && seq_less(x.key(), s[p - 1].key()) {
        lemma_back_pos_bounds(s, x, p - 1);
    }
}

/// Stable insertion sort yields a name-ordered permutation.
pub proof fn lemma_sorted_by_name<T: NamedKey>(s: Seq<T>)
    ensures
        names_ascending(sorted_by_name(s)),
        sorted_by_name(s).to_multiset() == s.to_multiset(),
        sorted_by_name(s).len() == s.len(),
    decreases s.len(),
{
    if s.len() > 0 {
        let r = sorted_by_name(s.drop_last());
        lemma_sorted_by_name(s.drop_last());
        let x = s.last();
        let p = back_pos(r, x, r.len() as int);
        lemma_back_pos_bounds(r, x, r.len() as int);
        vstd::seq_lib::to_multiset_insert(r, p, x);
        vstd::seq_lib::to_multiset_build(s.drop_last(), x);
        assert(s.drop_last().push(x) =~= s);
        let n = r.insert(p, x);
        assert forall|i: int, j: int| 0 <= i < j < n.len() implies !seq_less(
            #[trigger] n[j].key(),
            #[trigger] n[i].key(),
        ) by {
            if j < p {
                assert(n[i] == r[i] && n[j] == r[j]);
            } else if j == p {
                assert(n[i] == r[i]);
                assert(!seq_less(x.key(), r[p - 1].key()));
                if i < p - 1 {
                    assert(!seq_less(r[p - 1].key(), r[i].key()));
                    lemma_seq_less_total(r[i].key(), r[p - 1].key());
                    if seq_less(x.key(), r[i].key()) && seq_less(r[i].key(), r[p - 1].key()) {
                        lemma_seq_less_trans(x.key(), r[i].key(), r[p - 1].key());
                    }
                }
            } else if i > p {
                assert(n[i] == r[i - 1] && n[j] == r[j - 1]);
            } else if i == p {
                assert(n[j] == r[j - 1]);
                assert(seq_less(x.key(), r[j - 1].key()));
                lemma_seq_less_asym(x.key(), r[j - 1].key());
            } else {
                assert(n[i] == r[i] && n[j] == r[j - 1]);
            }
        }
    }
}

/// Two different names are ordered one way or the other.
pub proof fn lemma_seq_less_total(a: Seq<char>, b: Seq<char>)
    ensures
        a != b ==> seq_less(a, b) || seq_less(b, a),
    decreases a.len(),
{
    if a.len() > 0 && b.len() > 0 && a[0] == b[0] {
        lemma_seq_less_total(a.drop_first(), b.drop_first());
        if a.drop_first() == b.drop_first() {
            assert(a =~= seq![a[0]] + a.drop_first());
            assert(b =~= seq![b[0]] + b.drop_first());
        }
    } else if a.len() == 0 && b.len() == 0 {
        assert(a =~= b);
    } else if a.len() > 0 && b.len() > 0 {
        vstd::utf8::char_u32_cast(a[0], a[0] as u32);
        vstd::utf8::char_u32_cast(b[0], b[0] as u32);
    }
}

/// Sorts items by name, stably.
pub fn sort_by_name<T: Named>(v: Vec<T>) -> (r: Vec<T>)
    ensures
        r@ == sorted_by_name(v@),
{
    let mut out: Vec<T> = Vec::new();
    let mut v = v;
    let ghost orig = v@;
    assert(orig.len() == v.len());
    let mut rest: Vec<T> = Vec::new();
    // Take items from the back so each one can be moved out.
    while v.len() > 0
        invariant
            orig == v@ + rest@.reverse(),
        decreases v@.len(),
    {
        let x = v.pop().unwrap();
        let ghost before = rest@;
        rest.push(x);
        assert(rest@.reverse() =~= seq![x] + before.reverse());
        assert(orig =~= v@ + rest@.reverse());
    }
    assert(v@ =~= Seq::<T>::empty());
    assert(orig =~= rest@.reverse());
    let mut i: usize = 0;
    assert(orig.subrange(0, 0) =~= Seq::<T>::empty());
    assert(orig.subrange(0, orig.len() as int) =~= orig);
    while rest.len() > 0
        invariant
            i <= orig.len(),
            orig.len() <= usize::MAX,
            rest@.reverse() == orig.subrange(i as int, orig.len() as int),
            out@ == sorted_by_name(orig.subrange(0, i as int)),
        decreases rest@.len(),
    {
        let ghost before = rest@;
        let x = rest.pop().unwrap();
        proof {
            assert(before.reverse().len() > 0);
            assert(i < orig.len());
            assert(before.reverse()[0] == x);
            assert(rest@.reverse() =~= before.reverse().drop_first());
            assert(orig.subrange(i as int, orig.len() as int)[0] == orig[i as int]);
            assert(orig.subrange(i as int + 1, orig.len() as int) =~= orig.subrange(i as int, orig.len() as int).drop_first());
        }
        let mut pos = out.len();
        while pos > 0 && str_less(x.name_str(), out[pos - 1].name_str())
            invariant
                pos <= out@.len(),
                back_pos(out@, x, pos as int) == back_pos(out@, x, out@.len() as int),
            decreases pos,
        {
            pos = pos - 1;
        }
        proof {
            assert(orig.subrange(0, i as int + 1).drop_last() =~= orig.subrange(0, i as int));
            assert(orig.subrange(0, i as int + 1).last() == x);
        }
        out.insert(pos, x);
        i = i + 1;
    }
    assert(rest@.reverse().len() == 0);
    assert(orig.subrange(0, i as int) =~= orig);
    out
}

/// Sorting two sequences whose items pair up one to one, with equal names at
/// each position, pairs up the sorted results the same way.
pub proof fn lemma_sorted_by_name_pairs<T: NamedKey, U: NamedKey>(a: Seq<T>, b: Seq<U>, rel: spec_fn(T, U) -> bool)
    requires
        a.len() == b.len(),
        forall|i: int| 0 <= i < a.len() ==> #[trigger] rel(a[i], b[i]) && a[i].key() == b[i].key(),
    ensures
        sorted_by_name(a).len() == sorted_by_name(b).len(),
        forall|i: int| 0 <= i < sorted_by_name(a).len() ==> #[trigger] rel(sorted_by_name(a)[i], sorted_by_name(b)[i])
            && sorted_by_name(a)[i].key() == sorted_by_name(b)[i].key(),
    decreases a.len(),
{
    if a.len() > 0 {
        assert forall|i: int| 0 <= i < a.drop_last().len() implies #[trigger] rel(a.drop_last()[i], b.drop_last()[i])
            && a.drop_last()[i].key() == b.drop_last()[i].key() by {
            assert(rel(a[i], b[i]));
        }
        lemma_sorted_by_name_pairs(a.drop_last(), b.drop_last(), rel);
        let ra = sorted_by_name(a.drop_last());
        let rb = sorted_by_name(b.drop_last());
        let k = a.len() - 1;
        assert(rel(a[k], b[k]));
        assert(a.last() == a[k] && b.last() == b[k]);
        lemma_sorted_by_name(a.drop_last());
        lemma_sorted_by_name(b.drop_last());
        lemma_back_pos_pairs(ra, rb, a.last(), b.last(), rel, ra.len() as int);
        let p = back_pos(ra, a.last(), ra.len() as int);
        lemma_back_pos_bounds(ra, a.last(), ra.len() as int);
        let na = ra.insert(p, a.last());
        let nb = rb.insert(p, b.last());
        assert forall|i: int| 0 <= i < na.len() implies #[trigger] rel(na[i], nb[i]) && na[i].key() == nb[i].key() by {
            if i < p {
                assert(na[i] == ra[i] && nb[i] == rb[i]);
            } else if i > p {
                assert(na[i] == ra[i - 1] && nb[i] == rb[i - 1]);
            }
        }
    }
}

proof fn lemma_back_pos_pairs<T: NamedKey, U: NamedKey>(a: Seq<T>, b: Seq<U>, x: T, y: U, rel: spec_fn(T, U) -> bool, p: int)
    requires
        a.len() == b.len(),
        0 <= p <= a.len(),
        x.key() == y.key(),
        forall|i: int| 0 <= i < a.len() ==> #[trigger] rel(a[i], b[i]) && a[i].key() == b[i].key(),
    ensures
        back_pos(a, x, p) == back_pos(b, y, p),
    decreases p,
{
    if p > 0 {
        assert(rel(a[p - 1], b[p - 1]));
        lemma_back_pos_pairs(a, b, x, y, rel, p - 1);
    }
}

} // verus!
