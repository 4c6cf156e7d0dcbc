//! Stable ordering of entries by size, largest first.
//!
//! Directory listings and cleanup reports are presented with the biggest
//! items first; items of equal size keep the order in which they were found.
use vstd::prelude::*;
use vstd::seq_lib::*;

verus! {

/// An item that carries a size in bytes by which it is ordered.
pub trait SizeKeyed: Sized {
    /// The size by which the item is ordered.
    spec fn size_key(&self) -> u64;

    /// Returns the size by which the item is ordered.
    fn key(&self) -> (r: u64)
        ensures
            r == self.size_key(),
    ;
}

/// Inserts `x` into `t` in front of the first item whose size is not larger
/// than the size of `x`.
pub open spec fn insert_desc<T: SizeKeyed>(x: T, t: Seq<T>) -> Seq<T>
    decreases t.len(),
{
    if t.len() == 0 {
        seq![x]
    } else if t[0].size_key() <= x.size_key() {
        seq![x] + t
    } else {
        seq![t[0]] + insert_desc(x, t.drop_first())
    }
}

/// The stable descending order of `s` by size: larger items first, items of
/// equal size in their order in `s`.
pub open spec fn sort_desc<T: SizeKeyed>(s: Seq<T>) -> Seq<T>
    decreases s.len(),
{
    if s.len() == 0 {
        s
    } else {
        insert_desc(s[0], sort_desc(s.drop_first()))
    }
}

/// No item is larger than an item before it.
pub open spec fn is_sorted_desc<T: SizeKeyed>(s: Seq<T>) -> bool {
    forall|i: int, j: int| 0 <= i < j < s.len() ==> s[i].size_key() >= s[j].size_key()
}

/// Selects the items of size `k`.
pub open spec fn has_size<T: SizeKeyed>(k: u64) -> spec_fn(T) -> bool {
    |e: T| e.size_key() == k
}

proof fn lemma_insert_len_sorted<T: SizeKeyed>(x: T, t: Seq<T>)
    requires
        is_sorted_desc(t),
    ensures
        insert_desc(x, t).len() == t.len() + 1,
        is_sorted_desc(insert_desc(x, t)),
        insert_desc(x, t).len() > 0 && (t.len() > 0 ==> insert_desc(x, t)[0].size_key() >= t[0].size_key()),
    decreases t.len(),
{
    if t.len() == 0 {
    } else if t[0].size_key() <= x.size_key() {
        let r = seq![x] + t;
        assert forall|i: int, j: int| 0 <= i < j < r.len() implies r[i].size_key() >= r[j].size_key() by {
            if i > 0 {
                assert(r[i] == t[i - 1]);
            }
            assert(r[j] == t[j - 1]);
        }
    } else {
        let rest = t.drop_first();
        assert(is_sorted_desc(rest)) by {
            assert forall|i: int, j: int| 0 <= i < j < rest.len() implies rest[i].size_key()
                >= rest[j].size_key() by {
                assert(rest[i] == t[i + 1]);
                assert(rest[j] == t[j + 1]);
            }
        }
        lemma_insert_len_sorted(x, rest);
        let ins = insert_desc(x, rest);
        let r = seq![t[0]] + ins;
        // the first item of `ins` is `x` or the first item of `rest`, both not larger than t[0]
        if rest.len() > 0 {
            lemma_insert_head(x, rest);
            assert(rest[0] == t[1]);
        }
        assert(ins[0].size_key() <= t[0].size_key());
        assert forall|k: int| 0 <= k < ins.len() implies ins[k].size_key() <= t[0].size_key() by {
            if k > 0 {
                assert(ins[0].size_key() >= ins[k].size_key());
            }
        }
        assert forall|i: int, j: int| 0 <= i < j < r.len() implies r[i].size_key() >= r[j].size_key() by {
            assert(r[j] == ins[j - 1]);
            if i > 0 {
                assert(r[i] == ins[i - 1]);
            }
        }
    }
}

proof fn lemma_insert_head<T: SizeKeyed>(x: T, t: Seq<T>)
    requires
        t.len() > 0,
    ensures
        insert_desc(x, t)[0] == x || insert_desc(x, t)[0] == t[0],
{
}

/// The stable order is sorted and as long as its input.
pub proof fn lemma_sort_desc_sorted<T: SizeKeyed>(s: Seq<T>)
    ensures
        sort_desc(s).len() == s.len(),
        is_sorted_desc(sort_desc(s)),
    decreases s.len(),
{
    if s.len() > 0 {
        lemma_sort_desc_sorted(s.drop_first());
        lemma_insert_len_sorted(s[0], sort_desc(s.drop_first()));
    }
}

proof fn lemma_insert_multiset<T: SizeKeyed>(x: T, t: Seq<T>)
    ensures
        insert_desc(x, t).to_multiset() =~= t.to_multiset().insert(x),
    decreases t.len(),
{
    broadcast use group_to_multiset_ensures, vstd::multiset::group_multiset_axioms;

    if t.len() == 0 {
        assert(seq![x] =~= Seq::<T>::empty().push(x));
    } else if t[0].size_key() <= x.size_key() {
        lemma_multiset_commutative(seq![x], t);
        assert(seq![x] =~= Seq::<T>::empty().push(x));
    } else {
        let rest = t.drop_first();
        lemma_insert_multiset(x, rest);
        lemma_multiset_commutative(seq![t[0]], insert_desc(x, rest));
        lemma_multiset_commutative(seq![t[0]], rest);
        assert(t =~= seq![t[0]] + rest);
        assert(seq![t[0]] =~= Seq::<T>::empty().push(t[0]));
    }
}

/// The stable order holds the same items as its input.
pub proof fn lemma_sort_desc_permutation<T: SizeKeyed>(s: Seq<T>)
    ensures
        sort_desc(s).to_multiset() =~= s.to_multiset(),
    decreases s.len(),
{
    broadcast use group_to_multiset_ensures, vstd::multiset::group_multiset_axioms;

    if s.len() > 0 {
        let rest = s.drop_first();
        lemma_sort_desc_permutation(rest);
        lemma_insert_multiset(s[0], sort_desc(rest));
        lemma_multiset_commutative(seq![s[0]], rest);
        assert(s =~= seq![s[0]] + rest);
        assert(seq![s[0]] =~= Seq::<T>::empty().push(s[0]));
    }
}

proof fn lemma_insert_filter<T: SizeKeyed>(x: T, t: Seq<T>, k: u64)
    ensures
        insert_desc(x, t).filter(has_size(k)) == (if x.size_key() == k {
            seq![x]
        } else {
            Seq::<T>::empty()
        }) + t.filter(has_size(k)),
    decreases t.len(),
{
    broadcast use Seq::lemma_filter_prepend;

    let p = has_size::<T>(k);
    if t.len() == 0 {
        Seq::<T>::empty().lemma_filter_prepend(x, p);
        assert(seq![x] =~= seq![x] + Seq::<T>::empty());
        assert(Seq::<T>::empty().filter(p) =~= Seq::<T>::empty()) by {
            reveal(Seq::filter);
        }
    } else if t[0].size_key() <= x.size_key() {
        t.lemma_filter_prepend(x, p);
    } else {
        let rest = t.drop_first();
        lemma_insert_filter(x, rest, k);
        insert_desc(x, rest).lemma_filter_prepend(t[0], p);
        rest.lemma_filter_prepend(t[0], p);
        assert(t =~= seq![t[0]] + rest);
        if x.size_key() == k {
            assert(!p(t[0]));
            assert(Seq::<T>::empty() + (seq![x] + rest.filter(p)) =~= seq![x] + (
            Seq::<T>::empty() + rest.filter(p)));
        } else {
            if p(t[0]) {
                assert(seq![t[0]] + (Seq::<T>::empty() + rest.filter(p)) =~= Seq::<T>::empty() + (
                seq![t[0]] + rest.filter(p)));
            } else {
                assert(Seq::<T>::empty() + (Seq::<T>::empty() + rest.filter(p)) =~= Seq::<
                    T,
                >::empty() + (Seq::<T>::empty() + rest.filter(p)));
            }
        }
    }
}

/// The order is stable: for every size, the items of that size appear in the
/// sorted sequence in the same order as in the input.
pub proof fn lemma_sort_desc_stable<T: SizeKeyed>(s: Seq<T>, k: u64)
    ensures
        sort_desc(s).filter(has_size(k)) == s.filter(has_size(k)),
    decreases s.len(),
{
    broadcast use Seq::lemma_filter_prepend;

    if s.len() > 0 {
        let rest = s.drop_first();
        lemma_sort_desc_stable(rest, k);
        lemma_insert_filter(s[0], sort_desc(rest), k);
        rest.lemma_filter_prepend(s[0], has_size(k));
        assert(s =~= seq![s[0]] + rest);
    }
}

proof fn lemma_insert_map<T: SizeKeyed, U: SizeKeyed>(x: T, t: Seq<T>, f: spec_fn(T) -> U)
    requires
        forall|y: T| #[trigger] f(y).size_key() == y.size_key(),
    ensures
        insert_desc(x, t).map_values(f) =~= insert_desc(f(x), t.map_values(f)),
    decreases t.len(),
{
    if t.len() == 0 {
    } else if t[0].size_key() <= x.size_key() {
        assert(f(t[0]).size_key() == t[0].size_key());
        assert(t.map_values(f)[0] == f(t[0]));
    } else {
        assert(f(t[0]).size_key() == t[0].size_key());
        assert(f(x).size_key() == x.size_key());
        assert(t.map_values(f)[0] == f(t[0]));
        lemma_insert_map(x, t.drop_first(), f);
        assert(t.drop_first().map_values(f) =~= t.map_values(f).drop_first());
    }
}

/// Sorting commutes with a mapping that keeps every item's size.
pub proof fn lemma_sort_desc_map<T: SizeKeyed, U: SizeKeyed>(s: Seq<T>, f: spec_fn(T) -> U)
    requires
        forall|y: T| #[trigger] f(y).size_key() == y.size_key(),
    ensures
        sort_desc(s).map_values(f) =~= sort_desc(s.map_values(f)),
    decreases s.len(),
{
    if s.len() > 0 {
        lemma_sort_desc_map(s.drop_first(), f);
        lemma_insert_map(s[0], sort_desc(s.drop_first()), f);
        assert(s.drop_first().map_values(f) =~= s.map_values(f).drop_first());
        assert(s.map_values(f)[0] == f(s[0]));
    }
}

/// The stable merge of two sequences sorted by size: at each step the
/// larger head comes first, the head of `a` on equal sizes.
pub open spec fn merge_desc<T: SizeKeyed>(a: Seq<T>, b: Seq<T>) -> Seq<T>
    decreases a.len() + b.len(),
{
    if a.len() == 0 {
        b
    } else if b.len() == 0 {
        a
    } else if a[0].size_key() >= b[0].size_key() {
        seq![a[0]] + merge_desc(a.drop_first(), b)
    } else {
        seq![b[0]] + merge_desc(a, b.drop_first())
    }
}

/// Every item has size at most `m`.
pub open spec fn all_at_most<T: SizeKeyed>(s: Seq<T>, m: u64) -> bool {
    forall|i: int| 0 <= i < s.len() ==> #[trigger] s[i].size_key() <= m
}

proof fn lemma_sorted_tail<T: SizeKeyed>(s: Seq<T>)
    requires
        is_sorted_desc(s),
        s.len() > 0,
    ensures
        is_sorted_desc(s.drop_first()),
        all_at_most(s, s[0].size_key()),
{
    assert forall|i: int, j: int| 0 <= i < j < s.drop_first().len() implies s.drop_first()[i].size_key()
        >= s.drop_first()[j].size_key() by {
        assert(s.drop_first()[i] == s[i + 1]);
        assert(s.drop_first()[j] == s[j + 1]);
    }
    assert forall|i: int| 0 <= i < s.len() implies #[trigger] s[i].size_key() <= s[0].size_key() by {
        if i > 0 {
            assert(s[0].size_key() >= s[i].size_key());
        }
    }
}

proof fn lemma_sorted_cons<T: SizeKeyed>(x: T, s: Seq<T>)
    requires
        is_sorted_desc(s),
        all_at_most(s, x.size_key()),
    ensures
        is_sorted_desc(seq![x] + s),
{
    let r = seq![x] + s;
    assert forall|i: int, j: int| 0 <= i < j < r.len() implies r[i].size_key() >= r[j].size_key() by {
        assert(r[j] == s[j - 1]);
        if i > 0 {
            assert(r[i] == s[i - 1]);
        }
    }
}

proof fn lemma_merge_desc<T: SizeKeyed>(a: Seq<T>, b: Seq<T>, m: u64)
    requires
        is_sorted_desc(a),
        is_sorted_desc(b),
    ensures
        merge_desc(a, b).len() == a.len() + b.len(),
        is_sorted_desc(merge_desc(a, b)),
        all_at_most(a, m) && all_at_most(b, m) ==> all_at_most(merge_desc(a, b), m),
        forall|k: u64| #[trigger] merge_desc(a, b).filter(has_size(k)) == a.filter(has_size(k)) + b.filter(has_size(k)),
    decreases a.len() + b.len(),
{
    broadcast use Seq::lemma_filter_prepend;

    if a.len() == 0 {
        assert forall|k: u64| #[trigger] merge_desc(a, b).filter(has_size(k)) == a.filter(has_size(k)) + b.filter(has_size(k)) by {
            reveal(Seq::filter);
            assert(a.filter(has_size(k)) =~= Seq::<T>::empty());
            assert(b.filter(has_size(k)) =~= a.filter(has_size(k)) + b.filter(has_size(k)));
        }
    } else if b.len() == 0 {
        assert forall|k: u64| #[trigger] merge_desc(a, b).filter(has_size(k)) == a.filter(has_size(k)) + b.filter(has_size(k)) by {
            reveal(Seq::filter);
            assert(b.filter(has_size(k)) =~= Seq::<T>::empty());
            assert(a.filter(has_size(k)) =~= a.filter(has_size(k)) + b.filter(has_size(k)));
        }
    } else if a[0].size_key() >= b[0].size_key() {
        let a2 = a.drop_first();
        lemma_sorted_tail(a);
        lemma_sorted_tail(b);
        lemma_merge_desc(a2, b, m);
        lemma_merge_desc(a2, b, a[0].size_key());
        lemma_sorted_cons(a[0], merge_desc(a2, b));
        assert(a =~= seq![a[0]] + a2);
        assert forall|k: u64| #[trigger] merge_desc(a, b).filter(has_size(k)) == a.filter(has_size(k)) + b.filter(has_size(k)) by {
            merge_desc(a2, b).lemma_filter_prepend(a[0], has_size(k));
            a2.lemma_filter_prepend(a[0], has_size(k));
            assert(merge_desc(a2, b).filter(has_size(k)) == a2.filter(has_size(k)) + b.filter(has_size(k)));
            if a[0].size_key() == k {
                assert(seq![a[0]] + (a2.filter(has_size(k)) + b.filter(has_size(k))) =~= (seq![a[0]] + a2.filter(has_size(k))) + b.filter(has_size(k)));
            } else {
                assert(Seq::<T>::empty() + (a2.filter(has_size(k)) + b.filter(has_size(k))) =~= (Seq::<T>::empty() + a2.filter(has_size(k))) + b.filter(has_size(k)));
            }
        }
        if all_at_most(a, m) && all_at_most(b, m) {
            assert(all_at_most(a2, m));
            let r = merge_desc(a, b);
            assert forall|i: int| 0 <= i < r.len() implies #[trigger] r[i].size_key() <= m by {
                if i > 0 {
                    assert(r[i] == merge_desc(a2, b)[i - 1]);
                }
            }
        }
    } else {
        let b2 = b.drop_first();
        lemma_sorted_tail(a);
        lemma_sorted_tail(b);
        lemma_merge_desc(a, b2, m);
        lemma_merge_desc(a, b2, b[0].size_key());
        lemma_sorted_cons(b[0], merge_desc(a, b2));
        assert(b =~= seq![b[0]] + b2);
        assert forall|k: u64| #[trigger] merge_desc(a, b).filter(has_size(k)) == a.filter(has_size(k)) + b.filter(has_size(k)) by {
            merge_desc(a, b2).lemma_filter_prepend(b[0], has_size(k));
            b2.lemma_filter_prepend(b[0], has_size(k));
            assert(merge_desc(a, b2).filter(has_size(k)) == a.filter(has_size(k)) + b2.filter(has_size(k)));
            if b[0].size_key() == k {
                lemma_filter_absent(a, k);
                assert(seq![b[0]] + (a.filter(has_size(k)) + b2.filter(has_size(k))) =~= a.filter(has_size(k)) + (seq![b[0]] + b2.filter(has_size(k))));
            } else {
                assert(Seq::<T>::empty() + (a.filter(has_size(k)) + b2.filter(has_size(k))) =~= a.filter(has_size(k)) + (Seq::<T>::empty() + b2.filter(has_size(k))));
            }
        }
        if all_at_most(a, m) && all_at_most(b, m) {
            assert(all_at_most(b2, m));
            let r = merge_desc(a, b);
            assert forall|i: int| 0 <= i < r.len() implies #[trigger] r[i].size_key() <= m by {
                if i > 0 {
                    assert(r[i] == merge_desc(a, b2)[i - 1]);
                }
            }
        }
    }
}

/// A sorted sequence whose first item is smaller than `k` holds no item of
/// size `k`.
proof fn lemma_filter_absent<T: SizeKeyed>(a: Seq<T>, k: u64)
    requires
        is_sorted_desc(a),
        a.len() > 0 ==> a[0].size_key() < k,
    ensures
        a.filter(has_size(k)) =~= Seq::<T>::empty(),
    decreases a.len(),
{
    broadcast use Seq::lemma_filter_prepend;

    if a.len() == 0 {
        reveal(Seq::filter);
    } else {
        lemma_sorted_tail(a);
        if a.len() > 1 {
            assert(a.drop_first()[0] == a[1]);
        }
        lemma_filter_absent(a.drop_first(), k);
        a.drop_first().lemma_filter_prepend(a[0], has_size(k));
        assert(a =~= seq![a[0]] + a.drop_first());
    }
}

/// A sorted sequence holding an item of size `k` begins with an item of
/// size at least `k`.
proof fn lemma_filter_bound<T: SizeKeyed>(b: Seq<T>, k: u64)
    requires
        is_sorted_desc(b),
        b.filter(has_size(k)).len() > 0,
    ensures
        b.len() > 0,
        k <= b[0].size_key(),
{
    if b.len() == 0 {
        reveal(Seq::filter);
    } else if b[0].size_key() < k {
        lemma_filter_absent(b, k);
    }
}

/// Two sequences sorted by size that hold the same items of every size, in
/// the same order, are equal.
pub proof fn lemma_sorted_unique<T: SizeKeyed>(a: Seq<T>, b: Seq<T>)
    requires
        is_sorted_desc(a),
        is_sorted_desc(b),
        forall|k: u64| #[trigger] a.filter(has_size(k)) == b.filter(has_size(k)),
    ensures
        a == b,
    decreases a.len() + b.len(),
{
    broadcast use Seq::lemma_filter_prepend;

    if a.len() == 0 && b.len() == 0 {
        assert(a =~= b);
    } else if a.len() == 0 {
        let k = b[0].size_key();
        b.drop_first().lemma_filter_prepend(b[0], has_size(k));
        assert(b =~= seq![b[0]] + b.drop_first());
        assert(a.filter(has_size(k)) == b.filter(has_size(k)));
        lemma_filter_bound(a, k);
    } else if b.len() == 0 {
        let k = a[0].size_key();
        a.drop_first().lemma_filter_prepend(a[0], has_size(k));
        assert(a =~= seq![a[0]] + a.drop_first());
        assert(a.filter(has_size(k)) == b.filter(has_size(k)));
        lemma_filter_bound(b, k);
    } else {
        let ka = a[0].size_key();
        let kb = b[0].size_key();
        let a2 = a.drop_first();
        let b2 = b.drop_first();
        assert(a =~= seq![a[0]] + a2);
        assert(b =~= seq![b[0]] + b2);
        a2.lemma_filter_prepend(a[0], has_size(ka));
        b2.lemma_filter_prepend(b[0], has_size(kb));
        assert(a.filter(has_size(ka)) == b.filter(has_size(ka)));
        assert(a.filter(has_size(kb)) == b.filter(has_size(kb)));
        lemma_filter_bound(b, ka);
        lemma_filter_bound(a, kb);
        assert(ka == kb);
        lemma_sorted_tail(a);
        lemma_sorted_tail(b);
        assert forall|k: u64| #[trigger] a2.filter(has_size(k)) == b2.filter(has_size(k)) by {
            a2.lemma_filter_prepend(a[0], has_size(k));
            b2.lemma_filter_prepend(b[0], has_size(k));
            assert(a.filter(has_size(k)) == b.filter(has_size(k)));
            if ka == k {
                assert((seq![a[0]] + a2.filter(has_size(k)))[0] == a[0]);
                assert((seq![a[0]] + a2.filter(has_size(k))).drop_first() =~= a2.filter(has_size(k)));
                assert((seq![b[0]] + b2.filter(has_size(k))).drop_first() =~= b2.filter(has_size(k)));
            } else {
                assert(Seq::<T>::empty() + a2.filter(has_size(k)) =~= a2.filter(has_size(k)));
                assert(Seq::<T>::empty() + b2.filter(has_size(k)) =~= b2.filter(has_size(k)));
            }
        }
        assert((seq![a[0]] + a2.filter(has_size(ka)))[0] == (seq![b[0]] + b2.filter(has_size(ka)))[0]);
        lemma_sorted_unique(a2, b2);
    }
}

/// Moves the items of `v` into a queue, in order.
fn into_queue<T>(v: Vec<T>) -> (q: std::collections::VecDeque<T>)
    ensures
        q@ == v@,
{
    let mut v = v;
    let ghost s = v@;
    let mut q: std::collections::VecDeque<T> = std::collections::VecDeque::new();
    while v.len() > 0
        invariant
            v@ + q@ == s,
        decreases v@.len(),
    {
        let x = v.pop().unwrap();
        let ghost before = v@;
        q.push_front(x);
        proof {
            assert(v@ + q@ =~= s);
        }
    }
    proof {
        assert(q@ =~= v@ + q@);
    }
    q
}

/// Merges two vectors sorted by size; see `merge_desc`.
fn merge_vecs<T: SizeKeyed>(a: Vec<T>, b: Vec<T>) -> (r: Vec<T>)
    ensures
        r@ == merge_desc(a@, b@),
{
    let mut qa = into_queue(a);
    let mut qb = into_queue(b);
    let mut out: Vec<T> = Vec::new();
    while qa.len() > 0 || qb.len() > 0
        invariant
            out@ + merge_desc(qa@, qb@) == merge_desc(a@, b@),
        decreases qa@.len() + qb@.len(),
    {
        let ghost sa = qa@;
        let ghost sb = qb@;
        if qa.len() == 0 {
            let x = qb.pop_front().unwrap();
            out.push(x);
            proof {
                assert(sb =~= seq![x] + qb@);
                assert(merge_desc(sa, sb) =~= seq![x] + merge_desc(qa@, qb@)) by {
                    if qb@.len() == 0 {
                    }
                }
            }
        } else if qb.len() == 0 {
            let x = qa.pop_front().unwrap();
            out.push(x);
            proof {
                assert(sa =~= seq![x] + qa@);
            }
        } else {
            let ka = qa[0].key();
            let kb = qb[0].key();
            if ka >= kb {
                let x = qa.pop_front().unwrap();
                out.push(x);
                proof {
                    assert(sa.drop_first() =~= qa@);
                }
            } else {
                let x = qb.pop_front().unwrap();
                out.push(x);
                proof {
                    assert(sb.drop_first() =~= qb@);
                }
            }
        }
        proof {
            assert(out@ + merge_desc(qa@, qb@) =~= merge_desc(a@, b@));
        }
    }
    proof {
        assert(out@ =~= out@ + merge_desc(qa@, qb@));
    }
    out
}

/// Sorts `v` stably by size, largest first, by merging sorted halves.
fn merge_sort<T: SizeKeyed>(v: Vec<T>) -> (r: Vec<T>)
    ensures
        r@.len() == v@.len(),
        is_sorted_desc(r@),
        forall|k: u64| #[trigger] r@.filter(has_size(k)) == v@.filter(has_size(k)),
    decreases v@.len(),
{
    if v.len() <= 1 {
        proof {
            assert forall|k: u64| #[trigger] v@.filter(has_size(k)) == v@.filter(has_size(k)) by {}
        }
        return v;
    }
    let mut left = v;
    let mid = left.len() / 2;
    let ghost s = left@;
    let right = left.split_off(mid);
    proof {
        assert(s =~= left@ + right@);
    }
    let l = merge_sort(left);
    let r = merge_sort(right);
    let ghost ls = l@;
    let ghost rs = r@;
    let out = merge_vecs(l, r);
    proof {
        lemma_merge_desc(ls, rs, 0);
        assert forall|k: u64| #[trigger] out@.filter(has_size(k)) == s.filter(has_size(k)) by {
            assert(out@.filter(has_size(k)) == ls.filter(has_size(k)) + rs.filter(has_size(k)));
        }
    }
    out
}

/// Sorts `v` by size, largest first; items of equal size keep their order.
pub fn sort_by_size_desc<T: SizeKeyed>(v: &mut Vec<T>)
    ensures
        final(v)@ == sort_desc(old(v)@),
{
    let ghost s = v@;
    let mut input: Vec<T> = Vec::new();
    std::mem::swap(v, &mut input);
    let sorted = merge_sort(input);
    proof {
        lemma_sort_desc_sorted(s);
        assert forall|k: u64| #[trigger] sorted@.filter(has_size(k)) == sort_desc(s).filter(has_size(k)) by {
            lemma_sort_desc_stable(s, k);
        }
        lemma_sorted_unique(sorted@, sort_desc(s));
    }
    *v = sorted;
}

} // verus!
