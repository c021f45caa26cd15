//! Stable sorting by an integer key, used to order frames by their time
//! of day and schedule entries by their display order.
use vstd::prelude::*;
use vstd::seq_lib::lemma_multiset_commutative;

verus! {

/// A value ordered by an integer key.
pub trait SortKey: Sized {
    /// The key this value is ordered by.
    spec fn key(&self) -> int;

    /// The key as an executable value.
    fn key_val(&self) -> (k: i128)
        ensures
            k as int == self.key(),
    ;
}

/// `x` placed into `s` directly before the first element whose key is
/// strictly greater than `x`'s: after every element with an equal key.
pub open spec fn insert_sorted<T: SortKey>(x: T, s: Seq<T>) -> Seq<T>
    decreases s.len(),
{
    if s.len() == 0 {
        seq![x]
    } else if x.key() < s[0].key() {
        seq![x] + s
    } else {
        seq![s[0]] + insert_sorted(x, s.drop_first())
    }
}

/// Stable insertion sort: elements in key order, elements with equal
/// keys in their original order.
pub open spec fn stable_sort<T: SortKey>(s: Seq<T>) -> Seq<T>
    decreases s.len(),
{
    if s.len() == 0 {
        Seq::empty()
    } else {
        insert_sorted(s.last(), stable_sort(s.drop_last()))
    }
}

/// Keys are non-decreasing along `s`.
pub open spec fn sorted_by_key<T: SortKey>(s: Seq<T>) -> bool {
    forall|i: int, j: int|
        0 <= i <= j < s.len() ==> #[trigger] s[i].key() <= #[trigger] s[j].key()
}

/// The index before which `insert_sorted` places its element: the first
/// position holding a strictly greater key.
pub open spec fn insertion_point<T: SortKey>(x: T, s: Seq<T>) -> int
    decreases s.len(),
{
    if s.len() == 0 {
        0
    } else if x.key() < s[0].key() {
        0
    } else {
        1 + insertion_point(x, s.drop_first())
    }
}

/// The predicate selecting elements whose key is `k`.
pub open spec fn key_is<T: SortKey>(k: int) -> spec_fn(T) -> bool {
    |e: T| e.key() == k
}

pub proof fn lemma_insertion_point<T: SortKey>(x: T, s: Seq<T>)
    ensures
        0 <= insertion_point(x, s) <= s.len(),
        forall|j: int| 0 <= j < insertion_point(x, s) ==> #[trigger] s[j].key() <= x.key(),
        insertion_point(x, s) < s.len() ==> s[insertion_point(x, s)].key() > x.key(),
    decreases s.len(),
{
    if s.len() == 0 {
    } else if x.key() < s[0].key() {
    } else {
        lemma_insertion_point(x, s.drop_first());
        let ip = insertion_point(x, s);
        assert forall|j: int| 0 <= j < ip implies #[trigger] s[j].key() <= x.key() by {
            if j > 0 {
                assert(s.drop_first()[j - 1] == s[j]);
            }
        }
        if ip < s.len() {
            assert(s.drop_first()[ip - 1] == s[ip]);
        }
    }
}

/// `insert_sorted` is insertion at the position the scan in the
/// executable sort finds: the first index with a strictly greater key.
pub proof fn lemma_insert_sorted_at<T: SortKey>(x: T, s: Seq<T>, pos: int)
    requires
        0 <= pos <= s.len(),
        forall|j: int| 0 <= j < pos ==> #[trigger] s[j].key() <= x.key(),
        pos < s.len() ==> s[pos].key() > x.key(),
    ensures
        insert_sorted(x, s) == s.insert(pos, x),
    decreases s.len(),
{
    if pos == 0 {
        if s.len() == 0 {
            assert(insert_sorted(x, s) =~= s.insert(0, x));
        } else {
            assert(x.key() < s[0].key());
            assert(insert_sorted(x, s) =~= s.insert(0, x));
        }
    } else {
        assert(s[0].key() <= x.key());
        let df = s.drop_first();
        assert forall|j: int| 0 <= j < pos - 1 implies #[trigger] df[j].key() <= x.key() by {
            assert(df[j] == s[j + 1]);
        }
        assert(pos - 1 < df.len() ==> df[pos - 1].key() > x.key());
        lemma_insert_sorted_at(x, df, pos - 1);
        assert(seq![s[0]] + df.insert(pos - 1, x) =~= s.insert(pos, x));
    }
}

/// Inserting preserves sortedness.
pub proof fn lemma_insert_sorted_sorted<T: SortKey>(x: T, s: Seq<T>)
    requires
        sorted_by_key(s),
    ensures
        sorted_by_key(insert_sorted(x, s)),
{
    let ip = insertion_point(x, s);
    lemma_insertion_point(x, s);
    lemma_insert_sorted_at(x, s, ip);
    let r = s.insert(ip, x);
    s.insert_ensures(ip, x);
    assert forall|i: int, j: int| 0 <= i <= j < r.len() implies #[trigger] r[i].key()
        <= #[trigger] r[j].key() by {
        if i < ip {
            assert(r[i] == s[i]);
        }
        if ip < i {
            assert(r[i] == s[i - 1]);
        }
        if j < ip {
            assert(r[j] == s[j]);
        }
        if ip < j {
            assert(r[j] == s[j - 1]);
        }
    }
}

/// Inserting adds exactly the new element to the multiset of elements.
pub proof fn lemma_insert_sorted_multiset<T: SortKey>(x: T, s: Seq<T>)
    ensures
        insert_sorted(x, s).to_multiset() == s.to_multiset().insert(x),
{
    broadcast use vstd::seq_lib::group_seq_properties;

    let ip = insertion_point(x, s);
    lemma_insertion_point(x, s);
    lemma_insert_sorted_at(x, s, ip);
    let a = s.subrange(0, ip);
    let b = s.subrange(ip, s.len() as int);
    assert(s.insert(ip, x) == a.push(x) + b);
    lemma_multiset_commutative(a.push(x), b);
    assert(a.push(x).to_multiset() =~= a.to_multiset().insert(x));
    assert(s =~= a + b);
    lemma_multiset_commutative(a, b);
    assert(a.to_multiset().insert(x).add(b.to_multiset()) =~= a.to_multiset().add(
        b.to_multiset(),
    ).insert(x));
}

/// A filter keeps nothing when no element satisfies it.
proof fn lemma_filter_none<T>(s: Seq<T>, pred: spec_fn(T) -> bool)
    requires
        forall|i: int| 0 <= i < s.len() ==> !pred(s[i]),
    ensures
        s.filter(pred) == Seq::<T>::empty(),
    decreases s.len(),
{
    reveal(Seq::filter);
    if s.len() > 0 {
        lemma_filter_none(s.drop_last(), pred);
        assert(!pred(s.last()));
    }
    assert(s.filter(pred) =~= Seq::<T>::empty());
}

/// Filtering a singleton.
proof fn lemma_filter_one<T>(x: T, pred: spec_fn(T) -> bool)
    ensures
        seq![x].filter(pred) == if pred(x) {
            seq![x]
        } else {
            Seq::<T>::empty()
        },
{
    reveal(Seq::filter);
    assert(Seq::<T>::empty().filter(pred) =~= Seq::<T>::empty());
    assert(seq![x].drop_last() =~= Seq::<T>::empty());
    assert(seq![x].last() == x);
    if pred(x) {
        assert(seq![x].filter(pred) =~= seq![x]);
    } else {
        assert(seq![x].filter(pred) =~= Seq::<T>::empty());
    }
}

/// Inserting into a sorted sequence appends the new element to the end
/// of the run of its own key and leaves every other key's run alone.
proof fn lemma_insert_sorted_filter<T: SortKey>(x: T, s: Seq<T>, k: int)
    requires
        sorted_by_key(s),
    ensures
        insert_sorted(x, s).filter(key_is(k)) == if x.key() == k {
            s.filter(key_is(k)).push(x)
        } else {
            s.filter(key_is(k))
        },
    decreases s.len(),
{
    broadcast use Seq::filter_distributes_over_add;

    let pred = key_is::<T>(k);
    lemma_filter_one(x, pred);
    if s.len() == 0 {
        reveal(Seq::filter);
        if x.key() == k {
            assert(insert_sorted(x, s).filter(pred) =~= s.filter(pred).push(x));
        } else {
            assert(insert_sorted(x, s).filter(pred) =~= s.filter(pred));
        }
    } else if x.key() < s[0].key() {
        assert(insert_sorted(x, s) == seq![x] + s);
        assert((seq![x] + s).filter(pred) == seq![x].filter(pred) + s.filter(pred));
        if x.key() == k {
            assert(forall|i: int| 0 <= i < s.len() ==> !pred(s[i]));
            lemma_filter_none(s, pred);
            assert(seq![x].filter(pred) + s.filter(pred) =~= s.filter(pred).push(x));
        } else {
            assert(seq![x].filter(pred) + s.filter(pred) =~= s.filter(pred));
        }
    } else {
        let df = s.drop_first();
        assert forall|i: int, j: int| 0 <= i <= j < df.len() implies #[trigger] df[i].key()
            <= #[trigger] df[j].key() by {
            assert(df[i] == s[i + 1] && df[j] == s[j + 1]);
        }
        lemma_insert_sorted_filter(x, df, k);
        lemma_filter_one(s[0], pred);
        assert(insert_sorted(x, s) == seq![s[0]] + insert_sorted(x, df));
        assert((seq![s[0]] + insert_sorted(x, df)).filter(pred) == seq![s[0]].filter(pred)
            + insert_sorted(x, df).filter(pred));
        assert(s =~= seq![s[0]] + df);
        assert(s.filter(pred) == seq![s[0]].filter(pred) + df.filter(pred));
        if x.key() == k {
            assert(seq![s[0]].filter(pred) + df.filter(pred).push(x) =~= (seq![s[0]].filter(pred)
                + df.filter(pred)).push(x));
        }
    }
}

/// The sort returns a sorted sequence.
pub proof fn lemma_stable_sort_sorted<T: SortKey>(s: Seq<T>)
    ensures
        sorted_by_key(stable_sort(s)),
    decreases s.len(),
{
    if s.len() > 0 {
        lemma_stable_sort_sorted(s.drop_last());
        lemma_insert_sorted_sorted(s.last(), stable_sort(s.drop_last()));
    }
}

/// The sort returns a permutation of its input.
pub proof fn lemma_stable_sort_permutes<T: SortKey>(s: Seq<T>)
    ensures
        stable_sort(s).to_multiset() == s.to_multiset(),
        stable_sort(s).len() == s.len(),
    decreases s.len(),
{
    broadcast use vstd::seq_lib::group_seq_properties;

    s.to_multiset_ensures();
    stable_sort(s).to_multiset_ensures();
    if s.len() > 0 {
        lemma_stable_sort_permutes(s.drop_last());
        lemma_insert_sorted_multiset(s.last(), stable_sort(s.drop_last()));
        assert(s =~= s.drop_last().push(s.last()));
        s.drop_last().to_multiset_ensures();
        assert(s.drop_last().push(s.last()).to_multiset() =~= s.drop_last().to_multiset().insert(
            s.last(),
        ));
    }
}

/// Stability: for every key, the subsequence of elements carrying that
/// key comes out of the sort exactly as it went in, so elements with
/// equal keys keep their relative input order.
pub proof fn lemma_stable_sort_stable<T: SortKey>(s: Seq<T>, k: int)
    ensures
        stable_sort(s).filter(key_is(k)) == s.filter(key_is(k)),
    decreases s.len(),
{
    reveal(Seq::filter);
    let pred = key_is::<T>(k);
    if s.len() == 0 {
        assert(stable_sort(s).filter(pred) =~= s.filter(pred));
    } else {
        let dl = s.drop_last();
        lemma_stable_sort_stable(dl, k);
        lemma_stable_sort_sorted(dl);
        lemma_insert_sorted_filter(s.last(), stable_sort(dl), k);
        assert(s.filter(pred) == if pred(s.last()) {
            dl.filter(pred).push(s.last())
        } else {
            dl.filter(pred)
        });
    }
}

/// Sorts `v` stably by key: ascending keys, equal keys in input order.
pub fn sort_by_key<T: SortKey>(v: Vec<T>) -> (r: Vec<T>)
    ensures
        r@ == stable_sort(v@),
{
    let ghost s = v@;
    let mut input = v;
    let mut out: Vec<T> = Vec::new();
    proof {
        assert(s.take(0) =~= Seq::<T>::empty());
        assert(s.skip(0) =~= s);
    }
    while input.len() > 0
        invariant
            input@.len() <= s.len(),
            out@ == stable_sort(s.take(s.len() - input@.len())),
            input@ == s.skip(s.len() - input@.len()),
        decreases input@.len(),
    {
        let ghost i: int = s.len() - input@.len();
        let x = input.remove(0);
        proof {
            assert(s.skip(i as int)[0] == s[i as int]);
            assert(input@ =~= s.skip(i as int + 1));
        }
        let xk = x.key_val();
        let mut pos: usize = 0;
        while pos < out.len() && out[pos].key_val() <= xk
            invariant
                pos <= out.len(),
                out@ == stable_sort(s.take(i as int)),
                x == s[i as int],
                xk as int == x.key(),
                forall|j: int| 0 <= j < pos ==> #[trigger] out@[j].key() <= x.key(),
            decreases out.len() - pos,
        {
            pos = pos + 1;
        }
        proof {
            lemma_insert_sorted_at(x, out@, pos as int);
        }
        out.insert(pos, x);
        proof {
            assert(s.take(i as int + 1).drop_last() =~= s.take(i as int));
            assert(s.take(i as int + 1).last() == s[i as int]);
            assert(out@ == stable_sort(s.take(i as int + 1)));
        }
    }
    proof {
        assert(s.take(s.len() as int) =~= s);
    }
    out
}

} // verus!
