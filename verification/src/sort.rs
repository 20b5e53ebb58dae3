use vstd::prelude::*;

verus! {

/// Where an entry with `key` goes into a list that is in order: behind the
/// last entry whose key is not larger.
pub open spec fn insert_point<T>(s: Seq<(u32, T)>, key: u32) -> int
    decreases s.len(),
{
    if s.len() == 0 {
        0
    } else if s.last().0 <= key {
        s.len() as int
    } else {
        insert_point(s.drop_last(), key)
    }
}

/// The first `n` entries of a list, in ascending order of their keys, entries
/// with equal keys in the order in which the list has them.
pub open spec fn stable_sort<T>(s: Seq<(u32, T)>, n: int) -> Seq<(u32, T)>
    decreases n,
{
    if n <= 0 {
        Seq::empty()
    } else {
        let sorted = stable_sort(s, n - 1);
        sorted.insert(insert_point(sorted, s[n - 1].0), s[n - 1])
    }
}

/// The keys of a list ascend.
pub open spec fn is_sorted<T>(s: Seq<(u32, T)>) -> bool {
    forall|i: int, j: int| 0 <= i <= j < s.len() ==> s[i].0 <= s[j].0
}

/// The place where an entry goes lies in the list; in a list that is in
/// order, every entry before it has a key that is not larger, and every entry
/// from it on has a larger key.
pub proof fn lemma_insert_point<T>(s: Seq<(u32, T)>, key: u32)
    ensures
        0 <= insert_point(s, key) <= s.len(),
        forall|i: int| insert_point(s, key) <= i < s.len() ==> (#[trigger] s[i]).0 > key,
        is_sorted(s) ==> forall|i: int|
            0 <= i < insert_point(s, key) ==> (#[trigger] s[i]).0 <= key,
    decreases s.len(),
{
    if s.len() > 0 && s.last().0 > key {
        let rest = s.drop_last();
        lemma_insert_point(rest, key);
        assert forall|i: int| insert_point(s, key) <= i < s.len() implies (#[trigger] s[i]).0
            > key by {
            if i < rest.len() {
                assert(rest[i] == s[i]);
            }
        }
        if is_sorted(s) {
            assert forall|i: int, j: int| 0 <= i <= j < rest.len() implies rest[i].0
                <= rest[j].0 by {
                assert(rest[i] == s[i] && rest[j] == s[j]);
            }
            assert forall|i: int| 0 <= i < insert_point(s, key) implies (#[trigger] s[i]).0
                <= key by {
                assert(rest[i] == s[i]);
            }
        }
    }
}

/// The sorted list has the entries of the list it was made from, each as
/// often, and its keys ascend.
pub proof fn lemma_stable_sort<T>(s: Seq<(u32, T)>, n: int)
    requires
        0 <= n <= s.len(),
    ensures
        stable_sort(s, n).len() == n,
        is_sorted(stable_sort(s, n)),
        stable_sort(s, n).to_multiset() == s.take(n).to_multiset(),
    decreases n,
{
    if n <= 0 {
        assert(s.take(n) =~= Seq::empty());
    } else {
        lemma_stable_sort(s, n - 1);
        let sorted = stable_sort(s, n - 1);
        let x = s[n - 1];
        let at = insert_point(sorted, x.0);
        lemma_insert_point(sorted, x.0);
        let out = sorted.insert(at, x);
        assert forall|i: int, j: int| 0 <= i <= j < out.len() implies out[i].0 <= out[j].0 by {
            if i < at && j > at {
                assert(out[i] == sorted[i] && out[j] == sorted[j - 1]);
            } else if i < at && j < at {
                assert(out[i] == sorted[i] && out[j] == sorted[j]);
            } else if i > at {
                assert(out[i] == sorted[i - 1] && out[j] == sorted[j - 1]);
            } else if i == at && j > at {
                assert(out[j] == sorted[j - 1]);
            } else if j == at && i < at {
                assert(out[i] == sorted[i]);
            }
        }
        vstd::seq_lib::to_multiset_build(s.take(n - 1), x);
        vstd::seq_lib::to_multiset_insert(sorted, at, x);
        assert(s.take(n) =~= s.take(n - 1).push(x));
    }
}

/// The sorted list holds an entry exactly when the list holds it.
pub proof fn lemma_sort_members<T>(s: Seq<(u32, T)>, x: (u32, T))
    ensures
        stable_sort(s, s.len() as int).contains(x) <==> s.contains(x),
{
    lemma_stable_sort(s, s.len() as int);
    assert(s.take(s.len() as int) =~= s);
    vstd::seq_lib::to_multiset_contains(s, x);
    vstd::seq_lib::to_multiset_contains(stable_sort(s, s.len() as int), x);
}

/// Sorts a list by its keys, ascending; entries with equal keys keep their
/// order.
pub fn sort_by_key<T: Copy>(list: &Vec<(u32, T)>) -> (sorted: Vec<(u32, T)>)
    ensures
        sorted@ == stable_sort(list@, list@.len() as int),
        sorted@.len() == list@.len(),
        is_sorted(sorted@),
        sorted@.to_multiset() == list@.to_multiset(),
{
    let mut out: Vec<(u32, T)> = Vec::new();
    let mut i: usize = 0;
    while i < list.len()
        invariant
            i <= list@.len(),
            out@ == stable_sort(list@, i as int),
            out@.len() == i,
        decreases list@.len() - i,
    {
        let x: (u32, T) = list[i];
        let mut j: usize = out.len();
        assert(out@.take(out@.len() as int) =~= out@);
        while j > 0 && out[j - 1].0 > x.0
            invariant
                j <= out@.len(),
                insert_point(out@, x.0) == insert_point(out@.take(j as int), x.0),
            decreases j,
        {
            assert(out@.take(j as int).drop_last() =~= out@.take(j - 1));
            j -= 1;
        }
        assert(insert_point(out@, x.0) == j) by {
            if j > 0 {
                assert(out@.take(j as int).last() == out@[j - 1]);
            }
        }
        out.insert(j, x);
        i += 1;
    }
    proof {
        lemma_stable_sort(list@, list@.len() as int);
        assert(list@.take(list@.len() as int) =~= list@);
    }
    out
}

} // verus!
