use vstd::prelude::*;

verus! {

/// A record with an integer key by which records are ordered.
pub trait Keyed: Copy {
    spec fn key(&self) -> int;

    fn key_le(&self, other: &Self) -> (b: bool)
        ensures
            b == (self.key() <= other.key()),
    ;
}

/// No record comes before one with a smaller key.
pub open spec fn is_sorted<T: Keyed>(s: Seq<T>) -> bool {
    forall|a: int, b: int| 0 <= a < b < s.len() ==> s[a].key() <= s[b].key()
}

/// Where `x` goes into the sorted `s`: behind the last record whose key is
/// not greater.
pub open spec fn insert_position<T: Keyed>(s: Seq<T>, x: T) -> int
    decreases s.len(),
{
    if s.len() == 0 || s.last().key() <= x.key() {
        s.len() as int
    } else {
        insert_position(s.drop_last(), x)
    }
}

/// The records of `s` in ascending order of their keys; records with equal
/// keys keep their order.
pub open spec fn sort_by_key<T: Keyed>(s: Seq<T>) -> Seq<T>
    decreases s.len(),
{
    if s.len() == 0 {
        s
    } else {
        let front = sort_by_key(s.drop_last());
        front.insert(insert_position(front, s.last()), s.last())
    }
}

pub proof fn lemma_insert_position<T: Keyed>(s: Seq<T>, x: T)
    ensures
        0 <= insert_position(s, x) <= s.len(),
        forall|j: int| insert_position(s, x) <= j < s.len() ==> s[j].key() > x.key(),
        insert_position(s, x) > 0 ==> s[insert_position(s, x) - 1].key() <= x.key(),
    decreases s.len(),
{
    if !(s.len() == 0 || s.last().key() <= x.key()) {
        let front = s.drop_last();
        lemma_insert_position(front, x);
        assert forall|j: int| insert_position(s, x) <= j < s.len() implies s[j].key() > x.key() by {
            if j < front.len() {
                assert(front[j] == s[j]);
            }
        }
    }
}

/// Sorting keeps the number of records and yields a sorted sequence.
pub proof fn lemma_sort_sorted<T: Keyed>(s: Seq<T>)
    ensures
        sort_by_key(s).len() == s.len(),
        is_sorted(sort_by_key(s)),
    decreases s.len(),
{
    if s.len() > 0 {
        let front = sort_by_key(s.drop_last());
        lemma_sort_sorted(s.drop_last());
        lemma_insert_position(front, s.last());
    }
}

/// Sorting a sorted sequence changes nothing.
pub proof fn lemma_sort_fixed<T: Keyed>(s: Seq<T>)
    requires
        is_sorted(s),
    ensures
        sort_by_key(s) == s,
    decreases s.len(),
{
    if s.len() > 0 {
        lemma_sort_fixed(s.drop_last());
        assert(s.drop_last().insert(s.len() - 1, s.last()) =~= s);
    }
}

/// Sorting neither adds nor removes a record.
pub proof fn lemma_sort_permutes<T: Keyed>(s: Seq<T>)
    ensures
        sort_by_key(s).to_multiset() == s.to_multiset(),
    decreases s.len(),
{
    broadcast use vstd::seq_lib::group_to_multiset_ensures;
    if s.len() > 0 {
        let front = sort_by_key(s.drop_last());
        let p = insert_position(front, s.last());
        lemma_sort_permutes(s.drop_last());
        lemma_insert_position(front, s.last());
        let r = front.insert(p, s.last());
        assert(r.remove(p) =~= front);
        assert(front.to_multiset() =~= r.to_multiset().remove(s.last()));
        assert(s.drop_last().push(s.last()) =~= s);
        assert(r.to_multiset() =~= s.to_multiset());
    }
}

/// Sorts the records by key, ascending, keeping the order of equal keys.
pub fn sort_records<T: Keyed>(v: &mut Vec<T>)
    ensures
        final(v)@ == sort_by_key(old(v)@),
{
    let mut out: Vec<T> = Vec::new();
    let mut i: usize = 0;
    while i < v.len()
        invariant
            i <= v.len(),
            v@ == old(v)@,
            out@ == sort_by_key(v@.subrange(0, i as int)),
        decreases v.len() - i,
    {
        let x = v[i];
        let mut p: usize = out.len();
        while p > 0 && !out[p - 1].key_le(&x)
            invariant
                p <= out.len(),
                forall|j: int| p <= j < out.len() ==> out@[j].key() > x.key(),
            decreases p,
        {
            p -= 1;
        }
        proof {
            lemma_insert_position(out@, x);
            assert(v@.subrange(0, i + 1).drop_last() =~= v@.subrange(0, i as int));
        }
        out.insert(p, x);
        i += 1;
    }
    proof {
        assert(v@.subrange(0, v.len() as int) =~= v@);
    }
    *v = out;
}

} // verus!
