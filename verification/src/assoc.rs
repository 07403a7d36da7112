//! Association lists with map views.
//!
//! Both the in-memory store and the local-directory model keep their
//! entries as a vector of key/value pairs; the frontmost pair for a key is
//! the current one. `assoc_map` is the map such a list denotes.

use vstd::prelude::*;

verus! {

// //////////////////// //
// Association storage   //
// //////////////////// //

/// The map an association list denotes: the frontmost pair for a key wins.
pub open spec fn assoc_map<T: View>(s: Seq<(String, T)>) -> Map<Seq<char>, T::V>
    decreases s.len(),
{
    if s.len() == 0 {
        Map::<Seq<char>, T::V>::empty()
    } else {
        assoc_map(s.drop_first()).insert(s[0].0@, s[0].1@)
    }
}

/// A front match at `i` is the value the map holds.
pub(crate) proof fn lemma_assoc_found<T: View>(s: Seq<(String, T)>, k: Seq<char>, i: int)
    requires
        0 <= i < s.len(),
        s[i].0@ == k,
        forall|j: int| 0 <= j < i ==> s[j].0@ != k,
    ensures
        assoc_map(s).contains_key(k),
        assoc_map(s)[k] == s[i].1@,
    decreases s.len(),
{
    if i > 0 {
        lemma_assoc_found(s.drop_first(), k, i - 1);
    }
}

/// No match anywhere means the map has no such key.
pub(crate) proof fn lemma_assoc_absent<T: View>(s: Seq<(String, T)>, k: Seq<char>)
    requires
        forall|j: int| 0 <= j < s.len() ==> s[j].0@ != k,
    ensures
        !assoc_map(s).contains_key(k),
    decreases s.len(),
{
    if s.len() > 0 {
        lemma_assoc_absent(s.drop_first(), k);
    }
}

/// Putting a pair in front is insertion into the map.
pub(crate) proof fn lemma_assoc_push_front<T: View>(s: Seq<(String, T)>, p: (String, T))
    ensures
        assoc_map(seq![p] + s) == assoc_map(s).insert(p.0@, p.1@),
{
    assert((seq![p] + s).drop_first() =~= s);
    assert((seq![p] + s)[0] == p);
}

/// Every entry's key is in the map's domain.
pub(crate) proof fn lemma_assoc_entry_in_dom<T: View>(s: Seq<(String, T)>, i: int)
    requires
        0 <= i < s.len(),
    ensures
        assoc_map(s).contains_key(s[i].0@),
    decreases s.len(),
{
    if i > 0 {
        lemma_assoc_entry_in_dom(s.drop_first(), i - 1);
    }
}

/// With pairwise-distinct keys, the map is as large as the list.
pub(crate) proof fn lemma_assoc_dom_len<T: View>(s: Seq<(String, T)>)
    requires
        forall|i: int, j: int| 0 <= i < j < s.len() ==> s[i].0@ != s[j].0@,
    ensures
        assoc_map(s).dom().finite(),
        assoc_map(s).dom().len() == s.len(),
    decreases s.len(),
{
    if s.len() > 0 {
        let rest = s.drop_first();
        assert(forall|i: int, j: int| 0 <= i < j < rest.len()
            ==> rest[i].0@ != rest[j].0@) by {
            assert(forall|i: int| 0 <= i < rest.len() ==> rest[i] == s[i + 1]);
        }
        lemma_assoc_dom_len(rest);
        assert(forall|j: int| 0 <= j < rest.len() ==> rest[j].0@ != s[0].0@) by {
            assert(forall|i: int| 0 <= i < rest.len() ==> rest[i] == s[i + 1]);
        }
        lemma_assoc_absent(rest, s[0].0@);
    }
}

/// Index of the frontmost pair whose key is `key`.
pub(crate) fn find_pair<T>(v: &Vec<(String, T)>, key: &String) -> (r: Option<usize>)
    ensures
        match r {
            Some(i) => i < v@.len() && v@[i as int].0@ == key@
                && (forall|j: int| 0 <= j < i ==> v@[j].0@ != key@),
            None => forall|j: int| 0 <= j < v@.len() ==> v@[j].0@ != key@,
        },
{
    let mut i: usize = 0;
    while i < v.len()
        invariant
            i <= v@.len(),
            forall|j: int| 0 <= j < i ==> v@[j].0@ != key@,
        decreases v@.len() - i,
    {
        if v[i].0 == *key {
            return Some(i);
        }
        i = i + 1;
    }
    None
}


/// Removing the entry at `i` removes its key from the map, provided keys
/// are pairwise distinct.
pub(crate) proof fn lemma_assoc_remove_at<T: View>(s: Seq<(String, T)>, i: int)
    requires
        0 <= i < s.len(),
        forall|x: int, y: int| 0 <= x < y < s.len() ==> s[x].0@ != s[y].0@,
    ensures
        assoc_map(s.remove(i)) == assoc_map(s).remove(s[i].0@),
    decreases s.len(),
{
    let k = s[i].0@;
    if i == 0 {
        assert(s.remove(0) =~= s.drop_first());
        assert(forall|j: int| 0 <= j < s.drop_first().len()
            ==> #[trigger] s.drop_first()[j].0@ != k) by {
            assert(forall|j: int| 0 <= j < s.drop_first().len()
                ==> s.drop_first()[j] == s[j + 1]);
        }
        lemma_assoc_absent(s.drop_first(), k);
        assert(assoc_map(s).remove(k) =~= assoc_map(s.drop_first()));
    } else {
        let rest = s.drop_first();
        assert(forall|x: int, y: int| 0 <= x < y < rest.len()
            ==> rest[x].0@ != rest[y].0@) by {
            assert(forall|x: int| 0 <= x < rest.len() ==> rest[x] == s[x + 1]);
        }
        assert(rest[i - 1] == s[i]);
        lemma_assoc_remove_at(rest, i - 1);
        assert(s.remove(i).drop_first() =~= rest.remove(i - 1));
        assert(s.remove(i)[0] == s[0]);
        assert(s[0].0@ != k);
        assert(assoc_map(s.remove(i)) == assoc_map(rest.remove(i - 1)).insert(s[0].0@, s[0].1@));
        assert(assoc_map(rest).remove(k).insert(s[0].0@, s[0].1@)
            =~= assoc_map(rest).insert(s[0].0@, s[0].1@).remove(k));
    }
}

} // verus!
