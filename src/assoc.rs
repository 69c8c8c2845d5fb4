//! Association lists: entries with a key, where the last entry with a
//! given key is the one that counts.
use vstd::prelude::*;
use crate::path::ScriptPath;

verus! {

/// An entry of an association list.
pub trait Keyed {
    type Key: View;

    /// The key of this entry.
    spec fn key(&self) -> <Self::Key as View>::V;

    /// Whether this entry has the key `k`.
    fn has_key(&self, k: &Self::Key) -> (r: bool)
        ensures
            r == (self.key() == k@),
    ;
}

impl<V> Keyed for (String, V) {
    type Key = String;

    open spec fn key(&self) -> Seq<char> {
        self.0@
    }

    fn has_key(&self, k: &String) -> (r: bool) {
        self.0 == *k
    }
}

impl<V> Keyed for (ScriptPath, V) {
    type Key = ScriptPath;

    open spec fn key(&self) -> (bool, Seq<Seq<char>>) {
        self.0@
    }

    fn has_key(&self, k: &ScriptPath) -> (r: bool) {
        self.0.same_as(k)
    }
}

/// Position of the last entry with key `k`.
pub open spec fn find_last<E: Keyed>(s: Seq<E>, k: <E::Key as View>::V) -> Option<int>
    decreases s.len(),
{
    if s.len() == 0 {
        None
    } else if s.last().key() == k {
        Some(s.len() - 1)
    } else {
        find_last(s.drop_last(), k)
    }
}

/// `find_last` names an entry with the key, and none is there when it
/// finds nothing.
pub proof fn lemma_find_last_valid<E: Keyed>(s: Seq<E>, k: <E::Key as View>::V)
    ensures
        match find_last(s, k) {
            Some(i) => 0 <= i < s.len() && s[i].key() == k,
            None => forall|j: int| 0 <= j < s.len() ==> s[j].key() != k,
        },
    decreases s.len(),
{
    if s.len() > 0 {
        lemma_find_last_valid(s.drop_last(), k);
        assert forall|j: int| 0 <= j < s.len() - 1 implies s[j] == s.drop_last()[j] by {}
    }
}

/// Replacing an entry by one with the same key moves no key.
pub proof fn lemma_find_last_update<E: Keyed>(s: Seq<E>, i: int, e: E, k: <E::Key as View>::V)
    requires
        0 <= i < s.len(),
        e.key() == s[i].key(),
    ensures
        find_last(s.update(i, e), k) == find_last(s, k),
    decreases s.len(),
{
    let t = s.update(i, e);
    if i < s.len() - 1 {
        assert(t.drop_last() =~= s.drop_last().update(i, e));
        lemma_find_last_update(s.drop_last(), i, e, k);
    } else {
        assert(t.drop_last() =~= s.drop_last());
    }
}

/// Position of the last entry of `s` with key `k`.
pub fn index_of_last<E: Keyed>(s: &Vec<E>, k: &E::Key) -> (r: Option<usize>)
    ensures
        match r {
            Some(i) => find_last(s@, k@) == Some(i as int) && i < s.len(),
            None => find_last(s@, k@) is None,
        },
{
    let mut i: usize = s.len();
    assert(s@.take(i as int) =~= s@);
    while i > 0
        invariant
            i <= s.len(),
            find_last(s@, k@) == find_last(s@.take(i as int), k@),
        decreases i,
    {
        assert(s@.take(i as int).drop_last() =~= s@.take(i as int - 1));
        if s[i - 1].has_key(k) {
            return Some(i - 1);
        }
        i = i - 1;
    }
    None
}

} // verus!
