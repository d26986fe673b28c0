//! Lookup in an association vector keyed by strings.

use vstd::prelude::*;

use crate::strutil::str_eq;

verus! {

/// Index of the first pair keyed under `p`, or -1 when there is none.
pub open spec fn find_pair<V>(s: Seq<(String, V)>, p: Seq<char>) -> int
    decreases s.len(),
{
    if s.len() == 0 {
        -1
    } else if s[0].0@ == p {
        0
    } else {
        let r = find_pair(s.drop_first(), p);
        if r == -1 {
            -1
        } else {
            r + 1
        }
    }
}

/// What `find_pair` returns: -1 exactly when the key is absent, and
/// otherwise the first index carrying it.
pub proof fn lemma_find_pair<V>(s: Seq<(String, V)>, p: Seq<char>)
    ensures
        find_pair(s, p) == -1 ==> forall|i: int| 0 <= i < s.len() ==> s[i].0@ != p,
        find_pair(s, p) != -1 ==> {
            let k = find_pair(s, p);
            &&& 0 <= k < s.len()
            &&& s[k].0@ == p
            &&& forall|i: int| 0 <= i < k ==> s[i].0@ != p
        },
    decreases s.len(),
{
    if s.len() == 0 {
    } else if s[0].0@ == p {
    } else {
        lemma_find_pair(s.drop_first(), p);
        let r = find_pair(s.drop_first(), p);
        if r == -1 {
            assert forall|i: int| 0 <= i < s.len() implies s[i].0@ != p by {
                if i > 0 {
                    assert(s[i] == s.drop_first()[i - 1]);
                }
            }
        } else {
            assert(s[r + 1] == s.drop_first()[r]);
            assert forall|i: int| 0 <= i < r + 1 implies s[i].0@ != p by {
                if i > 0 {
                    assert(s[i] == s.drop_first()[i - 1]);
                }
            }
        }
    }
}

/// The first index carrying the key is what `find_pair` returns.
pub proof fn lemma_find_pair_is<V>(s: Seq<(String, V)>, p: Seq<char>, k: int)
    requires
        0 <= k < s.len(),
        s[k].0@ == p,
        forall|i: int| 0 <= i < k ==> s[i].0@ != p,
    ensures
        find_pair(s, p) == k,
    decreases s.len(),
{
    if k == 0 {
    } else {
        assert(s[0].0@ != p);
        lemma_find_pair_is(s.drop_first(), p, k - 1);
    }
}

/// Find the first pair keyed under `p`.
pub fn find_pair_index<V>(s: &Vec<(String, V)>, p: &str) -> (r: Option<usize>)
    ensures
        match r {
            Some(i) => 0 <= i < s@.len() && find_pair(s@, p@) == i,
            None => find_pair(s@, p@) == -1,
        },
{
    let mut i: usize = 0;
    while i < s.len()
        invariant
            i <= s@.len(),
            forall|j: int| 0 <= j < i ==> s@[j].0@ != p@,
        decreases s@.len() - i,
    {
        if str_eq(s[i].0.as_str(), p) {
            proof {
                lemma_find_pair_is(s@, p@, i as int);
            }
            return Some(i);
        }
        i = i + 1;
    }
    proof {
        lemma_find_pair(s@, p@);
        if find_pair(s@, p@) != -1 {
            assert(s@[find_pair(s@, p@)].0@ == p@);
        }
    }
    None
}

} // verus!
