//! The first element of a sequence that has a property.

use vstd::prelude::*;

verus! {

/// The index of the first element of `s` that satisfies `p`.
pub open spec fn first_index<A>(s: Seq<A>, p: spec_fn(A) -> bool) -> Option<int> {
    s.map_values(p).index_of_first(true)
}

/// What `first_index` returns, said without reference to how it is computed.
pub proof fn lemma_first_index<A>(s: Seq<A>, p: spec_fn(A) -> bool)
    ensures
        match first_index(s, p) {
            Some(k) => 0 <= k < s.len() && p(s[k]) && forall|j: int| 0 <= j < k ==> !p(#[trigger] s[j]),
            None => forall|j: int| 0 <= j < s.len() ==> !p(#[trigger] s[j]),
        },
{
    let m = s.map_values(p);
    m.index_of_first_ensures(true);
    match first_index(s, p) {
        Some(k) => {
            assert(m[k] == p(s[k]));
            assert forall|j: int| 0 <= j < k implies !p(#[trigger] s[j]) by {
                assert(m[j] == p(s[j]));
            }
        },
        None => {
            assert forall|j: int| 0 <= j < s.len() implies !p(#[trigger] s[j]) by {
                assert(m[j] == p(s[j]));
                assert(m.contains(m[j]));
            }
        },
    }
}

/// An index that satisfies `p` and has nothing satisfying `p` before it is the first.
pub proof fn lemma_first_index_is<A>(s: Seq<A>, p: spec_fn(A) -> bool, k: int)
    requires
        0 <= k < s.len(),
        p(s[k]),
        forall|j: int| 0 <= j < k ==> !p(#[trigger] s[j]),
    ensures
        first_index(s, p) == Some(k),
{
    lemma_first_index(s, p);
    let m = s.map_values(p);
    assert(m[k] == true);
    assert(m.contains(true));
    m.index_of_first_ensures(true);
}

/// Where nothing satisfies `p` there is no first index.
pub proof fn lemma_first_index_none<A>(s: Seq<A>, p: spec_fn(A) -> bool)
    requires
        forall|j: int| 0 <= j < s.len() ==> !p(#[trigger] s[j]),
    ensures
        first_index(s, p) is None,
{
    lemma_first_index(s, p);
}

} // verus!
