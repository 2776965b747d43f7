use vstd::prelude::*;

verus! {

broadcast use {
    vstd::seq_lib::to_multiset_update,
    vstd::seq_lib::to_multiset_contains,
    vstd::multiset::group_multiset_axioms,
};

/// Exchanging two entries of a sequence keeps its multiset of entries.
pub proof fn lemma_swap_multiset<A>(s: Seq<A>, i: int, j: int)
    requires
        0 <= i < s.len(),
        0 <= j < s.len(),
    ensures
        s.update(i, s[j]).update(j, s[i]).to_multiset() == s.to_multiset(),
{
    let s1 = s.update(i, s[j]);
    assert(s1.to_multiset() == s.to_multiset().insert(s[j]).remove(s[i]));
    assert(s1.update(j, s[i]).to_multiset() == s1.to_multiset().insert(s[i]).remove(s1[j]));
    if i == j {
        assert(s1 =~= s);
        assert(s1.update(j, s[i]) =~= s);
    } else {
        assert(s1[j] == s[j]);
    }
    assert(s.contains(s[i]));
    assert(s.contains(s[j]));
    assert(s.update(i, s[j]).update(j, s[i]).to_multiset() =~= s.to_multiset());
}

} // verus!
