use vstd::prelude::*;

use vstd::string::StrSliceExecFns;

verus! {

/// Character-wise string comparison.
pub fn str_eq(a: &str, b: &str) -> (r: bool)
    ensures
        r == (a@ == b@),
{
    let la = a.unicode_len();
    let lb = b.unicode_len();
    if la != lb {
        proof {
            assert(a@ != b@);
        }
        return false;
    }
    let mut i: usize = 0;
    while i < la
        invariant
            0 <= i <= la,
            la == a@.len() && la == b@.len(),
            forall|j: int| 0 <= j < i ==> a@[j] == b@[j],
        decreases la - i,
    {
        if a.get_char(i) != b.get_char(i) {
            return false;
        }
        i += 1;
    }
    proof {
        assert(a@ =~= b@);
    }
    true
}

/// First index holding `key` in a sequence of names, scanning forward.
pub open spec fn index_of_str(names: Seq<Seq<char>>, key: Seq<char>, i: int) -> Option<int>
    decreases names.len() - i,
{
    if i < 0 || i >= names.len() {
        None
    } else if names[i] == key {
        Some(i)
    } else {
        index_of_str(names, key, i + 1)
    }
}

/// A found index is in range, holds the key, and nothing before it does.
pub proof fn lemma_index_of_str(names: Seq<Seq<char>>, key: Seq<char>, i: int)
    requires
        0 <= i <= names.len(),
    ensures
        match index_of_str(names, key, i) {
            Some(k) => i <= k < names.len() && names[k] == key && (forall|j: int|
                i <= j < k ==> names[j] != key),
            None => forall|j: int| i <= j < names.len() ==> names[j] != key,
        },
    decreases names.len() - i,
{
    if i < names.len() && names[i] != key {
        lemma_index_of_str(names, key, i + 1);
    }
}


/// Converse direction: a witness at `k` with none before pins the result.
pub proof fn lemma_index_of_str_first(names: Seq<Seq<char>>, key: Seq<char>, k: int)
    requires
        0 <= k < names.len(),
        names[k] == key,
        forall|j: int| 0 <= j < k ==> names[j] != key,
    ensures
        index_of_str(names, key, 0) == Some(k),
{
    lemma_index_of_str(names, key, 0);
    match index_of_str(names, key, 0) {
        None => {
            assert(names[k] != key);
        },
        Some(m) => {
            if m < k {
                assert(names[m] != key);
            } else if m > k {
                assert(names[k] != key);
            }
        },
    }
}

} // verus!
