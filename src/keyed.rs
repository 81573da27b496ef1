//! Sequences of rows with pairwise distinct text keys, read as maps.

use vstd::prelude::*;

verus! {

/// No key occurs twice.
pub open spec fn distinct_keys(ks: Seq<Seq<char>>) -> bool {
    forall|i: int, j: int| 0 <= i < ks.len() && 0 <= j < ks.len() && i != j ==> ks[i] != ks[j]
}

/// Index of key `k`, if it occurs.
pub open spec fn key_index(ks: Seq<Seq<char>>, k: Seq<char>) -> Option<int> {
    if exists|i: int| 0 <= i < ks.len() && ks[i] == k {
        Some(choose|i: int| 0 <= i < ks.len() && ks[i] == k)
    } else {
        None
    }
}

/// The index at which a key is found is the index `key_index` names.
pub proof fn lemma_key_index_found(ks: Seq<Seq<char>>, i: int)
    requires
        distinct_keys(ks),
        0 <= i < ks.len(),
    ensures
        key_index(ks, ks[i]) == Some(i),
{
    let c = choose|c: int| 0 <= c < ks.len() && ks[c] == ks[i];
}

/// Appending a new key gives it the last index and leaves the others.
pub proof fn lemma_key_index_push(ks: Seq<Seq<char>>, x: Seq<char>)
    requires
        distinct_keys(ks),
        key_index(ks, x) is None,
    ensures
        distinct_keys(ks.push(x)),
        forall|k: Seq<char>| #[trigger] key_index(ks.push(x), k) == if k == x {
            Some(ks.len() as int)
        } else {
            key_index(ks, k)
        },
{
    let ks2 = ks.push(x);
    assert forall|i: int, j: int| 0 <= i < ks2.len() && 0 <= j < ks2.len() && i != j implies ks2[i] != ks2[j] by {
        if i < ks.len() && j < ks.len() {
            assert(ks2[i] == ks[i] && ks2[j] == ks[j]);
        } else if i < ks.len() {
            assert(ks2[i] == ks[i]);
        } else {
            assert(ks2[j] == ks[j]);
        }
    }
    assert forall|k: Seq<char>| #[trigger] key_index(ks2, k) == if k == x {
        Some(ks.len() as int)
    } else {
        key_index(ks, k)
    } by {
        if k == x {
            lemma_key_index_found(ks2, ks.len() as int);
        } else if key_index(ks, k) is Some {
            let i = key_index(ks, k).unwrap();
            assert(ks2[i] == ks[i]);
            lemma_key_index_found(ks2, i);
        } else if key_index(ks2, k) is Some {
            let i = key_index(ks2, k).unwrap();
            assert(ks[i] == ks2[i]);
        }
    }
}

/// Removing the key at `i` drops it and shifts the later indices down.
pub proof fn lemma_key_index_remove(ks: Seq<Seq<char>>, i: int)
    requires
        distinct_keys(ks),
        0 <= i < ks.len(),
    ensures
        distinct_keys(ks.remove(i)),
        forall|k: Seq<char>| #[trigger] key_index(ks.remove(i), k) == if k == ks[i] {
            None
        } else {
            match key_index(ks, k) {
                Some(j) => Some(if j < i { j } else { j - 1 }),
                None => None,
            }
        },
{
    let ks2 = ks.remove(i);
    assert forall|a: int, b: int| 0 <= a < ks2.len() && 0 <= b < ks2.len() && a != b implies ks2[a] != ks2[b] by {
        let a2 = if a < i { a } else { a + 1 };
        let b2 = if b < i { b } else { b + 1 };
        assert(ks2[a] == ks[a2] && ks2[b] == ks[b2]);
    }
    assert forall|k: Seq<char>| #[trigger] key_index(ks2, k) == if k == ks[i] {
        None
    } else {
        match key_index(ks, k) {
            Some(j) => Some(if j < i { j } else { j - 1 }),
            None => None,
        }
    } by {
        if key_index(ks2, k) is Some {
            let a = key_index(ks2, k).unwrap();
            let a2 = if a < i { a } else { a + 1 };
            assert(ks2[a] == ks[a2]);
            lemma_key_index_found(ks, a2);
            lemma_key_index_found(ks2, a);
        } else if key_index(ks, k) is Some && k != ks[i] {
            let j = key_index(ks, k).unwrap();
            let j2 = if j < i { j } else { j - 1 };
            assert(ks2[j2] == ks[j]);
        }
    }
}

} // verus!
