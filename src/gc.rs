//! Decisions of the garbage collector over the index, the cache and the output directory.

use vstd::prelude::*;
use crate::cache::ContentCache;
use crate::store::{names, ArticleStore};

verus! {

/// The name of the marker file that shows an output directory is managed by
/// this engine.
pub open spec fn sentinel() -> Seq<char> {
    seq![
        '.', 'p', 'a', 'n', 'k', 'a', 't', '_', 'm', 'a', 'i', 'n', 't', 'a', 'i', 'n', 'e', 'd',
        '_', 'o', 'u', 't', 'p', 'u', 't', '_', 'f', 'o', 'l', 'd', 'e', 'r'
    ]
}

pub fn sentinel_name() -> (r: String)
    ensures
        r@ == sentinel(),
{
    let v: Vec<char> = vec![
        '.', 'p', 'a', 'n', 'k', 'a', 't', '_', 'm', 'a', 'i', 'n', 't', 'a', 'i', 'n', 'e', 'd',
        '_', 'o', 'u', 't', 'p', 'u', 't', '_', 'f', 'o', 'l', 'd', 'e', 'r'
    ];
    let r = crate::text::string_of(&v);
    assert(r@ =~= sentinel());
    r
}

/// What is to be done before the output directory may be pruned.
#[derive(Debug, Clone, Copy, PartialEq, Eq, Structural)]
pub enum FolderCheck {
    /// The marker file is there.
    Managed,
    /// The directory is empty: create the marker file, then it is managed.
    CreateSentinel,
}

#[derive(Debug, Clone, Copy, PartialEq, Eq, Structural)]
pub enum GcError {
    /// The directory holds files but no marker file: it is not pruned.
    UnmanagedOutput,
}

/// Whether the output directory may be pruned, from whether it holds the
/// marker file and whether it is empty.
pub fn output_folder_check(has_sentinel: bool, is_empty: bool) -> (r: Result<FolderCheck, GcError>)
    ensures
        has_sentinel ==> r == Ok::<FolderCheck, GcError>(FolderCheck::Managed),
        !has_sentinel && is_empty ==> r == Ok::<FolderCheck, GcError>(FolderCheck::CreateSentinel),
        !has_sentinel && !is_empty ==> r == Err::<FolderCheck, GcError>(GcError::UnmanagedOutput),
{
    if has_sentinel {
        Ok(FolderCheck::Managed)
    } else if is_empty {
        Ok(FolderCheck::CreateSentinel)
    } else {
        Err(GcError::UnmanagedOutput)
    }
}

/// An output entry is garbage when it is neither the marker file nor the
/// output path of a stored record.
pub open spec fn is_garbage(entry: Seq<char>, outputs: Set<Seq<char>>) -> bool {
    entry != sentinel() && !outputs.contains(entry)
}

/// The output paths of the stored records.
pub open spec fn outputs_of(store: ArticleStore) -> Set<Seq<char>> {
    Set::new(
        |d: Seq<char>|
            exists|i: int| 0 <= i < store.articles@.len() && (#[trigger] store.articles@[i]).dst_file_name@ == d,
    )
}

/// The entries of the output directory (paths relative to it) that are to
/// be deleted: none at all unless the directory holds the marker file;
/// otherwise every entry that is garbage, in listing order.
pub fn garbage_outputs(store: &ArticleStore, entries: &Vec<String>, has_sentinel: bool) -> (r: Vec<String>)
    ensures
        !has_sentinel ==> r@.len() == 0,
        has_sentinel ==> r@ == entries@.filter(|e: String| is_garbage(e@, outputs_of(*store))),
{
    let mut r: Vec<String> = Vec::new();
    if !has_sentinel {
        return r;
    }
    let marker = sentinel_name();
    let mut i: usize = 0;
    proof {
        reveal(Seq::filter);
    }
    while i < entries.len()
        invariant
            0 <= i <= entries@.len(),
            marker@ == sentinel(),
            r@ == entries@.subrange(0, i as int).filter(|e: String| is_garbage(e@, outputs_of(*store))),
        decreases entries@.len() - i,
    {
        let e = &entries[i];
        let mut known = false;
        let mut k: usize = 0;
        while k < store.articles.len()
            invariant
                0 <= k <= store.articles@.len(),
                known == exists|j: int| 0 <= j < k && (#[trigger] store.articles@[j]).dst_file_name@ == e@,
            decreases store.articles@.len() - k,
        {
            if store.articles[k].dst_file_name == *e {
                known = true;
            }
            k = k + 1;
        }
        let garbage = !(*e == marker) && !known;
        proof {
            reveal(Seq::filter);
            let s1 = entries@.subrange(0, i + 1);
            assert(s1.drop_last() == entries@.subrange(0, i as int));
            assert(s1.last() == entries@[i as int]);
            assert(garbage == is_garbage(e@, outputs_of(*store)));
        }
        if garbage {
            r.push(e.clone());
        }
        i = i + 1;
    }
    assert(entries@.subrange(0, entries@.len() as int) == entries@);
    r
}

/// The identities of the records whose source no longer exists;
/// `source_exists[i]` tells whether the source of record `i` is on disk.
pub fn stale_articles(store: &ArticleStore, source_exists: &Vec<bool>) -> (r: Vec<u64>)
    requires
        source_exists@.len() == store.articles@.len(),
    ensures
        r@.len() <= store.articles@.len(),
        forall|id: u64| #[trigger] r@.contains(id) <==> exists|i: int|
            0 <= i < store.articles@.len() && !source_exists@[i] && (#[trigger] store.articles@[i]).id == id,
{
    let mut r: Vec<u64> = Vec::new();
    let mut i: usize = 0;
    while i < store.articles.len()
        invariant
            source_exists@.len() == store.articles@.len(),
            0 <= i <= store.articles@.len(),
            r@.len() <= i,
            forall|id: u64| #[trigger] r@.contains(id) <==> exists|j: int|
                0 <= j < i && !source_exists@[j] && (#[trigger] store.articles@[j]).id == id,
        decreases store.articles@.len() - i,
    {
        let ghost r0 = r@;
        if !source_exists[i] {
            r.push(store.articles[i].id);
        }
        proof {
            assert forall|id: u64| #[trigger] r@.contains(id) <==> exists|j: int|
                0 <= j < i + 1 && !source_exists@[j] && (#[trigger] store.articles@[j]).id == id by {
                if r@.contains(id) {
                    let k = choose|k: int| 0 <= k < r@.len() && r@[k] == id;
                    if k < r0.len() {
                        assert(r0[k] == id);
                        assert(r0.contains(id));
                    } else {
                        assert(store.articles@[i as int].id == id);
                    }
                }
                if exists|j: int| 0 <= j < i + 1 && !source_exists@[j] && (#[trigger] store.articles@[j]).id == id {
                    let j = choose|j: int| 0 <= j < i + 1 && !source_exists@[j] && (#[trigger] store.articles@[j]).id == id;
                    if j < i {
                        assert(r0.contains(id));
                        let k = choose|k: int| 0 <= k < r0.len() && r0[k] == id;
                        assert(r@[k] == id);
                    } else {
                        assert(r@[r0.len() as int] == id);
                    }
                }
            }
        }
        i = i + 1;
    }
    r
}

/// The source paths of the cache rows whose source no longer exists;
/// `source_exists[i]` tells whether the source of row `i` is on disk.
pub fn stale_cache_rows(cache: &ContentCache, source_exists: &Vec<bool>) -> (r: Vec<String>)
    requires
        source_exists@.len() == cache.rows@.len(),
    ensures
        r@.len() <= cache.rows@.len(),
        forall|p: Seq<char>| #[trigger] names(r@).contains(p) <==> exists|i: int|
            0 <= i < cache.rows@.len() && !source_exists@[i] && (#[trigger] cache.rows@[i]).src_file_name@ == p,
{
    let mut r: Vec<String> = Vec::new();
    let mut i: usize = 0;
    while i < cache.rows.len()
        invariant
            source_exists@.len() == cache.rows@.len(),
            0 <= i <= cache.rows@.len(),
            r@.len() <= i,
            forall|p: Seq<char>| #[trigger] names(r@).contains(p) <==> exists|j: int|
                0 <= j < i && !source_exists@[j] && (#[trigger] cache.rows@[j]).src_file_name@ == p,
        decreases cache.rows@.len() - i,
    {
        let ghost r0 = r@;
        if !source_exists[i] {
            r.push(cache.rows[i].src_file_name.clone());
        }
        proof {
            assert forall|p: Seq<char>| #[trigger] names(r@).contains(p) <==> exists|j: int|
                0 <= j < i + 1 && !source_exists@[j] && (#[trigger] cache.rows@[j]).src_file_name@ == p by {
                if names(r@).contains(p) {
                    let k = choose|k: int| 0 <= k < r@.len() && (#[trigger] r@[k])@ == p;
                    if k < r0.len() {
                        assert(r0[k] == r@[k]);
                        assert(names(r0).contains(p));
                    } else {
                        assert(cache.rows@[i as int].src_file_name@ == p);
                    }
                }
                if exists|j: int| 0 <= j < i + 1 && !source_exists@[j] && (#[trigger] cache.rows@[j]).src_file_name@ == p {
                    let j = choose|j: int| 0 <= j < i + 1 && !source_exists@[j] && (#[trigger] cache.rows@[j]).src_file_name@ == p;
                    if j < i {
                        assert(names(r0).contains(p));
                        let k = choose|k: int| 0 <= k < r0.len() && (#[trigger] r0[k])@ == p;
                        assert(r@[k] == r0[k]);
                    } else {
                        assert(r@[r0.len() as int]@ == p);
                    }
                }
            }
        }
        i = i + 1;
    }
    r
}

} // verus!
