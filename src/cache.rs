//! The rendered-output cache, keyed by source path, and the content hash.

use vstd::prelude::*;
use crate::keyed::{
    distinct_keys, key_index, lemma_key_index_found, lemma_key_index_push, lemma_key_index_remove,
};

verus! {

/// A name for the XxHash64 digest (seed 0) of the UTF-8 bytes of a text,
/// written as lower-case hexadecimal without leading zeros.
pub uninterp spec fn xxhash64_hex(text: Seq<char>) -> Seq<char>;

/// Relies on `twox_hash::XxHash64` (seed 0, as its `Default` gives): the
/// digest of the text's bytes, formatted with `{:x}`. The result depends on
/// the text alone.
#[verifier::external_body]
pub fn compute_hash(text: &str) -> (r: String)
    ensures
        r@ == xxhash64_hex(text@),
{
    let mut hasher = twox_hash::XxHash64::with_seed(0);
    std::hash::Hasher::write(&mut hasher, text.as_bytes());
    format!("{:x}", std::hash::Hasher::finish(&hasher))
}

/// A cache row: the last rendered HTML of a source path and the hash of the
/// directive-stripped text it was rendered from.
#[derive(Debug)]
pub struct Cache {
    pub src_file_name: String,
    pub hash: String,
    pub html: String,
}

/// The source paths of the rows, in order.
pub open spec fn cache_keys(rows: Seq<Cache>) -> Seq<Seq<char>> {
    rows.map_values(|c: Cache| c.src_file_name@)
}

/// Index of the row for `src`, if any.
pub open spec fn row_index(rows: Seq<Cache>, src: Seq<char>) -> Option<int> {
    key_index(cache_keys(rows), src)
}

/// The cache as a map from source path to (HTML, hash).
pub open spec fn cache_map(rows: Seq<Cache>) -> Map<Seq<char>, (Seq<char>, Seq<char>)> {
    Map::new(
        |src: Seq<char>| row_index(rows, src) is Some,
        |src: Seq<char>| (rows[row_index(rows, src).unwrap()].html@, rows[row_index(rows, src).unwrap()].hash@),
    )
}

/// Rendering is needed unless the cache holds `hash` for `src`.
pub open spec fn needs_render_spec(m: Map<Seq<char>, (Seq<char>, Seq<char>)>, src: Seq<char>, hash: Seq<char>) -> bool {
    !(m.contains_key(src) && m[src].1 == hash)
}

/// The rendered-output cache: at most one row per source path.
pub struct ContentCache {
    pub rows: Vec<Cache>,
}

impl View for ContentCache {
    type V = Map<Seq<char>, (Seq<char>, Seq<char>)>;

    open spec fn view(&self) -> Map<Seq<char>, (Seq<char>, Seq<char>)> {
        cache_map(self.rows@)
    }
}

impl ContentCache {
    pub open spec fn wf(&self) -> bool {
        distinct_keys(cache_keys(self.rows@))
    }

    pub fn new() -> (r: ContentCache)
        ensures
            r.wf(),
            r@ == Map::<Seq<char>, (Seq<char>, Seq<char>)>::empty(),
    {
        let r = ContentCache { rows: Vec::new() };
        assert(cache_keys(r.rows@) =~= Seq::<Seq<char>>::empty());
        assert(r@ =~= Map::<Seq<char>, (Seq<char>, Seq<char>)>::empty());
        r
    }

    fn find(&self, src: &String) -> (r: Option<usize>)
        requires
            self.wf(),
        ensures
            match r {
                Some(i) => i < self.rows@.len() && row_index(self.rows@, src@) == Some(i as int),
                None => row_index(self.rows@, src@) is None,
            },
    {
        let mut i: usize = 0;
        while i < self.rows.len()
            invariant
                self.wf(),
                0 <= i <= self.rows@.len(),
                forall|k: int| 0 <= k < i ==> (#[trigger] self.rows@[k]).src_file_name@ != src@,
            decreases self.rows@.len() - i,
        {
            if self.rows[i].src_file_name == *src {
                proof {
                    lemma_key_index_found(cache_keys(self.rows@), i as int);
                }
                return Some(i);
            }
            i = i + 1;
        }
        proof {
            let ks = cache_keys(self.rows@);
            assert forall|k: int| 0 <= k < ks.len() implies ks[k] != src@ by {
                assert(self.rows@[k].src_file_name@ != src@);
            }
        }
        None
    }

    /// The row for `src`, if the cache has one.
    pub fn get_cache(&self, src: &String) -> (r: Option<Cache>)
        requires
            self.wf(),
        ensures
            r is Some <==> self@.contains_key(src@),
            r is Some ==> r.unwrap().src_file_name@ == src@ && self@[src@] == (
                r.unwrap().html@,
                r.unwrap().hash@,
            ),
    {
        match self.find(src) {
            Some(i) => Some(
                Cache {
                    src_file_name: self.rows[i].src_file_name.clone(),
                    hash: self.rows[i].hash.clone(),
                    html: self.rows[i].html.clone(),
                },
            ),
            None => None,
        }
    }

    /// Stores `html` and `hash` for `src`: the row for `src` is updated in
    /// place, or added when there is none.
    pub fn set_cache(&mut self, src: String, html: String, hash: String)
        requires
            old(self).wf(),
        ensures
            final(self).wf(),
            final(self)@ == old(self)@.insert(src@, (html@, hash@)),
            final(self).rows@.len() == old(self).rows@.len() + if old(self)@.contains_key(src@) {
                0int
            } else {
                1int
            },
    {
        let ghost s = src@;
        let ghost v = (html@, hash@);
        let ghost rows0 = self.rows@;
        match self.find(&src) {
            Some(i) => {
                self.rows.set(i, Cache { src_file_name: src, hash, html });
                proof {
                    assert(cache_keys(self.rows@) =~= cache_keys(rows0));
                    assert(self@ =~= old(self)@.insert(s, v));
                }
            },
            None => {
                self.rows.push(Cache { src_file_name: src, hash, html });
                proof {
                    lemma_key_index_push(cache_keys(rows0), s);
                    assert(cache_keys(self.rows@) =~= cache_keys(rows0).push(s));
                    assert(self@ =~= old(self)@.insert(s, v));
                }
            },
        }
    }

    /// Whether `src` must be rendered again: the cache does not hold `hash`
    /// for it.
    pub fn needs_render(&self, src: &String, hash: &String) -> (r: bool)
        requires
            self.wf(),
        ensures
            r == needs_render_spec(self@, src@, hash@),
    {
        match self.find(src) {
            Some(i) => !(self.rows[i].hash == *hash),
            None => true,
        }
    }

    /// The source paths that have a row.
    pub fn get_cache_src_file_names(&self) -> (r: Vec<String>)
        requires
            self.wf(),
        ensures
            r@.len() == self.rows@.len(),
            forall|i: int| 0 <= i < r@.len() ==> #[trigger] r@[i] == self.rows@[i].src_file_name,
    {
        let mut r: Vec<String> = Vec::new();
        let mut i: usize = 0;
        while i < self.rows.len()
            invariant
                0 <= i <= self.rows@.len(),
                r@.len() == i,
                forall|j: int| 0 <= j < i ==> #[trigger] r@[j] == self.rows@[j].src_file_name,
            decreases self.rows@.len() - i,
        {
            r.push(self.rows[i].src_file_name.clone());
            i = i + 1;
        }
        r
    }

    /// Removes the row for `src`; returns whether there was one.
    pub fn del_cache(&mut self, src: &String) -> (r: bool)
        requires
            old(self).wf(),
        ensures
            final(self).wf(),
            r == old(self)@.contains_key(src@),
            final(self)@ == old(self)@.remove(src@),
    {
        let ghost rows0 = self.rows@;
        match self.find(src) {
            Some(i) => {
                self.rows.remove(i);
                proof {
                    lemma_key_index_remove(cache_keys(rows0), i as int);
                    assert(cache_keys(self.rows@) =~= cache_keys(rows0).remove(i as int));
                    assert(self@ =~= old(self)@.remove(src@));
                }
                true
            },
            None => {
                assert(self@ =~= old(self)@.remove(src@));
                false
            },
        }
    }
}

/// Storing a value and reading it back gives exactly that value; other
/// paths are not affected.
pub proof fn lemma_set_then_get(
    m: Map<Seq<char>, (Seq<char>, Seq<char>)>,
    src: Seq<char>,
    html: Seq<char>,
    hash: Seq<char>,
)
    ensures
        m.insert(src, (html, hash)).contains_key(src),
        m.insert(src, (html, hash))[src] == (html, hash),
        !needs_render_spec(m.insert(src, (html, hash)), src, hash),
        forall|other: Seq<char>|
            other != src ==> #[trigger] m.insert(src, (html, hash)).contains_key(other)
                == m.contains_key(other),
{
}

} // verus!
