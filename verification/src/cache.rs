//! The cache of tilesets that maps share.
//!
//! A tileset kept in a file of its own is read once for each cache: every
//! map that names the file afterwards is handed the tileset that the first
//! one caused to be read.

use crate::error::TiledError;
use crate::text::same_text;
use crate::tileset::Tileset;
use std::sync::Arc;
use vstd::prelude::*;

verus! {

/// A table from the path of a tileset file to the tileset read from it. An
/// entry, once made, stays as it is for as long as the cache lives.
pub struct ResourceCache {
    /// The entries in the order in which they were made.
    pub entries: Vec<(String, Arc<Tileset>)>,
}

/// The table that a list of entries stands for: each entry in turn sets the
/// tileset of its path.
pub open spec fn table_of(entries: Seq<(String, Arc<Tileset>)>) -> Map<Seq<char>, Tileset>
    decreases entries.len(),
{
    if entries.len() == 0 {
        Map::empty()
    } else {
        table_of(entries.drop_last()).insert(entries.last().0@, *entries.last().1)
    }
}

impl View for ResourceCache {
    type V = Map<Seq<char>, Tileset>;

    open spec fn view(&self) -> Map<Seq<char>, Tileset> {
        table_of(self.entries@)
    }
}

/// What resolving a path through a cache comes to, where reading the file
/// would give `produced`: the cache afterwards, and the tileset handed out.
/// A path that is in the cache gives its entry and leaves the cache as it
/// is, whatever reading would give. A path that is not gives what reading
/// gives, and only a tileset that was read is entered.
pub open spec fn resolved(
    cache: Map<Seq<char>, Tileset>,
    path: Seq<char>,
    produced: Result<Tileset, TiledError>,
) -> (Map<Seq<char>, Tileset>, Result<Tileset, TiledError>) {
    if cache.contains_key(path) {
        (cache, Ok(cache[path]))
    } else {
        match produced {
            Ok(tileset) => (cache.insert(path, tileset), Ok(tileset)),
            Err(e) => (cache, Err(e)),
        }
    }
}

/// What a resolution hands out, without the sharing: the tileset itself.
pub open spec fn unshared(result: Result<Arc<Tileset>, TiledError>) -> Result<Tileset, TiledError> {
    match result {
        Ok(tileset) => Ok(*tileset),
        Err(e) => Err(e),
    }
}

/// A path that was resolved once is in the cache, and resolving it again
/// gives the same tileset and leaves the cache as it is, whatever reading
/// the file a second time would give: the file is read once.
pub proof fn lemma_resolved_once(
    cache: Map<Seq<char>, Tileset>,
    path: Seq<char>,
    first: Result<Tileset, TiledError>,
    second: Result<Tileset, TiledError>,
)
    requires
        resolved(cache, path, first).1 is Ok,
    ensures
        resolved(cache, path, first).0.contains_key(path),
        resolved(resolved(cache, path, first).0, path, second) == resolved(cache, path, first),
{
}

/// Resolving a path leaves every other path of the cache as it was, and a
/// failure leaves the whole cache as it was.
pub proof fn lemma_resolved_keeps(
    cache: Map<Seq<char>, Tileset>,
    path: Seq<char>,
    produced: Result<Tileset, TiledError>,
    other: Seq<char>,
)
    ensures
        cache.contains_key(other) ==> resolved(cache, path, produced).0.contains_key(other)
            && resolved(cache, path, produced).0[other] == cache[other],
        resolved(cache, path, produced).1 is Err ==> resolved(cache, path, produced).0 == cache,
{
}

impl ResourceCache {
    /// An empty cache.
    pub fn new() -> (cache: ResourceCache)
        ensures
            cache@ == Map::<Seq<char>, Tileset>::empty(),
    {
        ResourceCache { entries: Vec::new() }
    }

    /// The tileset of a path, if the cache holds one. The tileset is shared
    /// with the cache, not copied.
    pub fn get_tileset(&self, path: &str) -> (found: Option<Arc<Tileset>>)
        ensures
            match found {
                Some(tileset) => self@.contains_key(path@) && *tileset == self@[path@],
                None => !self@.contains_key(path@),
            },
    {
        let mut i: usize = self.entries.len();
        assert(self.entries@.take(i as int) =~= self.entries@);
        while i > 0
            invariant
                i <= self.entries.len(),
                self@.contains_key(path@) == table_of(self.entries@.take(i as int)).contains_key(
                    path@,
                ),
                self@.contains_key(path@) ==> self@[path@] == table_of(
                    self.entries@.take(i as int),
                )[path@],
            decreases i,
        {
            assert(self.entries@.take(i as int).drop_last() =~= self.entries@.take(i - 1));
            if same_text(self.entries[i - 1].0.as_str(), path) {
                return Some(self.entries[i - 1].1.clone());
            }
            i -= 1;
        }
        None
    }

    /// The tileset of a path: the one in the cache if there is one, else the
    /// one that `producer` makes, which is then entered under the path. The
    /// producer is called only for a path that the cache does not hold, so
    /// at most once for each path; where it fails, nothing is entered and
    /// its failure is the result.
    pub fn get_or_try_insert_tileset_with<F: FnOnce() -> Result<Tileset, TiledError>>(
        &mut self,
        path: String,
        producer: F,
    ) -> (result: Result<Arc<Tileset>, TiledError>)
        requires
            producer.requires(()),
        ensures
            (final(self)@, unshared(result)) == resolved(old(self)@, path@, unshared(result)),
            !old(self)@.contains_key(path@) ==> producer.ensures((), unshared(result)),
            result is Err ==> !old(self)@.contains_key(path@),
    {
        match self.get_tileset(path.as_str()) {
            Some(tileset) => Ok(tileset),
            None => match producer() {
                Ok(tileset) => {
                    let shared = Arc::new(tileset);
                    let ghost before = self.entries@;
                    self.entries.push((path, shared.clone()));
                    assert(self.entries@.drop_last() =~= before);
                    Ok(shared)
                },
                Err(e) => Err(e),
            },
        }
    }
}

} // verus!
