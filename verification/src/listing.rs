//! What is known of a file system: the paths at which something exists.

use crate::path::{FsPath, PathView};
use vstd::prelude::*;

verus! {

/// The paths at which a file or a directory is known to exist.
#[derive(Debug)]
pub struct Listing {
    pub paths: Vec<FsPath>,
}

impl View for Listing {
    type V = Set<PathView>;

    open spec fn view(&self) -> Set<PathView> {
        Set::new(
            |path: PathView| exists|i: int| 0 <= i < self.paths@.len() && self.paths@[i]@ == path,
        )
    }
}

impl Listing {
    /// Returns a listing in which nothing exists.
    pub fn new() -> (listing: Listing)
        ensures
            listing@ == Set::<PathView>::empty(),
    {
        let listing = Listing { paths: Vec::new() };
        assert(listing@ =~= Set::<PathView>::empty());
        listing
    }

    /// Records that something exists at `path`.
    pub fn insert(&mut self, path: FsPath)
        ensures
            final(self)@ == old(self)@.insert(path@),
    {
        self.paths.push(path);
        assert forall|p: PathView| self@.contains(p) <==> old(self)@.insert(path@).contains(p) by {
            if self@.contains(p) {
                let i = choose|i: int| 0 <= i < self.paths@.len() && self.paths@[i]@ == p;
                if i < old(self).paths@.len() {
                    assert(old(self).paths@[i]@ == p);
                }
            }
            if old(self)@.contains(p) {
                let i = choose|i: int| 0 <= i < old(self).paths@.len() && old(self).paths@[i]@ == p;
                assert(self.paths@[i]@ == p);
            }
            if p == path@ {
                assert(self.paths@[self.paths@.len() - 1]@ == p);
            }
        }
        assert(self@ =~= old(self)@.insert(path@));
    }

    /// Whether something is known to exist at `path`.
    pub fn contains(&self, path: &FsPath) -> (found: bool)
        ensures
            found == self@.contains(path@),
    {
        let mut i: usize = 0;
        while i < self.paths.len()
            invariant
                i <= self.paths.len(),
                forall|k: int| 0 <= k < i ==> self.paths@[k]@ != path@,
            decreases self.paths.len() - i,
        {
            if self.paths[i].same(path) {
                return true;
            }
            i += 1;
        }
        false
    }
}

} // verus!
