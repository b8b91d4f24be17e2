//! The upward search: from a directory towards the root of its tree, for the
//! first of a list of file names that exists.

use crate::listing::Listing;
use crate::path::{FsPath, PathView};
use vstd::prelude::*;

verus! {

/// The texts of a list of strings.
pub open spec fn texts(names: Seq<&str>) -> Seq<Seq<char>> {
    Seq::new(names.len(), |i: int| names[i]@)
}

/// The path that the search tests for `name` in the directory `level`
/// components above `cwd`.
pub open spec fn candidate(cwd: PathView, level: int, name: Seq<char>) -> PathView {
    cwd.ancestor(level).join(name)
}

/// Whether the file in place `slot` of `names` exists in the directory `level`
/// components above `cwd`.
pub open spec fn hit(
    listing: Set<PathView>,
    cwd: PathView,
    names: Seq<Seq<char>>,
    level: int,
    slot: int,
) -> bool {
    &&& 0 <= level <= cwd.parts.len()
    &&& 0 <= slot < names.len()
    &&& listing.contains(candidate(cwd, level, names[slot]))
}

/// Whether the search reaches the first place before the second: it tests
/// every name in one directory, in order, before it goes up.
pub open spec fn before(level: int, slot: int, other_level: int, other_slot: int) -> bool {
    level < other_level || (level == other_level && slot < other_slot)
}

/// Whether the search ends at `level` and `slot`: the file exists there, and
/// none at any place that the search reaches before.
pub open spec fn first_hit(
    listing: Set<PathView>,
    cwd: PathView,
    names: Seq<Seq<char>>,
    level: int,
    slot: int,
) -> bool {
    &&& hit(listing, cwd, names, level, slot)
    &&& forall|l: int, s: int| #[trigger]
        hit(listing, cwd, names, l, s) ==> !before(l, s, level, slot)
}

/// Where the search from `cwd` for `names` ends: the level and the slot of
/// the first file that exists, if any does.
pub open spec fn winner(listing: Set<PathView>, cwd: PathView, names: Seq<Seq<char>>) -> Option<
    (int, int),
> {
    if exists|level: int, slot: int| first_hit(listing, cwd, names, level, slot) {
        Some(choose|level: int, slot: int| first_hit(listing, cwd, names, level, slot))
    } else {
        None
    }
}

/// The path at which the search from `cwd` for `names` ends: that of the
/// first file that exists, if any does.
pub open spec fn search(listing: Set<PathView>, cwd: PathView, names: Seq<Seq<char>>) -> Option<
    PathView,
> {
    match winner(listing, cwd, names) {
        Some((level, slot)) => Some(candidate(cwd, level, names[slot])),
        None => None,
    }
}

/// The search found no file: none of the names exists in the directory or in
/// any directory above it.
#[derive(Clone, Copy, Debug, PartialEq, Eq, Structural)]
pub struct NotFoundError;

impl NotFoundError {
    /// Returns the message of this error.
    pub fn message(&self) -> (text: String)
        ensures
            text@ == "entity not found"@,
    {
        String::from_str("entity not found")
    }
}

/// Searches upward from `cwd` for a file named as one of `files`: in each
/// directory it tests the names in the order of `files`, and the first that
/// exists ends the search; where none exists it goes on in the directory
/// above, until there is none.
///
/// Returns the path of the file found.
pub fn search_up(cwd: &FsPath, files: &[&str], listing: &Listing) -> (r: Result<
    FsPath,
    NotFoundError,
>)
    ensures
        match r {
            Ok(found) => search(listing@, cwd@, texts(files@)) == Some(found@),
            Err(_) => search(listing@, cwd@, texts(files@)).is_none(),
        },
{
    let ghost names = texts(files@);
    let mut dir = cwd.clone();
    let ghost mut level: int = 0;
    assert(cwd@.ancestor(0).parts =~= cwd@.parts);
    loop
        invariant
            names == texts(files@),
            0 <= level <= cwd@.parts.len(),
            dir@ == cwd@.ancestor(level),
            forall|l: int, s: int| #[trigger] hit(listing@, cwd@, names, l, s) ==> level <= l,
        decreases cwd@.parts.len() - level,
    {
        let mut slot: usize = 0;
        while slot < files.len()
            invariant
                names == texts(files@),
                slot <= files.len(),
                0 <= level <= cwd@.parts.len(),
                dir@ == cwd@.ancestor(level),
                forall|l: int, s: int| #[trigger]
                    hit(listing@, cwd@, names, l, s) ==> level <= l && (l == level ==> slot <= s),
            decreases files.len() - slot,
        {
            let found = dir.join(files[slot]);
            if listing.contains(&found) {
                proof {
                    assert(hit(listing@, cwd@, names, level, slot as int));
                    winner_is_first_hit(listing@, cwd@, names, level, slot as int);
                }
                return Ok(found);
            }
            slot += 1;
        }
        if !dir.pop() {
            proof {
                assert forall|l: int, s: int| !hit(listing@, cwd@, names, l, s) by {}
            }
            return Err(NotFoundError);
        }
        proof {
            assert(cwd@.ancestor(level).parts.drop_last() =~= cwd@.ancestor(level + 1).parts);
            level = level + 1;
        }
    }
}

/// Returns the paths that the search from `cwd` for `files` may test: one
/// row for each directory, `cwd` first and then each directory above it, and
/// in each row the names in the order of `files`.
pub fn probes(cwd: &FsPath, files: &[&str]) -> (rows: Vec<Vec<FsPath>>)
    ensures
        rows@.len() == cwd@.parts.len() + 1,
        forall|level: int|
            0 <= level < rows@.len() ==> (#[trigger] rows@[level])@.len() == files@.len(),
        forall|level: int, slot: int|
            0 <= level < rows@.len() && 0 <= slot < files@.len() ==> rows@[level]@[slot]@
                == #[trigger] candidate(cwd@, level, files@[slot]@),
{
    let mut rows: Vec<Vec<FsPath>> = Vec::new();
    let mut dir = cwd.clone();
    assert(cwd@.ancestor(0).parts =~= cwd@.parts);
    loop
        invariant
            rows@.len() <= cwd@.parts.len(),
            dir@ == cwd@.ancestor(rows@.len() as int),
            forall|level: int|
                0 <= level < rows@.len() ==> (#[trigger] rows@[level])@.len() == files@.len(),
            forall|level: int, slot: int|
                0 <= level < rows@.len() && 0 <= slot < files@.len() ==> rows@[level]@[slot]@
                    == #[trigger] candidate(cwd@, level, files@[slot]@),
        decreases cwd@.parts.len() - rows@.len(),
    {
        let ghost level = rows@.len() as int;
        let mut row: Vec<FsPath> = Vec::new();
        let mut slot: usize = 0;
        while slot < files.len()
            invariant
                slot <= files.len(),
                row@.len() == slot,
                dir@ == cwd@.ancestor(level),
                forall|s: int|
                    0 <= s < slot ==> row@[s]@ == #[trigger] candidate(cwd@, level, files@[s]@),
            decreases files.len() - slot,
        {
            row.push(dir.join(files[slot]));
            slot += 1;
        }
        rows.push(row);
        if !dir.pop() {
            return rows;
        }
        proof {
            assert(cwd@.ancestor(level).parts.drop_last() =~= cwd@.ancestor(level + 1).parts);
        }
    }
}

/// The search ends at the one place where a file exists and none exists
/// before it.
pub proof fn winner_is_first_hit(
    listing: Set<PathView>,
    cwd: PathView,
    names: Seq<Seq<char>>,
    level: int,
    slot: int,
)
    ensures
        winner(listing, cwd, names) == Some((level, slot)) <==> first_hit(
            listing,
            cwd,
            names,
            level,
            slot,
        ),
{
    if first_hit(listing, cwd, names, level, slot) {
        let (l, s) = choose|l: int, s: int| first_hit(listing, cwd, names, l, s);
        assert(hit(listing, cwd, names, l, s));
        assert(hit(listing, cwd, names, level, slot));
        assert(!before(l, s, level, slot));
        assert(!before(level, slot, l, s));
    }
}

/// Where any of the files exists, one of them is the first: returns the
/// place at which the search ends, which is not after the given one.
pub proof fn earliest_hit(
    listing: Set<PathView>,
    cwd: PathView,
    names: Seq<Seq<char>>,
    level: int,
    slot: int,
) -> (first: (int, int))
    requires
        hit(listing, cwd, names, level, slot),
    ensures
        winner(listing, cwd, names) == Some(first),
        first_hit(listing, cwd, names, first.0, first.1),
        !before(level, slot, first.0, first.1),
    decreases level, slot,
{
    if exists|l: int, s: int| hit(listing, cwd, names, l, s) && before(l, s, level, slot) {
        let (l, s) = choose|l: int, s: int|
            hit(listing, cwd, names, l, s) && before(l, s, level, slot);
        earliest_hit(listing, cwd, names, l, s)
    } else {
        winner_is_first_hit(listing, cwd, names, level, slot);
        (level, slot)
    }
}

/// The search fails exactly where none of the files exists in the directory
/// or in any directory above it.
pub proof fn search_fails_without_hit(
    listing: Set<PathView>,
    cwd: PathView,
    names: Seq<Seq<char>>,
)
    ensures
        winner(listing, cwd, names).is_none() <==> forall|level: int, slot: int|
            !hit(listing, cwd, names, level, slot),
{
    if exists|level: int, slot: int| hit(listing, cwd, names, level, slot) {
        let (level, slot) = choose|level: int, slot: int| hit(listing, cwd, names, level, slot);
        earliest_hit(listing, cwd, names, level, slot);
    }
}

/// The search reads nothing but the paths that it tests: two listings that
/// agree on them give the same result.
pub proof fn search_reads_only_candidates(
    one: Set<PathView>,
    other: Set<PathView>,
    cwd: PathView,
    names: Seq<Seq<char>>,
)
    requires
        forall|level: int, slot: int|
            0 <= level <= cwd.parts.len() && 0 <= slot < names.len() ==> (one.contains(
                #[trigger] candidate(cwd, level, names[slot]),
            ) <==> other.contains(candidate(cwd, level, names[slot]))),
    ensures
        winner(one, cwd, names) == winner(other, cwd, names),
{
    assert forall|level: int, slot: int|
        hit(one, cwd, names, level, slot) == hit(other, cwd, names, level, slot) by {}
    if exists|level: int, slot: int| hit(one, cwd, names, level, slot) {
        let (level, slot) = choose|level: int, slot: int| hit(one, cwd, names, level, slot);
        let first = earliest_hit(one, cwd, names, level, slot);
        assert forall|l: int, s: int| #[trigger]
            hit(other, cwd, names, l, s) implies !before(l, s, first.0, first.1) by {
            assert(hit(one, cwd, names, l, s));
        }
        assert(hit(other, cwd, names, first.0, first.1));
        winner_is_first_hit(other, cwd, names, first.0, first.1);
    } else {
        search_fails_without_hit(one, cwd, names);
        search_fails_without_hit(other, cwd, names);
    }
}

} // verus!
