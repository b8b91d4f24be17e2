//! The root of a workspace: which manager governs a directory, and from
//! which directory.

use crate::listing::Listing;
use crate::manager::{
    parse, preference, recognize_inverts_marker, text_of, InvalidFileError, Manager,
    ParseManagerError, SEARCH_ORDER,
};
use crate::path::{FsPath, PathView};
use crate::search::{
    candidate, earliest_hit, first_hit, hit, search_fails_without_hit, search_up, texts, winner,
    winner_is_first_hit, NotFoundError,
};
use vstd::prelude::*;

verus! {

/// The marker files of a list of managers.
pub open spec fn markers(files: Seq<Manager>) -> Seq<Seq<char>> {
    Seq::new(files.len(), |i: int| files[i].marker())
}

/// The mathematical value of a `RootError`.
pub enum RootErrorView {
    NotFound,
    Manager(Seq<char>),
}

/// The mathematical value of a `Root`.
pub struct RootView {
    pub manager: Manager,
    pub path: PathView,
}

/// The root that the search from `cwd` for the markers of `files` finds: the
/// directory of the first marker that exists, with the manager whose marker
/// it is.
pub open spec fn locate(listing: Set<PathView>, cwd: PathView, files: Seq<Manager>) -> Option<
    RootView,
> {
    match winner(listing, cwd, markers(files)) {
        Some((level, slot)) => Some(RootView { manager: files[slot], path: cwd.ancestor(level) }),
        None => None,
    }
}

/// The root of the workspace that governs `cwd`, given the value of the
/// override and the files that exist.
pub open spec fn resolve(value: Option<Seq<char>>, cwd: PathView, listing: Set<PathView>) -> Result<
    RootView,
    RootErrorView,
> {
    match preference(value) {
        Err(text) => Err(RootErrorView::Manager(ParseManagerError::describe(text))),
        Ok(Some(manager)) => match locate(listing, cwd, seq![manager]) {
            Some(root) => Ok(root),
            None => Err(RootErrorView::NotFound),
        },
        Ok(None) => match locate(listing, cwd, SEARCH_ORDER@) {
            Some(root) => Ok(root),
            None => Err(RootErrorView::NotFound),
        },
    }
}

/// Why no root was found.
#[derive(Debug, PartialEq, Eq)]
pub enum RootError {
    /// No marker exists in the directory or in any directory above it.
    NotFound,
    /// What was taken for a manager or for its marker file is none; the
    /// message says which.
    Manager(String),
}

impl View for RootError {
    type V = RootErrorView;

    open spec fn view(&self) -> RootErrorView {
        match self {
            RootError::NotFound => RootErrorView::NotFound,
            RootError::Manager(message) => RootErrorView::Manager(message@),
        }
    }
}

impl RootError {
    /// Returns the message of this error.
    pub fn message(&self) -> (text: String)
        ensures
            text@ == match self@ {
                RootErrorView::NotFound => "entity not found"@,
                RootErrorView::Manager(message) => message,
            },
    {
        match self {
            RootError::NotFound => NotFoundError.message(),
            RootError::Manager(message) => message.clone(),
        }
    }
}

impl vstd::std_specs::convert::FromSpecImpl<NotFoundError> for RootError {
    open spec fn obeys_from_spec() -> bool {
        true
    }

    open spec fn from_spec(error: NotFoundError) -> RootError {
        RootError::NotFound
    }
}

impl From<NotFoundError> for RootError {
    /// Returns `RootError::NotFound`.
    fn from(error: NotFoundError) -> (r: RootError)
        ensures
            r == RootError::NotFound,
    {
        RootError::NotFound
    }
}

impl vstd::std_specs::convert::FromSpecImpl<ParseManagerError> for RootError {
    /// Contracts know a `String` by its text only, so what `from` returns is
    /// stated on `from` itself, over the views.
    open spec fn obeys_from_spec() -> bool {
        false
    }

    open spec fn from_spec(error: ParseManagerError) -> RootError {
        choose|r: RootError| r@ == RootErrorView::Manager(ParseManagerError::describe(error@))
    }
}

impl From<ParseManagerError> for RootError {
    /// Returns the error whose message is that of `error`.
    fn from(error: ParseManagerError) -> (r: RootError)
        ensures
            r@ == RootErrorView::Manager(ParseManagerError::describe(error@)),
    {
        RootError::Manager(error.message())
    }
}

impl vstd::std_specs::convert::FromSpecImpl<InvalidFileError> for RootError {
    /// Contracts know a `String` by its text only, so what `from` returns is
    /// stated on `from` itself, over the views.
    open spec fn obeys_from_spec() -> bool {
        false
    }

    open spec fn from_spec(error: InvalidFileError) -> RootError {
        choose|r: RootError| r@ == RootErrorView::Manager(InvalidFileError::describe(error@))
    }
}

impl From<InvalidFileError> for RootError {
    /// Returns the error whose message is that of `error`.
    fn from(error: InvalidFileError) -> (r: RootError)
        ensures
            r@ == RootErrorView::Manager(InvalidFileError::describe(error@)),
    {
        RootError::Manager(error.message())
    }
}

/// The root of a workspace: the manager that governs it and the directory in
/// which the marker of that manager lies.
#[derive(Debug, PartialEq, Eq)]
pub struct Root {
    manager: Manager,
    path: FsPath,
}

impl View for Root {
    type V = RootView;

    closed spec fn view(&self) -> RootView {
        RootView { manager: self.manager, path: self.path@ }
    }
}

/// Returns the marker file names of `files`, in their order.
fn marker_names(files: &[Manager]) -> (names: Vec<&'static str>)
    ensures
        texts(names@) == markers(files@),
{
    let mut names: Vec<&'static str> = Vec::new();
    let mut i: usize = 0;
    while i < files.len()
        invariant
            i <= files.len(),
            names@.len() == i,
            forall|k: int| 0 <= k < i ==> names@[k]@ == files@[k].marker(),
        decreases files.len() - i,
    {
        names.push(files[i].as_ref());
        i += 1;
    }
    assert(texts(names@) =~= markers(files@));
    names
}

impl Root {
    /// Returns the root of the workspace that governs `cwd`.
    ///
    /// `preferred` is the value of the override, `None` where it is not set.
    /// Where it names a manager, only the marker of that manager is searched
    /// for; where it names none, that is the error, whatever markers exist.
    /// Where it is not set, the first marker found on the way up decides,
    /// and within one directory the first in `SEARCH_ORDER`. What the search
    /// finds is always the marker of a manager, so no error of a file that is
    /// none comes out of here.
    pub fn new(cwd: &FsPath, preferred: Option<&str>, listing: &Listing) -> (r: Result<
        Root,
        RootError,
    >)
        ensures
            match r {
                Ok(root) => resolve(text_of(preferred), cwd@, listing@) == Ok::<
                    RootView,
                    RootErrorView,
                >(root@),
                Err(e) => resolve(text_of(preferred), cwd@, listing@) == Err::<
                    RootView,
                    RootErrorView,
                >(e@),
            },
            r matches Ok(root) ==> listing@.contains(root@.path.join(root@.manager.marker())),
    {
        match Manager::from_env(preferred) {
            Err(e) => {
                return Err(RootError::from(e));
            },
            Ok(Some(manager)) => {
                return match Root::with_manager(cwd, manager, listing) {
                    Ok(root) => Ok(root),
                    Err(e) => Err(RootError::from(e)),
                };
            },
            Ok(None) => {},
        }
        let names = marker_names(SEARCH_ORDER.as_slice());
        let mut path = match search_up(cwd, names.as_slice(), listing) {
            Ok(found) => found,
            Err(e) => {
                return Err(RootError::from(e));
            },
        };
        proof {
            let (level, slot) = winner(listing@, cwd@, markers(SEARCH_ORDER@)).unwrap();
            winner_is_first_hit(listing@, cwd@, markers(SEARCH_ORDER@), level, slot);
            recognize_inverts_marker(cwd@.ancestor(level), SEARCH_ORDER@[slot]);
            assert(path@.parts.drop_last() =~= cwd@.ancestor(level).parts);
        }
        let manager = match Manager::try_from(&path) {
            Ok(manager) => manager,
            Err(e) => {
                return Err(RootError::from(e));
            },
        };
        path.pop();
        Ok(Root { manager, path })
    }

    /// Returns the root of the workspace of `manager` that governs `cwd`: the
    /// nearest directory, `cwd` or one above it, in which the marker of
    /// `manager` exists.
    pub fn with_manager(cwd: &FsPath, manager: Manager, listing: &Listing) -> (r: Result<
        Root,
        NotFoundError,
    >)
        ensures
            match r {
                Ok(root) => locate(listing@, cwd@, seq![manager]) == Some(root@),
                Err(_) => locate(listing@, cwd@, seq![manager]).is_none(),
            },
            r matches Ok(root) ==> root@.manager == manager && listing@.contains(
                root@.path.join(manager.marker()),
            ),
    {
        let files = [manager.as_ref()];
        assert(texts(files@) =~= markers(seq![manager]));
        let mut path = match search_up(cwd, files.as_slice(), listing) {
            Ok(found) => found,
            Err(e) => {
                return Err(e);
            },
        };
        proof {
            let (level, slot) = winner(listing@, cwd@, markers(seq![manager])).unwrap();
            winner_is_first_hit(listing@, cwd@, markers(seq![manager]), level, slot);
            assert(path@.parts.drop_last() =~= cwd@.ancestor(level).parts);
        }
        path.pop();
        Ok(Root { manager, path })
    }

    /// Returns the manager that governs the workspace.
    pub fn manager(&self) -> (manager: Manager)
        ensures
            manager == self@.manager,
    {
        self.manager
    }

    /// Returns the directory that is the root of the workspace.
    pub fn path(&self) -> (path: &FsPath)
        ensures
            path@ == self@.path,
    {
        &self.path
    }
}

/// The place of `manager` in `SEARCH_ORDER`.
pub open spec fn order_of(manager: Manager) -> int {
    match manager {
        Manager::Lerna => 0,
        Manager::Rush => 1,
        Manager::Yarn => 2,
        Manager::Pnpm => 3,
        Manager::Npm => 4,
    }
}

/// `SEARCH_ORDER` holds each manager once: Lerna, Rush, Yarn, Pnpm, Npm.
pub proof fn search_order_is_total()
    ensures
        SEARCH_ORDER@ =~= seq![
            Manager::Lerna,
            Manager::Rush,
            Manager::Yarn,
            Manager::Pnpm,
            Manager::Npm,
        ],
        forall|manager: Manager| SEARCH_ORDER@[#[trigger] order_of(manager)] == manager,
{
}

/// The marker of the manager of a root that was found exists in the
/// directory of that root, that manager is one of `files`, and that
/// directory is `cwd` or lies above it.
pub proof fn root_holds_its_marker(
    listing: Set<PathView>,
    cwd: PathView,
    files: Seq<Manager>,
    root: RootView,
)
    requires
        locate(listing, cwd, files) == Some(root),
    ensures
        listing.contains(root.path.join(root.manager.marker())),
        files.contains(root.manager),
        exists|level: int| 0 <= level <= cwd.parts.len() && root.path == cwd.ancestor(level),
{
    let (level, slot) = winner(listing, cwd, markers(files)).unwrap();
    winner_is_first_hit(listing, cwd, markers(files), level, slot);
    assert(root.path == cwd.ancestor(level));
    assert(files[slot] == root.manager);
}

/// A marker in a nearer directory wins over every marker farther up,
/// whatever the order of their managers: where the marker of one of `files`
/// exists `level` components above `cwd`, a root is found, and it lies no
/// more than `level` components above `cwd`.
pub proof fn nearest_marker_wins(
    listing: Set<PathView>,
    cwd: PathView,
    files: Seq<Manager>,
    level: int,
    manager: Manager,
)
    requires
        0 <= level <= cwd.parts.len(),
        files.contains(manager),
        listing.contains(candidate(cwd, level, manager.marker())),
    ensures
        match locate(listing, cwd, files) {
            Some(root) => exists|nearer: int|
                0 <= nearer <= level && root.path == #[trigger] cwd.ancestor(nearer),
            None => false,
        },
{
    let slot = choose|slot: int| 0 <= slot < files.len() && files[slot] == manager;
    assert(hit(listing, cwd, markers(files), level, slot));
    let first = earliest_hit(listing, cwd, markers(files), level, slot);
    assert(locate(listing, cwd, files)->Some_0.path == cwd.ancestor(first.0));
}

/// Within the nearest directory that holds a marker, the order of `files`
/// decides: the root found is that directory, with the first manager of
/// `files` whose marker it holds.
pub proof fn order_breaks_ties(
    listing: Set<PathView>,
    cwd: PathView,
    files: Seq<Manager>,
    level: int,
    slot: int,
)
    requires
        hit(listing, cwd, markers(files), level, slot),
        forall|l: int, s: int| l < level ==> !hit(listing, cwd, markers(files), l, s),
        forall|s: int| s < slot ==> !hit(listing, cwd, markers(files), level, s),
    ensures
        locate(listing, cwd, files) == Some(
            RootView { manager: files[slot], path: cwd.ancestor(level) },
        ),
{
    assert(first_hit(listing, cwd, markers(files), level, slot));
    winner_is_first_hit(listing, cwd, markers(files), level, slot);
}

/// Nothing is found exactly where the marker of none of `files` exists in
/// the directory or in any directory above it.
pub proof fn nothing_found_without_markers(
    listing: Set<PathView>,
    cwd: PathView,
    files: Seq<Manager>,
)
    ensures
        locate(listing, cwd, files).is_none() <==> forall|level: int, slot: int|
            0 <= level <= cwd.parts.len() && 0 <= slot < files.len() ==> !listing.contains(
                #[trigger] candidate(cwd, level, files[slot].marker()),
            ),
{
    search_fails_without_hit(listing, cwd, markers(files));
    if locate(listing, cwd, files).is_none() {
        assert forall|level: int, slot: int|
            0 <= level <= cwd.parts.len() && 0 <= slot < files.len() implies !listing.contains(
            #[trigger] candidate(cwd, level, files[slot].marker()),
        ) by {
            assert(!hit(listing, cwd, markers(files), level, slot));
        }
    }
}

/// An override that names no manager is the error, whatever markers exist.
pub proof fn bad_override_is_the_error(text: Seq<char>, cwd: PathView, listing: Set<PathView>)
    requires
        parse(text).is_none(),
    ensures
        resolve(Some(text), cwd, listing) == Err::<RootView, RootErrorView>(
            RootErrorView::Manager(ParseManagerError::describe(text)),
        ),
{
}

/// With an override that names a manager, only the marker of that manager
/// counts: where it exists in no directory on the way up, nothing is found,
/// whatever other markers exist; where it exists, the nearest directory that
/// holds it is the root.
pub proof fn override_searches_one_marker(
    text: Seq<char>,
    manager: Manager,
    cwd: PathView,
    listing: Set<PathView>,
)
    requires
        parse(text) == Some(manager),
    ensures
        (forall|level: int|
            0 <= level <= cwd.parts.len() ==> !listing.contains(
                #[trigger] candidate(cwd, level, manager.marker()),
            )) ==> resolve(Some(text), cwd, listing) == Err::<RootView, RootErrorView>(
            RootErrorView::NotFound,
        ),
        forall|level: int|
            0 <= level <= cwd.parts.len() && listing.contains(
                #[trigger] candidate(cwd, level, manager.marker()),
            ) && (forall|l: int|
                0 <= l < level ==> !listing.contains(
                    #[trigger] candidate(cwd, l, manager.marker()),
                )) ==> resolve(Some(text), cwd, listing) == Ok::<RootView, RootErrorView>(
                RootView { manager, path: cwd.ancestor(level) },
            ),
{
    let files = seq![manager];
    nothing_found_without_markers(listing, cwd, files);
    assert forall|level: int|
        0 <= level <= cwd.parts.len() && listing.contains(
            #[trigger] candidate(cwd, level, manager.marker()),
        ) && (forall|l: int|
            0 <= l < level ==> !listing.contains(
                #[trigger] candidate(cwd, l, manager.marker()),
            )) implies resolve(Some(text), cwd, listing) == Ok::<RootView, RootErrorView>(
        RootView { manager, path: cwd.ancestor(level) },
    ) by {
        assert forall|l: int, s: int| l < level implies !hit(
            listing,
            cwd,
            markers(files),
            l,
            s,
        ) by {
            if 0 <= l && s == 0 {
                assert(!listing.contains(candidate(cwd, l, manager.marker())));
            }
        }
        order_breaks_ties(listing, cwd, files, level, 0);
    }
}

/// Without an override, nothing is found exactly where no marker of any
/// manager exists in the directory or in any directory above it.
pub proof fn no_root_without_markers(cwd: PathView, listing: Set<PathView>)
    ensures
        resolve(None, cwd, listing) == Err::<RootView, RootErrorView>(RootErrorView::NotFound)
            <==> forall|level: int, manager: Manager|
            0 <= level <= cwd.parts.len() ==> !listing.contains(
                #[trigger] candidate(cwd, level, manager.marker()),
            ),
{
    search_order_is_total();
    nothing_found_without_markers(listing, cwd, SEARCH_ORDER@);
    if locate(listing, cwd, SEARCH_ORDER@).is_none() {
        assert forall|level: int, manager: Manager|
            0 <= level <= cwd.parts.len() implies !listing.contains(
            #[trigger] candidate(cwd, level, manager.marker()),
        ) by {
            assert(SEARCH_ORDER@[order_of(manager)] == manager);
        }
    }
}

/// Without an override, the nearest directory that holds a marker is the
/// root, however the managers of the markers above it rank.
pub proof fn nearest_directory_is_the_root(
    cwd: PathView,
    listing: Set<PathView>,
    level: int,
    manager: Manager,
)
    requires
        0 <= level <= cwd.parts.len(),
        listing.contains(candidate(cwd, level, manager.marker())),
    ensures
        match resolve(None, cwd, listing) {
            Ok(root) => exists|nearer: int|
                0 <= nearer <= level && root.path == #[trigger] cwd.ancestor(nearer),
            Err(_) => false,
        },
{
    search_order_is_total();
    assert(SEARCH_ORDER@[order_of(manager)] == manager);
    nearest_marker_wins(listing, cwd, SEARCH_ORDER@, level, manager);
}

/// Without an override, a directory that holds the marker of a manager, with
/// no marker in any nearer directory, is the root; its manager is the first
/// in `SEARCH_ORDER` whose marker it holds, so that `lerna.json` beside
/// `yarn.lock` gives Lerna.
pub proof fn precedence_breaks_ties(
    cwd: PathView,
    listing: Set<PathView>,
    level: int,
    manager: Manager,
)
    requires
        0 <= level <= cwd.parts.len(),
        listing.contains(candidate(cwd, level, manager.marker())),
        forall|l: int, m: Manager|
            0 <= l < level ==> !listing.contains(#[trigger] candidate(cwd, l, m.marker())),
        forall|m: Manager|
            order_of(m) < order_of(manager) ==> !listing.contains(
                #[trigger] candidate(cwd, level, m.marker()),
            ),
    ensures
        resolve(None, cwd, listing) == Ok::<RootView, RootErrorView>(
            RootView { manager, path: cwd.ancestor(level) },
        ),
{
    search_order_is_total();
    let files = SEARCH_ORDER@;
    assert forall|l: int, s: int| l < level implies !hit(listing, cwd, markers(files), l, s) by {
        if 0 <= l && 0 <= s < 5 {
            assert(!listing.contains(candidate(cwd, l, files[s].marker())));
        }
    }
    assert forall|s: int| s < order_of(manager) implies !hit(
        listing,
        cwd,
        markers(files),
        level,
        s,
    ) by {
        if 0 <= s {
            assert(order_of(files[s]) == s);
            assert(!listing.contains(candidate(cwd, level, files[s].marker())));
        }
    }
    order_breaks_ties(listing, cwd, files, level, order_of(manager));
}

} // verus!
