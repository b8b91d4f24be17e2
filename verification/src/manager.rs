//! The closed set of supported workspace managers, their identifiers and
//! their marker files.

use crate::path::{FsPath, PathView};
use vstd::prelude::*;

verus! {

/// A workspace manager.
#[derive(Clone, Copy, Debug, PartialEq, Eq, Structural)]
pub enum Manager {
    Yarn,
    Pnpm,
    Rush,
    Npm,
    Lerna,
}

/// The order in which the markers are tried within one directory: the first
/// manager whose marker is present wins.
///
/// A lerna repository usually carries the lock file of a package manager too,
/// so `Lerna` has to come before all of them.
pub const SEARCH_ORDER: [Manager; 5] = [
    Manager::Lerna,
    Manager::Rush,
    Manager::Yarn,
    Manager::Pnpm,
    Manager::Npm,
];

/// The name of the environment variable that names the preferred manager.
pub const PREFERRED_WORKSPACE_MANAGER: &'static str = "PREFERRED_WORKSPACE_MANAGER";

/// The lowercase form of an ASCII capital letter; any other character
/// unchanged.
pub open spec fn lower(c: char) -> char {
    if 'A' <= c && c <= 'Z' {
        ((c as int) + 32) as char
    } else {
        c
    }
}

/// The capital form of an ASCII lowercase letter; any other character
/// unchanged.
pub open spec fn upper(c: char) -> char {
    if 'a' <= c && c <= 'z' {
        ((c as int) - 32) as char
    } else {
        c
    }
}

/// `text` with every character replaced by its lowercase form.
pub open spec fn lowered(text: Seq<char>) -> Seq<char> {
    Seq::new(text.len(), |i: int| lower(text[i]))
}

/// Whether `text` is `name` with each letter in either case.
pub open spec fn is_casing_of(text: Seq<char>, name: Seq<char>) -> bool {
    &&& text.len() == name.len()
    &&& forall|i: int| 0 <= i < name.len() ==> text[i] == name[i] || text[i] == upper(name[i])
}

/// The manager that `text` names, without regard to the case of its letters.
pub open spec fn parse(text: Seq<char>) -> Option<Manager> {
    let folded = lowered(text);
    if folded == Manager::Yarn.identifier() {
        Some(Manager::Yarn)
    } else if folded == Manager::Pnpm.identifier() {
        Some(Manager::Pnpm)
    } else if folded == Manager::Rush.identifier() {
        Some(Manager::Rush)
    } else if folded == Manager::Npm.identifier() {
        Some(Manager::Npm)
    } else if folded == Manager::Lerna.identifier() {
        Some(Manager::Lerna)
    } else {
        None
    }
}

/// The manager whose marker file is named `name`, exactly.
pub open spec fn of_marker(name: Seq<char>) -> Option<Manager> {
    if name == Manager::Yarn.marker() {
        Some(Manager::Yarn)
    } else if name == Manager::Pnpm.marker() {
        Some(Manager::Pnpm)
    } else if name == Manager::Rush.marker() {
        Some(Manager::Rush)
    } else if name == Manager::Npm.marker() {
        Some(Manager::Npm)
    } else if name == Manager::Lerna.marker() {
        Some(Manager::Lerna)
    } else {
        None
    }
}

/// The manager to which the file at `path` belongs: the one whose marker is
/// the last component of `path`.
pub open spec fn recognize(path: PathView) -> Option<Manager> {
    match path.file_name() {
        Some(name) => of_marker(name),
        None => None,
    }
}

/// The text of an optional string.
pub open spec fn text_of(value: Option<&str>) -> Option<Seq<char>> {
    match value {
        Some(text) => Some(text@),
        None => None,
    }
}

/// The preference that an override expresses: none where it is unset, the
/// manager it names where it names one, and otherwise the rejected text.
pub open spec fn preference(value: Option<Seq<char>>) -> Result<Option<Manager>, Seq<char>> {
    match value {
        None => Ok(None),
        Some(text) => match parse(text) {
            Some(manager) => Ok(Some(manager)),
            None => Err(text),
        },
    }
}

/// A text that names no manager.
#[derive(Debug, PartialEq, Eq)]
pub struct ParseManagerError(pub String);

impl View for ParseManagerError {
    type V = Seq<char>;

    open spec fn view(&self) -> Seq<char> {
        self.0@
    }
}

impl ParseManagerError {
    /// The message of an error that carries `input`.
    pub open spec fn describe(input: Seq<char>) -> Seq<char> {
        "Invalid manager: "@ + input
    }

    /// Returns the message of this error.
    pub fn message(&self) -> (text: String)
        ensures
            text@ == Self::describe(self@),
    {
        String::from_str("Invalid manager: ").concat(self.0.as_str())
    }
}

/// A path whose last component is no marker file.
#[derive(Debug, PartialEq, Eq)]
pub struct InvalidFileError(pub FsPath);

impl View for InvalidFileError {
    type V = PathView;

    open spec fn view(&self) -> PathView {
        self.0@
    }
}

impl InvalidFileError {
    /// The message of an error that carries `path`.
    pub open spec fn describe(path: PathView) -> Seq<char> {
        "Invalid manager file: "@ + path.text()
    }

    /// Returns the message of this error.
    pub fn message(&self) -> (text: String)
        ensures
            text@ == Self::describe(self@),
    {
        let shown = self.0.display();
        String::from_str("Invalid manager file: ").concat(shown.as_str())
    }
}

/// Whether `input`, with its capital letters lowered, is `name`.
fn matches_ignoring_case(input: &str, name: &str) -> (r: bool)
    ensures
        r == (lowered(input@) == name@),
{
    let n = name.unicode_len();
    if input.unicode_len() != n {
        assert(lowered(input@).len() != name@.len());
        return false;
    }
    let mut i: usize = 0;
    while i < n
        invariant
            i <= n,
            n == name@.len(),
            n == input@.len(),
            forall|k: int| 0 <= k < i ==> lower(input@[k]) == name@[k],
        decreases n - i,
    {
        let c = input.get_char(i);
        let folded = if 'A' <= c && c <= 'Z' {
            ((c as u8) + 32) as char
        } else {
            c
        };
        if folded != name.get_char(i) {
            assert(lowered(input@)[i as int] != name@[i as int]);
            return false;
        }
        i += 1;
    }
    assert(lowered(input@) =~= name@);
    true
}

/// Whether `a` and `b` are the same text.
fn same_text(a: &str, b: &str) -> (r: bool)
    ensures
        r == (a@ == b@),
{
    let n = a.unicode_len();
    if b.unicode_len() != n {
        assert(a@.len() != b@.len());
        return false;
    }
    let mut i: usize = 0;
    while i < n
        invariant
            i <= n,
            n == a@.len(),
            n == b@.len(),
            forall|k: int| 0 <= k < i ==> a@[k] == b@[k],
        decreases n - i,
    {
        if a.get_char(i) != b.get_char(i) {
            return false;
        }
        i += 1;
    }
    assert(a@ =~= b@);
    true
}

impl Manager {
    /// The lowercase name by which this manager is known.
    pub open spec fn identifier(self) -> Seq<char> {
        match self {
            Manager::Yarn => "yarn"@,
            Manager::Pnpm => "pnpm"@,
            Manager::Rush => "rush"@,
            Manager::Npm => "npm"@,
            Manager::Lerna => "lerna"@,
        }
    }

    /// The name of the file whose presence in a directory marks the directory
    /// as governed by this manager.
    pub open spec fn marker(self) -> Seq<char> {
        match self {
            Manager::Yarn => "yarn.lock"@,
            Manager::Pnpm => "pnpm-workspace.yaml"@,
            Manager::Rush => "rush.json"@,
            Manager::Npm => "package-lock.json"@,
            Manager::Lerna => "lerna.json"@,
        }
    }

    /// Returns the identifier of this manager.
    pub fn name(&self) -> (name: &'static str)
        ensures
            name@ == self.identifier(),
    {
        match self {
            Manager::Yarn => "yarn",
            Manager::Pnpm => "pnpm",
            Manager::Rush => "rush",
            Manager::Npm => "npm",
            Manager::Lerna => "lerna",
        }
    }

    /// Returns the preference that the value of the override expresses:
    /// `value` is `None` where the override is not set.
    ///
    /// A value that names no manager is an error, never the absence of a
    /// preference.
    pub fn from_env(value: Option<&str>) -> (r: Result<Option<Manager>, ParseManagerError>)
        ensures
            match r {
                Ok(preferred) => preference(text_of(value)) == Ok::<Option<Manager>, Seq<char>>(
                    preferred,
                ),
                Err(e) => preference(text_of(value)) == Err::<Option<Manager>, Seq<char>>(e@),
            },
    {
        match value {
            Some(text) => match <Manager as std::str::FromStr>::from_str(text) {
                Ok(manager) => Ok(Some(manager)),
                Err(e) => Err(e),
            },
            None => Ok(None),
        }
    }

    /// Returns the name of the marker file of this manager.
    pub fn as_ref(&self) -> (name: &'static str)
        ensures
            name@ == self.marker(),
    {
        match self {
            Manager::Yarn => "yarn.lock",
            Manager::Pnpm => "pnpm-workspace.yaml",
            Manager::Rush => "rush.json",
            Manager::Npm => "package-lock.json",
            Manager::Lerna => "lerna.json",
        }
    }

    /// Returns the manager whose marker file `path` names by its last
    /// component, whatever precedes it, or an error that carries `path`.
    pub fn try_from(path: &FsPath) -> (r: Result<Manager, InvalidFileError>)
        ensures
            match r {
                Ok(manager) => recognize(path@) == Some(manager),
                Err(e) => recognize(path@).is_none() && e@ == path@,
            },
    {
        match path.file_name() {
            Some(name) => {
                if same_text(name, Manager::Yarn.as_ref()) {
                    Ok(Manager::Yarn)
                } else if same_text(name, Manager::Pnpm.as_ref()) {
                    Ok(Manager::Pnpm)
                } else if same_text(name, Manager::Rush.as_ref()) {
                    Ok(Manager::Rush)
                } else if same_text(name, Manager::Npm.as_ref()) {
                    Ok(Manager::Npm)
                } else if same_text(name, Manager::Lerna.as_ref()) {
                    Ok(Manager::Lerna)
                } else {
                    Err(InvalidFileError(path.clone()))
                }
            },
            None => Err(InvalidFileError(path.clone())),
        }
    }
}

impl std::str::FromStr for Manager {
    type Err = ParseManagerError;

    /// Returns the manager that `input` names, in whatever case its letters
    /// are, or an error that carries `input` as it was given.
    fn from_str(input: &str) -> (r: Result<Manager, ParseManagerError>)
        ensures
            match r {
                Ok(manager) => parse(input@) == Some(manager),
                Err(e) => parse(input@).is_none() && e@ == input@,
            },
    {
        if matches_ignoring_case(input, Manager::Yarn.name()) {
            Ok(Manager::Yarn)
        } else if matches_ignoring_case(input, Manager::Pnpm.name()) {
            Ok(Manager::Pnpm)
        } else if matches_ignoring_case(input, Manager::Rush.name()) {
            Ok(Manager::Rush)
        } else if matches_ignoring_case(input, Manager::Npm.name()) {
            Ok(Manager::Npm)
        } else if matches_ignoring_case(input, Manager::Lerna.name()) {
            Ok(Manager::Lerna)
        } else {
            Err(ParseManagerError(input.to_owned()))
        }
    }
}

/// What the identifiers and the marker file names are, character by
/// character.
proof fn names_revealed()
    ensures
        "yarn"@ =~= seq!['y', 'a', 'r', 'n'],
        "pnpm"@ =~= seq!['p', 'n', 'p', 'm'],
        "rush"@ =~= seq!['r', 'u', 's', 'h'],
        "npm"@ =~= seq!['n', 'p', 'm'],
        "lerna"@ =~= seq!['l', 'e', 'r', 'n', 'a'],
        "yarn.lock"@.len() == 9 && "yarn.lock"@[0] == 'y',
        "pnpm-workspace.yaml"@.len() == 19,
        "rush.json"@.len() == 9 && "rush.json"@[0] == 'r',
        "package-lock.json"@.len() == 17,
        "lerna.json"@.len() == 10,
{
    reveal_strlit("yarn");
    reveal_strlit("pnpm");
    reveal_strlit("rush");
    reveal_strlit("npm");
    reveal_strlit("lerna");
    reveal_strlit("yarn.lock");
    reveal_strlit("pnpm-workspace.yaml");
    reveal_strlit("rush.json");
    reveal_strlit("package-lock.json");
    reveal_strlit("lerna.json");
}

/// No two managers share an identifier, and no two share a marker file.
pub proof fn names_are_distinct(a: Manager, b: Manager)
    requires
        a != b,
    ensures
        a.identifier() != b.identifier(),
        a.marker() != b.marker(),
{
    names_revealed();
}

/// A text names a manager exactly when it is that manager's identifier with
/// each letter in either case.
pub proof fn parse_accepts_exactly_the_casings(text: Seq<char>, manager: Manager)
    ensures
        parse(text) == Some(manager) <==> is_casing_of(text, manager.identifier()),
{
    names_revealed();
    let name = manager.identifier();
    if is_casing_of(text, name) {
        assert forall|i: int| 0 <= i < name.len() implies lowered(text)[i] == name[i] by {
            assert(text[i] == name[i] || text[i] == upper(name[i]));
        }
        assert(lowered(text) =~= name);
    }
    if parse(text) == Some(manager) {
        assert(lowered(text) == name);
        assert forall|i: int| 0 <= i < name.len() implies text[i] == name[i] || text[i] == upper(
            name[i],
        ) by {
            assert(lowered(text)[i] == lower(text[i]));
        }
    }
}

/// The marker file of a manager, in whatever directory it lies, is
/// recognized as the file of that manager.
pub proof fn recognize_inverts_marker(dir: PathView, manager: Manager)
    ensures
        recognize(dir.join(manager.marker())) == Some(manager),
{
    names_revealed();
    assert(dir.join(manager.marker()).parts.last() == manager.marker());
}

/// A path is recognized as the file of a manager only if its last component
/// is the marker file of that manager.
pub proof fn recognize_only_markers(path: PathView, manager: Manager)
    ensures
        recognize(path) == Some(manager) <==> path.file_name() == Some(manager.marker()),
{
    names_revealed();
}

} // verus!
