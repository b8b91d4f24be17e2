//! Paths as plain values: an anchor and the components below it.

use vstd::prelude::*;

verus! {

/// The mathematical value of a path.
pub struct PathView {
    /// What precedes the first component: empty for a relative path, the root
    /// (with a prefix, where the platform has one) for an absolute path.
    pub anchor: Seq<char>,
    /// The components below the anchor, outermost first.
    pub parts: Seq<Seq<char>>,
}

impl PathView {
    /// This path with `name` adjoined as its last component.
    pub open spec fn join(self, name: Seq<char>) -> PathView {
        PathView { anchor: self.anchor, parts: self.parts.push(name) }
    }

    /// This path without its last component, if it has one.
    pub open spec fn parent(self) -> Option<PathView> {
        if self.parts.len() > 0 {
            Some(PathView { anchor: self.anchor, parts: self.parts.drop_last() })
        } else {
            None
        }
    }

    /// The last component of this path, if it has one.
    pub open spec fn file_name(self) -> Option<Seq<char>> {
        if self.parts.len() > 0 {
            Some(self.parts.last())
        } else {
            None
        }
    }

    /// This path as text: the anchor, then the components with `/` between
    /// them.
    pub open spec fn text(self) -> Seq<char> {
        self.anchor + joined(self.parts)
    }

    /// The path `levels` components above this one.
    pub open spec fn ancestor(self, levels: int) -> PathView {
        PathView { anchor: self.anchor, parts: self.parts.take(self.parts.len() - levels) }
    }
}

/// The texts of `parts` in a row, with `/` between each two.
pub open spec fn joined(parts: Seq<Seq<char>>) -> Seq<char>
    decreases parts.len(),
{
    if parts.len() == 0 {
        Seq::empty()
    } else if parts.len() == 1 {
        parts[0]
    } else {
        joined(parts.drop_last()) + "/"@ + parts.last()
    }
}

/// A path: an anchor and the components below it.
///
/// Two paths are the same path when their anchors and their components are
/// equal, which is what `view` exposes.
#[derive(Debug, PartialEq, Eq)]
pub struct FsPath {
    pub anchor: String,
    pub parts: Vec<String>,
}

impl View for FsPath {
    type V = PathView;

    open spec fn view(&self) -> PathView {
        PathView {
            anchor: self.anchor@,
            parts: Seq::new(self.parts@.len(), |i: int| self.parts@[i]@),
        }
    }
}

impl Clone for FsPath {
    fn clone(&self) -> (copy: Self)
        ensures
            copy@ == self@,
    {
        let mut parts: Vec<String> = Vec::new();
        let mut i: usize = 0;
        while i < self.parts.len()
            invariant
                i <= self.parts.len(),
                parts@.len() == i,
                forall|k: int| 0 <= k < i ==> parts@[k]@ == self.parts@[k]@,
            decreases self.parts.len() - i,
        {
            parts.push(self.parts[i].clone());
            i += 1;
        }
        let copy = FsPath { anchor: self.anchor.clone(), parts };
        assert(copy@.parts =~= self@.parts);
        copy
    }
}

impl FsPath {
    /// Whether `self` and `other` are the same path.
    pub fn same(&self, other: &FsPath) -> (r: bool)
        ensures
            r == (self@ == other@),
    {
        if self.anchor != other.anchor {
            return false;
        }
        if self.parts.len() != other.parts.len() {
            assert(self@.parts.len() != other@.parts.len());
            return false;
        }
        let mut i: usize = 0;
        while i < self.parts.len()
            invariant
                i <= self.parts.len(),
                self.parts.len() == other.parts.len(),
                forall|k: int| 0 <= k < i ==> self.parts@[k]@ == other.parts@[k]@,
            decreases self.parts.len() - i,
        {
            if self.parts[i] != other.parts[i] {
                assert(self@.parts[i as int] != other@.parts[i as int]);
                return false;
            }
            i += 1;
        }
        assert(self@.parts =~= other@.parts);
        true
    }

    /// Returns this path with `name` adjoined as its last component; `name`
    /// is taken as one component, whatever it holds.
    pub fn join(&self, name: &str) -> (joined: FsPath)
        ensures
            joined@ == self@.join(name@),
    {
        let mut joined = self.clone();
        joined.parts.push(String::from_str(name));
        assert(joined@.parts =~= self@.parts.push(name@));
        joined
    }

    /// Removes the last component, if there is one, and says whether it did.
    pub fn pop(&mut self) -> (popped: bool)
        ensures
            popped == old(self)@.parent().is_some(),
            popped ==> Some(final(self)@) == old(self)@.parent(),
            !popped ==> final(self)@ == old(self)@,
    {
        match self.parts.pop() {
            Some(_) => {
                assert(self@.parts =~= old(self)@.parts.drop_last());
                true
            },
            None => false,
        }
    }

    /// Returns this path as text.
    pub fn display(&self) -> (text: String)
        ensures
            text@ == self@.text(),
    {
        let mut text = String::new();
        let mut i: usize = 0;
        while i < self.parts.len()
            invariant
                i <= self.parts.len(),
                text@ == joined(self@.parts.take(i as int)),
            decreases self.parts.len() - i,
        {
            if i > 0 {
                text.append("/");
            }
            text.append(self.parts[i].as_str());
            proof {
                let before = self@.parts.take(i as int);
                let after = self@.parts.take(i + 1);
                assert(after.drop_last() =~= before);
                assert(after.last() == self.parts@[i as int]@);
            }
            i += 1;
        }
        assert(self@.parts.take(i as int) =~= self@.parts);
        let mut whole = self.anchor.clone();
        whole.append(text.as_str());
        whole
    }

    /// Returns the last component, if there is one.
    pub fn file_name(&self) -> (name: Option<&str>)
        ensures
            match name {
                Some(n) => self@.file_name() == Some(n@),
                None => self@.file_name().is_none(),
            },
    {
        let n = self.parts.len();
        if n == 0 {
            None
        } else {
            Some(self.parts[n - 1].as_str())
        }
    }
}

} // verus!
