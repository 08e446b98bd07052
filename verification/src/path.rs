//! Filesystem paths as sequences of components.

use crate::text::{chars_of, eq_ignore_ascii_case, same_ignoring_ascii_case};
use vstd::prelude::*;
use vstd::string::StrSliceExecFns;

verus! {

/// One component of a path, as the operating system's path syntax splits it.
#[derive(Debug, PartialEq, Eq, Hash)]
pub enum Component {
    /// A volume or share prefix, such as a drive letter.
    Prefix(String),
    /// The root directory.
    RootDir,
    /// A reference to the current directory.
    CurDir,
    /// A reference to the parent directory.
    ParentDir,
    /// An ordinary file or directory name.
    Normal(String),
}

/// The mathematical value of a [`Component`].
pub enum ComponentView {
    Prefix(Seq<char>),
    RootDir,
    CurDir,
    ParentDir,
    Normal(Seq<char>),
}

impl View for Component {
    type V = ComponentView;

    open spec fn view(&self) -> ComponentView {
        match *self {
            Component::Prefix(text) => ComponentView::Prefix(text@),
            Component::RootDir => ComponentView::RootDir,
            Component::CurDir => ComponentView::CurDir,
            Component::ParentDir => ComponentView::ParentDir,
            Component::Normal(name) => ComponentView::Normal(name@),
        }
    }
}

impl Component {
    /// Whether two components are the same kind and carry the same text.
    pub fn same(&self, other: &Component) -> (r: bool)
        ensures
            r == (self@ == other@),
    {
        match (self, other) {
            (Component::Prefix(a), Component::Prefix(b)) => *a == *b,
            (Component::RootDir, Component::RootDir) => true,
            (Component::CurDir, Component::CurDir) => true,
            (Component::ParentDir, Component::ParentDir) => true,
            (Component::Normal(a), Component::Normal(b)) => *a == *b,
            _ => false,
        }
    }
}

impl Clone for Component {
    fn clone(&self) -> (r: Component)
        ensures
            r@ == self@,
    {
        match self {
            Component::Prefix(text) => Component::Prefix(text.clone()),
            Component::RootDir => Component::RootDir,
            Component::CurDir => Component::CurDir,
            Component::ParentDir => Component::ParentDir,
            Component::Normal(name) => Component::Normal(name.clone()),
        }
    }
}

/// The mathematical value of a path: its components in order.
pub type PathView = Seq<ComponentView>;

/// A path, held as the components that the platform's path syntax splits it
/// into.  Two paths are the same path when their components are the same.
#[derive(Debug, PartialEq, Eq, Hash)]
pub struct WatchPath {
    components: Vec<Component>,
}

impl View for WatchPath {
    type V = PathView;

    closed spec fn view(&self) -> PathView {
        self.components@.map_values(|c: Component| c@)
    }
}

/// The extension that marks a replay file, without its dot.
pub const REPLAY_EXTENSION: &'static str = "slp";

/// The position of the last `.` in `name`, or -1 where it holds none.
pub open spec fn last_dot(name: Seq<char>) -> int
    decreases name.len(),
{
    if name.len() == 0 {
        -1
    } else if name.last() == '.' {
        name.len() - 1
    } else {
        last_dot(name.drop_last())
    }
}

/// The final component of `path` where that is an ordinary name.
pub open spec fn file_name_of(path: PathView) -> Option<Seq<char>> {
    if path.len() > 0 && path.last() is Normal {
        Some(path.last()->Normal_0)
    } else {
        None
    }
}

/// What follows the last `.` of a file name.  A name without a dot has no
/// extension, nor has one whose only dot comes first, nor has `..`.
pub open spec fn extension_of_name(name: Seq<char>) -> Option<Seq<char>> {
    if last_dot(name) <= 0 || name =~= seq!['.', '.'] {
        None
    } else {
        Some(name.subrange(last_dot(name) + 1, name.len() as int))
    }
}

/// The extension of the file name of `path`.
pub open spec fn extension_of(path: PathView) -> Option<Seq<char>> {
    match file_name_of(path) {
        Some(name) => extension_of_name(name),
        None => None,
    }
}

/// Whether `path` names a replay file: its extension is the replay
/// extension, in any mix of upper and lower case.
pub open spec fn is_replay_path(path: PathView) -> bool {
    match extension_of(path) {
        Some(ext) => same_ignoring_ascii_case(ext, REPLAY_EXTENSION@),
        None => false,
    }
}

/// `last_dot` finds a dot that no dot follows, and is -1 exactly where the
/// name holds no dot at all.
pub proof fn lemma_last_dot(name: Seq<char>)
    ensures
        -1 <= last_dot(name) < name.len(),
        last_dot(name) >= 0 ==> name[last_dot(name)] == '.',
        forall|i: int| last_dot(name) < i < name.len() ==> name[i] != '.',
    decreases name.len(),
{
    if name.len() > 0 && name.last() != '.' {
        let front = name.drop_last();
        lemma_last_dot(front);
        assert forall|i: int| last_dot(name) < i < name.len() implies name[i] != '.' by {
            if i < front.len() {
                assert(front[i] == name[i]);
            }
        }
    }
}

/// A path is in a concatenation where it is in one of the two parts.
pub proof fn lemma_contains_of_concat(a: Seq<PathView>, b: Seq<PathView>, p: PathView)
    ensures
        (a + b).contains(p) <==> a.contains(p) || b.contains(p),
{
    if a.contains(p) {
        let i = choose|i: int| 0 <= i < a.len() && a[i] == p;
        assert((a + b)[i] == p);
    }
    if b.contains(p) {
        let j = choose|j: int| 0 <= j < b.len() && b[j] == p;
        assert((a + b)[a.len() + j] == p);
    }
    if (a + b).contains(p) {
        let k = choose|k: int| 0 <= k < (a + b).len() && (a + b)[k] == p;
        if k < a.len() {
            assert(a[k] == p);
        } else {
            assert(b[k - a.len()] == p);
        }
    }
}

impl WatchPath {
    /// The path made of `components`, in order.
    pub fn new(components: Vec<Component>) -> (r: WatchPath)
        ensures
            r@ == components@.map_values(|c: Component| c@),
    {
        WatchPath { components }
    }

    /// The number of components.
    pub fn len(&self) -> (r: usize)
        ensures
            r == self@.len(),
    {
        self.components.len()
    }

    /// The component at `index`, counted from the front; `None` past the
    /// end.
    pub fn component(&self, index: usize) -> (r: Option<&Component>)
        ensures
            match r {
                Some(c) => index < self@.len() && c@ == self@[index as int],
                None => index >= self@.len(),
            },
    {
        if index < self.components.len() {
            Some(&self.components[index])
        } else {
            None
        }
    }

    /// Whether `self` and `other` are the same path.  The comparison runs
    /// from the last component to the first: paths under one directory
    /// differ at the end.
    pub fn same(&self, other: &WatchPath) -> (r: bool)
        ensures
            r == (self@ == other@),
    {
        let n = self.components.len();
        if n != other.components.len() {
            assert(self@.len() != other@.len());
            return false;
        }
        let mut i: usize = n;
        while i > 0
            invariant
                n == self.components.len(),
                n == other.components.len(),
                i <= n,
                forall|j: int| i <= j < n ==> self@[j] == other@[j],
            decreases i,
        {
            i -= 1;
            if !self.components[i].same(&other.components[i]) {
                assert(self@[i as int] != other@[i as int]);
                return false;
            }
        }
        assert(self@ =~= other@);
        true
    }

    /// Whether `base` is a prefix of `self`, component by component: a
    /// component matches whole or not at all.
    pub fn starts_with(&self, base: &WatchPath) -> (r: bool)
        ensures
            r == base@.is_prefix_of(self@),
    {
        if base.components.len() > self.components.len() {
            return false;
        }
        let mut i: usize = 0;
        while i < base.components.len()
            invariant
                base.components.len() <= self.components.len(),
                i <= base.components.len(),
                forall|j: int| 0 <= j < i ==> self@[j] == base@[j],
            decreases base.components.len() - i,
        {
            if !self.components[i].same(&base.components[i]) {
                assert(self@.subrange(0, base@.len() as int)[i as int] != base@[i as int]);
                return false;
            }
            i += 1;
        }
        true
    }

    /// Extends the path by one component.
    pub fn push(&mut self, component: Component)
        ensures
            final(self)@ == old(self)@.push(component@),
    {
        self.components.push(component);
    }

    /// The final component where that is an ordinary name.
    pub fn file_name(&self) -> (r: Option<&String>)
        ensures
            match r {
                Some(name) => file_name_of(self@) == Some(name@),
                None => file_name_of(self@) is None,
            },
    {
        let n = self.components.len();
        if n == 0 {
            return None;
        }
        match &self.components[n - 1] {
            Component::Normal(name) => Some(name),
            _ => None,
        }
    }

    /// The extension of the file name, without its dot.
    pub fn extension(&self) -> (r: Option<&str>)
        ensures
            match r {
                Some(ext) => extension_of(self@) == Some(ext@),
                None => extension_of(self@) is None,
            },
    {
        let name = match self.file_name() {
            Some(name) => name,
            None => {
                return None;
            },
        };
        let chars = chars_of(name.as_str());
        let n = chars.len();
        let mut i: usize = n;
        assert(chars@.take(n as int) =~= chars@);
        while i > 0 && chars[i - 1] != '.'
            invariant
                i <= n,
                n == chars@.len(),
                last_dot(chars@) == last_dot(chars@.take(i as int)),
            decreases i,
        {
            assert(chars@.take(i as int).drop_last() =~= chars@.take(i - 1));
            i -= 1;
        }
        proof {
            lemma_last_dot(chars@);
        }
        if i <= 1 || (n == 2 && chars[0] == '.') {
            return None;
        }
        Some(name.as_str().substring_char(i, n))
    }
}

impl Clone for WatchPath {
    fn clone(&self) -> (r: WatchPath)
        ensures
            r@ == self@,
    {
        let mut components: Vec<Component> = Vec::new();
        let mut i: usize = 0;
        while i < self.components.len()
            invariant
                i <= self.components.len(),
                components@.len() == i,
                forall|j: int| 0 <= j < i ==> components@[j]@ == self.components@[j]@,
            decreases self.components.len() - i,
        {
            components.push(self.components[i].clone());
            i += 1;
        }
        let r = WatchPath { components };
        r
    }
}

/// Whether `path` names a replay file.
pub fn is_slp_file(path: &WatchPath) -> (r: bool)
    ensures
        r == is_replay_path(path@),
{
    match path.extension() {
        Some(ext) => eq_ignore_ascii_case(ext, REPLAY_EXTENSION),
        None => false,
    }
}

} // verus!
