//! Paths, taken apart into their components as the machine does it.

use vstd::prelude::*;

use crate::text::{chars_of, find_last, last_index, lemma_last_index, text_of};

verus! {

/// One component of a path.
#[derive(Debug)]
pub enum Component {
    /// What comes before the root, such as a drive, where the machine has that.
    Prefix { text: String },
    /// The root directory.
    RootDir,
    /// The current directory.
    CurDir,
    /// The directory above.
    ParentDir,
    /// A file or a directory.
    Normal { name: String },
}

/// A path: its components, from the first to the last.
#[derive(Debug)]
pub struct FilePath {
    pub components: Vec<Component>,
}

/// A `Component` with the text that it holds.
#[verifier::ext_equal]
pub enum Part {
    Prefix { text: Seq<char> },
    RootDir,
    CurDir,
    ParentDir,
    Normal { name: Seq<char> },
}

impl View for Component {
    type V = Part;

    open spec fn view(&self) -> Part {
        match self {
            Component::Prefix { text } => Part::Prefix { text: text@ },
            Component::RootDir => Part::RootDir,
            Component::CurDir => Part::CurDir,
            Component::ParentDir => Part::ParentDir,
            Component::Normal { name } => Part::Normal { name: name@ },
        }
    }
}

impl View for FilePath {
    type V = Seq<Part>;

    open spec fn view(&self) -> Seq<Part> {
        Seq::new(self.components@.len(), |i: int| self.components@[i]@)
    }
}

/// Whether `path` lies at or below `base`, component by component.
pub open spec fn lies_below(path: Seq<Part>, base: Seq<Part>) -> bool {
    base.is_prefix_of(path)
}

/// The last component of a path where that is a name.
pub open spec fn last_name(path: Seq<Part>) -> Option<Seq<char>> {
    if path.len() == 0 {
        None
    } else {
        match path.last() {
            Part::Normal { name } => Some(name),
            _ => None,
        }
    }
}

/// What follows the last `.` of a file name, where something stands before that.
pub open spec fn name_extension(name: Seq<char>) -> Option<Seq<char>> {
    if last_index(name, '.') <= 0 {
        None
    } else {
        Some(name.skip(last_index(name, '.') + 1))
    }
}

/// The extension of the file that a path names.
pub open spec fn path_extension(path: Seq<Part>) -> Option<Seq<char>> {
    match last_name(path) {
        Some(name) => name_extension(name),
        None => None,
    }
}

/// What is called `name` in the directory `base`.
pub open spec fn named(base: Seq<Part>, name: Seq<char>) -> Seq<Part> {
    base.push(Part::Normal { name })
}

/// Whether the directory that holds `path` is `dir`.
pub open spec fn has_parent(path: Seq<Part>, dir: Seq<Part>) -> bool {
    &&& path.len() > 0
    &&& !(path.last() is Prefix || path.last() is RootDir)
    &&& path.drop_last() == dir
}

/// Whether every machine takes `name` for one name: it holds no separator and
/// nothing that marks a drive, and is neither the directory itself nor the one
/// above.
pub open spec fn plain_name(name: Seq<char>) -> bool {
    &&& name.len() > 0
    &&& !name.contains('/')
    &&& !name.contains('\\')
    &&& !name.contains(':')
    &&& name != seq!['.']
    &&& name != seq!['.', '.']
}

/// Whether two components are the same.
fn same_component(a: &Component, b: &Component) -> (r: bool)
    ensures
        r == (a@ == b@),
{
    match (a, b) {
        (Component::Prefix { text: s }, Component::Prefix { text: t }) => *s.as_str()
            == *t.as_str(),
        (Component::Normal { name: s }, Component::Normal { name: t }) => *s.as_str()
            == *t.as_str(),
        (Component::RootDir, Component::RootDir) => true,
        (Component::CurDir, Component::CurDir) => true,
        (Component::ParentDir, Component::ParentDir) => true,
        _ => false,
    }
}

impl Clone for Component {
    fn clone(&self) -> (r: Self)
        ensures
            r@ == self@,
    {
        match self {
            Component::Prefix { text } => Component::Prefix { text: text.clone() },
            Component::RootDir => Component::RootDir,
            Component::CurDir => Component::CurDir,
            Component::ParentDir => Component::ParentDir,
            Component::Normal { name } => Component::Normal { name: name.clone() },
        }
    }
}

impl Clone for FilePath {
    fn clone(&self) -> (r: Self)
        ensures
            r@ == self@,
    {
        let mut components: Vec<Component> = Vec::new();
        let mut i: usize = 0;
        while i < self.components.len()
            invariant
                i <= self.components@.len(),
                components@.len() == i,
                forall|j: int|
                    0 <= j < i ==> (#[trigger] components@[j])@ == self.components@[j]@,
            decreases self.components@.len() - i,
        {
            components.push(self.components[i].clone());
            i += 1;
        }
        let r = FilePath { components };
        assert(r@ =~= self@);
        r
    }
}

impl FilePath {
    /// Whether the first `n` components of two paths are the same.
    fn same_start(&self, other: &FilePath, n: usize) -> (r: bool)
        requires
            n <= self@.len(),
            n <= other@.len(),
        ensures
            r == (self@.take(n as int) == other@.take(n as int)),
    {
        let mut i: usize = 0;
        while i < n
            invariant
                i <= n,
                n <= self@.len(),
                n <= other@.len(),
                forall|j: int| 0 <= j < i ==> self@[j] == other@[j],
            decreases n - i,
        {
            if !same_component(&self.components[i], &other.components[i]) {
                assert(self@.take(n as int)[i as int] != other@.take(n as int)[i as int]);
                return false;
            }
            i += 1;
        }
        assert(self@.take(n as int) =~= other@.take(n as int));
        true
    }

    /// Whether this path lies at or below `base`.
    pub fn starts_with(&self, base: &FilePath) -> (r: bool)
        ensures
            r == lies_below(self@, base@),
    {
        let n = base.components.len();
        if n > self.components.len() {
            return false;
        }
        assert(base@.take(n as int) =~= base@);
        self.same_start(base, n)
    }

    /// The last component of the path where that is a name.
    pub fn file_name(&self) -> (r: Option<String>)
        ensures
            match r {
                Some(name) => last_name(self@) == Some(name@),
                None => last_name(self@) is None,
            },
    {
        let n = self.components.len();
        if n == 0 {
            return None;
        }
        assert(self@.last() == self.components@[n - 1]@);
        match &self.components[n - 1] {
            Component::Normal { name } => Some(name.clone()),
            _ => None,
        }
    }

    /// The extension of the file that the path names.
    pub fn extension(&self) -> (r: Option<String>)
        ensures
            match r {
                Some(ext) => path_extension(self@) == Some(ext@),
                None => path_extension(self@) is None,
            },
    {
        match self.file_name() {
            None => None,
            Some(name) => {
                let chars = chars_of(name.as_str());
                proof {
                    lemma_last_index(name@, '.');
                }
                let end = chars.len();
                match find_last(chars.as_slice(), '.') {
                    None => None,
                    Some(dot) => {
                        if dot == 0 {
                            None
                        } else {
                            let ext = text_of(chars.as_slice(), dot + 1, end);
                            assert(ext@ =~= name@.skip(dot + 1));
                            Some(ext)
                        }
                    },
                }
            },
        }
    }

    /// What is called `name` in the directory that the path names.
    pub fn join(&self, name: &str) -> (r: FilePath)
        ensures
            r@ == named(self@, name@),
    {
        let mut r = self.clone();
        r.components.push(Component::Normal { name: name.to_owned() });
        assert(r@ =~= named(self@, name@));
        r
    }

    /// Whether the directory that holds what the path names is `dir`.
    pub fn is_in(&self, dir: &FilePath) -> (r: bool)
        ensures
            r == has_parent(self@, dir@),
    {
        if self.components.len() == 0 {
            return false;
        }
        let n: usize = self.components.len() - 1;
        assert(self@.last() == self.components@[n as int]@);
        assert(self@.drop_last() =~= self@.take(n as int));
        match &self.components[n] {
            Component::Prefix { .. } => {
                return false;
            },
            Component::RootDir => {
                return false;
            },
            _ => {},
        }
        if dir.components.len() != n {
            return false;
        }
        assert(dir@.take(n as int) =~= dir@);
        self.same_start(dir, n)
    }
}

/// The extension of a file is what follows the last dot of its name, where
/// something stands before that dot.
pub proof fn extension_follows_the_last_dot(dir: Seq<Part>, stem: Seq<char>, ext: Seq<char>)
    requires
        !ext.contains('.'),
    ensures
        path_extension(named(dir, stem + seq!['.'] + ext)) == if stem.len() > 0 {
            Some(ext)
        } else {
            None
        },
        path_extension(named(dir, ext)) is None,
{
    let name = stem + seq!['.'] + ext;
    let at = stem.len() as int;
    assert(named(dir, name).last() == (Part::Normal { name }));
    assert(named(dir, ext).last() == (Part::Normal { name: ext }));
    lemma_last_index(name, '.');
    lemma_last_index(ext, '.');
    assert(name[at] == '.');
    assert forall|i: int| at < i < name.len() implies name[i] != '.' by {
        assert(ext.contains(ext[i - at - 1]));
    }
    assert(last_index(name, '.') == at);
    assert(name.skip(at + 1) =~= ext);
}

/// A path has a file name exactly where its last component is a name, and then
/// it is that name.
pub proof fn file_name_is_the_last_component(dir: Seq<Part>, part: Part)
    ensures
        last_name(dir.push(part)) == match part {
            Part::Normal { name } => Some(name),
            _ => None,
        },
        last_name(seq![]) is None,
        path_extension(dir.push(part)) is Some ==> part is Normal,
{
    assert(dir.push(part).last() == part);
}

/// What lies below a directory is the directory with more components behind it,
/// and nothing else.
pub proof fn what_lies_below_goes_on(path: Seq<Part>, base: Seq<Part>, more: Seq<Part>)
    ensures
        lies_below(base + more, base),
        lies_below(path, base) ==> path == base + path.skip(base.len() as int),
        lies_below(path, base) && lies_below(base, path) ==> path == base,
{
    assert((base + more).take(base.len() as int) =~= base);
    assert(base.is_prefix_of(base + more));
    if lies_below(path, base) {
        assert(path =~= base + path.skip(base.len() as int));
        if lies_below(base, path) {
            assert(path =~= base);
        }
    }
}

/// What a directory holds is the directory and one component more, which is not
/// a root; and it holds everything of that form.
pub proof fn a_directory_holds_what_goes_on_by_one(dir: Seq<Part>, part: Part, path: Seq<Part>)
    ensures
        has_parent(dir.push(part), dir) <==> !(part is Prefix || part is RootDir),
        has_parent(path, dir) ==> path.len() == dir.len() + 1 && path == dir.push(path.last()),
{
    assert(dir.push(part).last() == part);
    assert(dir.push(part).drop_last() =~= dir);
    if has_parent(path, dir) {
        assert(path =~= dir.push(path.last()));
    }
}

} // verus!
