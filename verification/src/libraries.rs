//! The libraries that a configuration describes.

use vstd::prelude::*;

use crate::config::LibraryConfig;
use crate::text::{is_blank, trimmed, white_space, white_space_around_is_taken_away};

verus! {

/// A configured library.
#[derive(Debug)]
pub struct Library {
    pub id: i64,
    pub name: String,
    pub path: String,
}

impl Clone for Library {
    fn clone(&self) -> (r: Self)
        ensures
            r == *self,
    {
        Library { id: self.id, name: self.name.clone(), path: self.path.clone() }
    }
}

impl Library {
    /// The folder that holds the library.
    pub fn root(&self) -> (r: String)
        ensures
            r@ == self.path@,
    {
        self.path.clone()
    }

    /// Whether this is what the configuration says of the library at index `i`.
    pub open spec fn describes(self, i: int, cfg: LibraryConfig) -> bool {
        &&& self.id == i + 1
        &&& self.name@ == trimmed(cfg.name@)
        &&& self.path@ == cfg.path@
    }
}

/// Whether `libraries` are those that `cfg` describes, in its order.
pub open spec fn described(libraries: Seq<Library>, cfg: Seq<LibraryConfig>) -> bool {
    &&& libraries.len() == cfg.len()
    &&& forall|i: int| 0 <= i < cfg.len() ==> (#[trigger] libraries[i]).describes(i, cfg[i])
}

/// The libraries that a configuration describes. A library's `id` is the
/// 1-based index into `cfg`: stable as long as `[[library]]` entries aren't
/// reordered or removed, which is an acceptable tradeoff for a single-user
/// server with no shared registry across libraries.
pub fn describe_all(cfg: &Vec<LibraryConfig>) -> (r: Vec<Library>)
    requires
        cfg@.len() <= i64::MAX,
    ensures
        described(r@, cfg@),
{
    let mut out: Vec<Library> = Vec::new();
    let mut i: usize = 0;
    while i < cfg.len()
        invariant
            i <= cfg@.len() <= i64::MAX,
            out@.len() == i,
            forall|j: int| 0 <= j < i ==> (#[trigger] out@[j]).describes(j, cfg@[j]),
        decreases cfg@.len() - i,
    {
        let lib = &cfg[i];
        out.push(
            Library {
                id: i as i64 + 1,
                name: lib.name.as_str().trim().to_owned(),
                path: lib.path.clone(),
            },
        );
        i += 1;
    }
    out
}

/// The file in a library's folder that holds its database.
pub fn database_name() -> (r: &'static str)
    ensures
        r@ == "library.db"@,
{
    "library.db"
}

/// Finds the first library called `name`.
pub fn find_named(libraries: &Vec<Library>, name: &str) -> (r: Option<usize>)
    ensures
        match r {
            Some(i) => {
                &&& i < libraries@.len()
                &&& libraries@[i as int].name@ == name@
                &&& forall|j: int| 0 <= j < i ==> (#[trigger] libraries@[j]).name@ != name@
            },
            None => forall|j: int|
                0 <= j < libraries@.len() ==> (#[trigger] libraries@[j]).name@ != name@,
        },
{
    let mut i: usize = 0;
    while i < libraries.len()
        invariant
            i <= libraries@.len(),
            forall|j: int| 0 <= j < i ==> (#[trigger] libraries@[j]).name@ != name@,
        decreases libraries@.len() - i,
    {
        if *libraries[i].name.as_str() == *name {
            return Some(i);
        }
        i += 1;
    }
    None
}

/// The libraries of a configuration all have different ids.
pub proof fn described_ids_differ(libraries: Seq<Library>, cfg: Seq<LibraryConfig>)
    requires
        described(libraries, cfg),
    ensures
        forall|i: int, j: int|
            0 <= i < j < libraries.len() ==> (#[trigger] libraries[i]).id != (
            #[trigger] libraries[j]).id,
{
    assert forall|i: int, j: int| 0 <= i < j < libraries.len() implies (
    #[trigger] libraries[i]).id != (#[trigger] libraries[j]).id by {
        assert(libraries[i].describes(i, cfg[i]));
        assert(libraries[j].describes(j, cfg[j]));
    }
}

/// Entries added at the end of the configuration leave the ids of the libraries
/// before them as they were.
pub proof fn added_libraries_keep_ids(
    before: Seq<Library>,
    after: Seq<Library>,
    cfg: Seq<LibraryConfig>,
    added: Seq<LibraryConfig>,
)
    requires
        described(before, cfg),
        described(after, cfg + added),
    ensures
        forall|i: int|
            0 <= i < before.len() ==> {
                &&& (#[trigger] after[i]).id == before[i].id
                &&& after[i].name@ == before[i].name@
                &&& after[i].path@ == before[i].path@
            },
{
    assert forall|i: int| 0 <= i < before.len() implies {
        &&& (#[trigger] after[i]).id == before[i].id
        &&& after[i].name@ == before[i].name@
        &&& after[i].path@ == before[i].path@
    } by {
        assert((cfg + added)[i] == cfg[i]);
        assert(before[i].describes(i, cfg[i]));
        assert(after[i].describes(i, (cfg + added)[i]));
    }
}

/// The libraries are numbered from 1 in the order of the configuration, and keep
/// their folders and their names, up to white space around these.
pub proof fn libraries_are_numbered_in_order(
    libraries: Seq<Library>,
    cfg: Seq<LibraryConfig>,
    i: int,
    a: Seq<char>,
    name: Seq<char>,
    b: Seq<char>,
)
    requires
        described(libraries, cfg),
        0 <= i < cfg.len(),
        is_blank(a),
        is_blank(b),
        name.len() > 0,
        !white_space(name[0]),
        !white_space(name.last()),
        cfg[i].name@ == a + name + b,
    ensures
        libraries.len() == cfg.len(),
        libraries[0].id == 1,
        i > 0 ==> libraries[i].id == libraries[i - 1].id + 1,
        libraries[i].name@ == name,
        libraries[i].path@ == cfg[i].path@,
{
    assert(libraries[0].describes(0, cfg[0]));
    assert(libraries[i].describes(i, cfg[i]));
    if i > 0 {
        assert(libraries[i - 1].describes(i - 1, cfg[i - 1]));
    }
    white_space_around_is_taken_away(a, name, b);
}

} // verus!
