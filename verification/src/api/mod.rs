//! The decisions behind the HTTP API.

use vstd::prelude::*;

use crate::api::auth::CurrentUser;
use crate::api::error::{not_found, ApiError, ApiResult};
use crate::libraries::Library;
use crate::text::integer_value;
use crate::users::User;

pub mod auth;
pub mod downloaders;
pub mod error;
pub mod import;
pub mod playlists;

verus! {

/// What every request is answered from.
pub struct AppState {
    pub users: Vec<User>,
    pub libraries: Vec<Library>,
    pub downloaders_path: Option<String>,
}

/// The first library with the id `id`.
pub open spec fn library_with_id(libraries: Seq<Library>, id: i64) -> Option<Library>
    decreases libraries.len(),
{
    if libraries.len() == 0 {
        None
    } else if libraries[0].id == id {
        Some(libraries[0])
    } else {
        library_with_id(libraries.drop_first(), id)
    }
}

/// The libraries that a requester may read.
pub open spec fn readable(libraries: Seq<Library>, user: CurrentUser) -> Seq<Library> {
    libraries.filter(|lib: Library| user.access(lib.id).read)
}

impl AppState {
    /// Whether the library `id` is configured.
    pub open spec fn has_library(self, id: i64) -> bool {
        library_with_id(self.libraries@, id) is Some
    }

    /// What a requester is told of the library `id`.
    pub open spec fn library_reply(self, user: CurrentUser, id: i64) -> Result<
        Library,
        (u16, Seq<char>),
    > {
        match library_with_id(self.libraries@, id) {
            Some(lib) => if user.access(id).read {
                Ok(lib)
            } else {
                Err(not_found("library"@))
            },
            None => Err(not_found("library"@)),
        }
    }

    /// Whether a request for the library that `param` writes is let through.
    pub open spec fn admits_read(self, user: CurrentUser, param: Option<Seq<char>>) -> bool {
        match param {
            Some(text) => match integer_value(text) {
                Some(id) => self.has_library(id) && user.access(id).read,
                None => false,
            },
            None => false,
        }
    }

    /// Resolve a library id from the URL and return a copy of the library.
    /// Returns a 404 if the id is not configured.
    pub fn require_library(&self, id: i64) -> (r: ApiResult<Library>)
        ensures
            match r {
                Ok(lib) => library_with_id(self.libraries@, id) == Some(lib),
                Err(e) => !self.has_library(id) && e@ == not_found("library"@),
            },
    {
        let mut i: usize = 0;
        assert(self.libraries@.skip(0) =~= self.libraries@);
        while i < self.libraries.len()
            invariant
                i <= self.libraries@.len(),
                library_with_id(self.libraries@, id) == library_with_id(
                    self.libraries@.skip(i as int),
                    id,
                ),
            decreases self.libraries@.len() - i,
        {
            if self.libraries[i].id == id {
                return Ok(self.libraries[i].clone());
            }
            assert(self.libraries@.skip(i as int).drop_first() =~= self.libraries@.skip(i + 1));
            i += 1;
        }
        Err(ApiError::not_found("library"))
    }

    /// The libraries that a requester may read.
    pub fn list_libraries(&self, user: &CurrentUser) -> (r: Vec<Library>)
        ensures
            r@ == readable(self.libraries@, *user),
    {
        let mut out: Vec<Library> = Vec::new();
        let ghost pred = |lib: Library| user.access(lib.id).read;
        let mut i: usize = 0;
        proof {
            reveal(Seq::filter);
        }
        assert(self.libraries@.take(0).filter(pred) =~= Seq::<Library>::empty());
        while i < self.libraries.len()
            invariant
                i <= self.libraries@.len(),
                pred == (|lib: Library| user.access(lib.id).read),
                out@ == self.libraries@.take(i as int).filter(pred),
            decreases self.libraries@.len() - i,
        {
            let lib = &self.libraries[i];
            proof {
                reveal(Seq::filter);
                assert(self.libraries@.take(i + 1).drop_last() =~= self.libraries@.take(
                    i as int,
                ));
            }
            if user.can_read(lib.id) {
                out.push(lib.clone());
            }
            i += 1;
        }
        assert(self.libraries@.take(i as int) =~= self.libraries@);
        out
    }

    /// The library `id`, for a requester who may read it.
    pub fn get_library(&self, user: &CurrentUser, id: i64) -> (r: ApiResult<Library>)
        ensures
            match r {
                Ok(lib) => self.library_reply(*user, id) == Ok::<Library, (u16, Seq<char>)>(lib),
                Err(e) => self.library_reply(*user, id) == Err::<Library, (u16, Seq<char>)>(e@),
            },
    {
        let lib = self.require_library(id)?;
        if !user.can_read(id) {
            return Err(ApiError::not_found("library"));
        }
        Ok(lib)
    }

    /// Why a requester may not change a library.
    pub open spec fn write_refusal(self, user: CurrentUser, id: i64) -> Option<(u16, Seq<char>)> {
        if !self.has_library(id) {
            Some(not_found("library"@))
        } else if !user.access(id).write {
            Some(error::forbidden("write access required"@))
        } else {
            None
        }
    }

    /// Checks that a library exists and that the requester may change it.
    pub fn require_library_write(&self, user: &CurrentUser, id: i64) -> (r: ApiResult<()>)
        ensures
            match r {
                Ok(()) => self.write_refusal(*user, id) is None,
                Err(e) => self.write_refusal(*user, id) == Some(e@),
            },
    {
        self.require_library(id)?;
        user.require_write(id)
    }

    /// Why a requester may not run downloader scripts against a library.
    pub open spec fn upload_refusal(self, user: CurrentUser, id: i64) -> Option<(u16, Seq<char>)> {
        if !self.has_library(id) {
            Some(not_found("library"@))
        } else if !user.access(id).upload {
            Some(error::forbidden("upload access required"@))
        } else {
            None
        }
    }

    /// Checks that a library exists and that the requester may run downloader
    /// scripts against it.
    pub fn require_library_upload(&self, user: &CurrentUser, id: i64) -> (r: ApiResult<Library>)
        ensures
            match r {
                Ok(lib) => {
                    &&& self.upload_refusal(*user, id) is None
                    &&& library_with_id(self.libraries@, id) == Some(lib)
                },
                Err(e) => self.upload_refusal(*user, id) == Some(e@),
            },
    {
        let lib = self.require_library(id)?;
        user.require_upload(id)?;
        Ok(lib)
    }
}

/// A requester who may not read a library is answered as if it had never been
/// configured, whatever they ask of it: about the library itself, about
/// anything below it, and in the list of libraries.
pub proof fn unreadable_is_unknown(
    state: AppState,
    without: AppState,
    user: CurrentUser,
    id: i64,
    text: Seq<char>,
)
    requires
        !user.access(id).read,
        !without.has_library(id),
        integer_value(text) == Some(id),
    ensures
        state.library_reply(user, id) == without.library_reply(user, id),
        state.admits_read(user, Some(text)) == without.admits_read(user, Some(text)),
        forall|lib: Library| readable(state.libraries@, user).contains(lib) ==> lib.id != id,
{
    let pred = |lib: Library| user.access(lib.id).read;
    assert forall|lib: Library| readable(state.libraries@, user).contains(lib) implies lib.id
        != id by {
        lemma_filtered(state.libraries@, pred, lib);
    }
}

proof fn lemma_filtered(libraries: Seq<Library>, pred: spec_fn(Library) -> bool, lib: Library)
    requires
        libraries.filter(pred).contains(lib),
    ensures
        pred(lib),
        libraries.contains(lib),
    decreases libraries.len(),
{
    reveal(Seq::filter);
    if libraries.len() > 0 {
        let rest = libraries.drop_last();
        let kept = rest.filter(pred);
        if pred(libraries.last()) {
            let k = choose|k: int| 0 <= k < kept.push(libraries.last()).len() && kept.push(
                libraries.last(),
            )[k] == lib;
            if k < kept.len() {
                assert(kept[k] == lib);
                lemma_filtered(rest, pred, lib);
                let j = rest.index_of(lib);
                assert(libraries[j] == lib);
            } else {
                assert(libraries[libraries.len() - 1] == lib);
            }
        } else {
            lemma_filtered(rest, pred, lib);
            let j = rest.index_of(lib);
            assert(libraries[j] == lib);
        }
    }
}

/// Where no users are configured, every configured library is readable.
pub proof fn open_api_reads_everything(state: AppState, id: i64)
    requires
        state.has_library(id),
    ensures
        state.library_reply(CurrentUser::Open, id) is Ok,
        state.write_refusal(CurrentUser::Open, id) is None,
        readable(state.libraries@, CurrentUser::Open) == state.libraries@,
{
    lemma_filter_all(state.libraries@, |lib: Library| CurrentUser::Open.access(lib.id).read);
}

proof fn lemma_filter_all(libraries: Seq<Library>, pred: spec_fn(Library) -> bool)
    requires
        forall|lib: Library| #[trigger] pred(lib),
    ensures
        libraries.filter(pred) == libraries,
    decreases libraries.len(),
{
    reveal(Seq::filter);
    if libraries.len() > 0 {
        lemma_filter_all(libraries.drop_last(), pred);
        assert(libraries.drop_last().push(libraries.last()) =~= libraries);
    } else {
        assert(libraries.filter(pred) =~= libraries);
    }
}

/// A library is known exactly where one of those configured has its id, and
/// then it is the first of them.
pub proof fn known_libraries_are_found(app: AppState, id: i64)
    ensures
        app.has_library(id) <==> exists|k: int|
            0 <= k < app.libraries@.len() && (#[trigger] app.libraries@[k]).id == id,
        library_with_id(app.libraries@, id) matches Some(lib) ==> exists|k: int|
            0 <= k < app.libraries@.len() && #[trigger] app.libraries@[k] == lib && lib.id == id
                && forall|j: int| 0 <= j < k ==> (#[trigger] app.libraries@[j]).id != id,
{
    lemma_library_with_id(app.libraries@, id);
}

proof fn lemma_library_with_id(libraries: Seq<Library>, id: i64)
    ensures
        match library_with_id(libraries, id) {
            Some(lib) => exists|k: int|
                0 <= k < libraries.len() && #[trigger] libraries[k] == lib && lib.id == id
                    && forall|j: int| 0 <= j < k ==> (#[trigger] libraries[j]).id != id,
            None => forall|k: int| 0 <= k < libraries.len() ==> (#[trigger] libraries[k]).id != id,
        },
    decreases libraries.len(),
{
    if libraries.len() > 0 && libraries[0].id != id {
        let rest = libraries.drop_first();
        lemma_library_with_id(rest, id);
        match library_with_id(rest, id) {
            Some(lib) => {
                let k = choose|k: int|
                    0 <= k < rest.len() && #[trigger] rest[k] == lib && lib.id == id && forall|
                        j: int,
                    |
                        0 <= j < k ==> (#[trigger] rest[j]).id != id;
                assert(libraries[k + 1] == lib);
                assert forall|j: int| 0 <= j < k + 1 implies (#[trigger] libraries[j]).id != id by {
                    if j > 0 {
                        assert(rest[j - 1] == libraries[j]);
                    }
                }
            },
            None => {
                assert forall|k: int| 0 <= k < libraries.len() implies (
                #[trigger] libraries[k]).id != id by {
                    if k > 0 {
                        assert(rest[k - 1] == libraries[k]);
                    }
                }
            },
        }
    }
}

/// Each access is for itself: who may write changes a library, and who may
/// upload runs downloaders against it, whatever else they may do; who may not
/// is told so, and a library that is not there is not found.
pub proof fn each_access_is_enough_for_itself(app: AppState, user: CurrentUser, id: i64)
    ensures
        ({
            let known = exists|k: int|
                0 <= k < app.libraries@.len() && (#[trigger] app.libraries@[k]).id == id;
            let missing = Some((404u16, "library"@ + " not found"@));
            &&& known && user.access(id).write ==> app.write_refusal(user, id) is None
            &&& known && !user.access(id).write ==> app.write_refusal(user, id) == Some(
                (403u16, "write access required"@),
            )
            &&& known && user.access(id).upload ==> app.upload_refusal(user, id) is None
            &&& known && !user.access(id).upload ==> app.upload_refusal(user, id) == Some(
                (403u16, "upload access required"@),
            )
            &&& !known ==> app.write_refusal(user, id) == missing && app.upload_refusal(user, id)
                == missing
        }),
{
    known_libraries_are_found(app, id);
}

/// Who may read a library sees it, whatever else they may do: it is told, it is
/// in the list, and a request for anything in it is let through. Who may not is
/// answered as for one that is not there.
pub proof fn readable_libraries_are_seen(
    app: AppState,
    user: CurrentUser,
    k: int,
    id: i64,
    text: Seq<char>,
)
    requires
        0 <= k < app.libraries@.len(),
    ensures
        ({
            let lib = app.libraries@[k];
            let first = forall|j: int|
                0 <= j < k ==> (#[trigger] app.libraries@[j]).id != lib.id;
            &&& readable(app.libraries@, user).contains(lib) <==> user.access(lib.id).read
            &&& user.access(lib.id).read && first ==> app.library_reply(user, lib.id) == Ok::<
                Library,
                (u16, Seq<char>),
            >(lib)
            &&& user.access(lib.id).read && integer_value(text) == Some(lib.id)
                ==> app.admits_read(user, Some(text))
        }),
        !user.access(id).read ==> app.library_reply(user, id) == Err::<
            Library,
            (u16, Seq<char>),
        >((404u16, "library"@ + " not found"@)),
        !app.admits_read(user, None),
        integer_value(text) is None ==> !app.admits_read(user, Some(text)),
        integer_value(text) == Some(id) && !user.access(id).read ==> !app.admits_read(
            user,
            Some(text),
        ),
{
    let libraries = app.libraries@;
    let lib = libraries[k];
    let pred = |l: Library| user.access(l.id).read;
    known_libraries_are_found(app, lib.id);
    known_libraries_are_found(app, id);
    assert(app.has_library(lib.id)) by {
        assert(libraries[k].id == lib.id);
    }
    if readable(libraries, user).contains(lib) {
        lemma_filtered(libraries, pred, lib);
    }
    if user.access(lib.id).read {
        lemma_kept(libraries, pred, k);
    }
}

proof fn lemma_kept(libraries: Seq<Library>, pred: spec_fn(Library) -> bool, k: int)
    requires
        0 <= k < libraries.len(),
        pred(libraries[k]),
    ensures
        libraries.filter(pred).contains(libraries[k]),
    decreases libraries.len(),
{
    reveal(Seq::filter);
    let rest = libraries.drop_last();
    let kept = rest.filter(pred);
    if k < rest.len() {
        assert(rest[k] == libraries[k]);
        lemma_kept(rest, pred, k);
        let j = kept.index_of(libraries[k]);
        if pred(libraries.last()) {
            assert(kept.push(libraries.last())[j] == libraries[k]);
        }
    } else {
        assert(kept.push(libraries.last())[kept.len() as int] == libraries[k]);
    }
}

/// The list of libraries keeps the order of the configuration: what is listed of
/// two configurations put together is what is listed of the first, and then of
/// the second.
pub proof fn libraries_are_listed_in_order(
    libraries: Seq<Library>,
    more: Seq<Library>,
    lib: Library,
    user: CurrentUser,
)
    ensures
        readable(libraries + more, user) == readable(libraries, user) + readable(more, user),
        readable(seq![lib], user) == if user.access(lib.id).read {
            seq![lib]
        } else {
            seq![]
        },
    decreases more.len(),
{
    reveal(Seq::filter);
    let pred = |l: Library| user.access(l.id).read;
    reveal_with_fuel(Seq::filter, 2);
    assert(seq![lib].drop_last() =~= seq![]);
    assert(readable(seq![lib], user) =~= if user.access(lib.id).read {
        seq![lib]
    } else {
        seq![]
    });
    if more.len() == 0 {
        assert(libraries + more =~= libraries);
        assert(readable(libraries, user) + readable(more, user) =~= readable(libraries, user));
    } else {
        libraries_are_listed_in_order(libraries, more.drop_last(), lib, user);
        assert((libraries + more).drop_last() =~= libraries + more.drop_last());
        assert((libraries + more).last() == more.last());
        assert(readable(libraries + more, user) =~= readable(libraries, user) + readable(
            more,
            user,
        ));
    }
}

} // verus!
