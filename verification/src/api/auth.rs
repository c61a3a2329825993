//! Who a request comes from, and what they may do.

use base64::Engine;
use std::sync::Arc;
use vstd::prelude::*;
use vstd::utf8::{
    decode_utf8, encode_utf8, encode_utf8_decode_utf8, encode_utf8_valid_utf8, valid_utf8,
};

use crate::api::error::{forbidden, not_found, unauthorized, ApiError, ApiResult};
use crate::api::AppState;
use crate::text::{
    after_prefix, first_index, lemma_first_index, parse_i64, prefix_and_rest_make_the_text,
    put_together_parts_are_split, split_at_first, split_once, split_parts_make_the_text,
    strip_prefix, trimmed,
};
use crate::users::{access_in, LibraryAccess, User};

verus! {

/// The requester's identity and permissions, as `authenticate` finds them.
#[derive(Clone)]
pub enum CurrentUser {
    /// No `[[user]]` sections are configured: the whole API is open.
    Open,
    Authenticated(Arc<User>),
}

impl CurrentUser {
    /// What the requester may do in the library `id`.
    pub open spec fn access(self, id: i64) -> LibraryAccess {
        match self {
            CurrentUser::Open => LibraryAccess { read: true, write: true, upload: true },
            CurrentUser::Authenticated(user) => access_in(user.permissions@, id),
        }
    }

    pub fn can_read(&self, library_id: i64) -> (r: bool)
        ensures
            r == self.access(library_id).read,
    {
        match self {
            CurrentUser::Open => true,
            CurrentUser::Authenticated(u) => u.access(library_id).read,
        }
    }

    pub fn can_write(&self, library_id: i64) -> (r: bool)
        ensures
            r == self.access(library_id).write,
    {
        match self {
            CurrentUser::Open => true,
            CurrentUser::Authenticated(u) => u.access(library_id).write,
        }
    }

    pub fn can_upload(&self, library_id: i64) -> (r: bool)
        ensures
            r == self.access(library_id).upload,
    {
        match self {
            CurrentUser::Open => true,
            CurrentUser::Authenticated(u) => u.access(library_id).upload,
        }
    }

    pub fn require_write(&self, library_id: i64) -> (r: ApiResult<()>)
        ensures
            match r {
                Ok(()) => self.access(library_id).write,
                Err(e) => {
                    &&& !self.access(library_id).write
                    &&& e@ == forbidden("write access required"@)
                },
            },
    {
        if self.can_write(library_id) {
            Ok(())
        } else {
            Err(ApiError::forbidden("write access required"))
        }
    }

    pub fn require_upload(&self, library_id: i64) -> (r: ApiResult<()>)
        ensures
            match r {
                Ok(()) => self.access(library_id).upload,
                Err(e) => {
                    &&& !self.access(library_id).upload
                    &&& e@ == forbidden("upload access required"@)
                },
            },
    {
        if self.can_upload(library_id) {
            Ok(())
        } else {
            Err(ApiError::forbidden("upload access required"))
        }
    }
}

/// Compares two byte strings without stopping at the first difference.
pub fn constant_time_eq(a: &[u8], b: &[u8]) -> (r: bool)
    ensures
        r == (a@ == b@),
{
    if a.len() != b.len() {
        return false;
    }
    let mut diff: u8 = 0;
    let mut i: usize = 0;
    while i < a.len()
        invariant
            i <= a@.len() == b@.len(),
            diff == 0 <==> forall|j: int| 0 <= j < i ==> a@[j] == b@[j],
        decreases a@.len() - i,
    {
        let x = a[i];
        let y = b[i];
        assert((diff | (x ^ y)) == 0 <==> diff == 0 && x == y) by (bit_vector);
        diff = diff | (x ^ y);
        i += 1;
    }
    assert(diff == 0 <==> a@ =~= b@);
    diff == 0
}

/// The bytes that a standard, padded Base64 text stands for, where it is one.
pub uninterp spec fn base64_decoded(text: Seq<char>) -> Option<Seq<u8>>;

/// `base64::engine::general_purpose::STANDARD.decode`: the bytes that the text
/// stands for, or nothing where it is not Base64 in the standard alphabet with
/// its padding. What it returns is a function of the text alone.
#[verifier::external_body]
pub(crate) fn decode_base64(text: &str) -> (r: Option<Vec<u8>>)
    ensures
        match r {
            Some(bytes) => base64_decoded(text@) == Some(bytes@),
            None => base64_decoded(text@) is None,
        },
{
    base64::engine::general_purpose::STANDARD.decode(text).ok()
}

/// `std::string::FromUtf8Error`, which nothing is read from.
#[verifier::external_type_specification]
#[verifier::external_body]
pub struct ExFromUtf8Error(std::string::FromUtf8Error);

/// `String::from_utf8`: the text that the bytes encode, or an error where they
/// are not UTF-8.
pub assume_specification[ String::from_utf8 ](bytes: Vec<u8>) -> (r: Result<
    String,
    std::string::FromUtf8Error,
>)
    ensures
        match r {
            Ok(text) => valid_utf8(bytes@) && text@ == decode_utf8(bytes@),
            Err(_) => !valid_utf8(bytes@),
        },
;

/// The username and the token that decoded credentials hold: what stands before
/// and after their first colon.
pub open spec fn credentials(decoded: Option<Seq<u8>>) -> Option<(Seq<char>, Seq<char>)> {
    match decoded {
        Some(bytes) => if valid_utf8(bytes) {
            split_at_first(decode_utf8(bytes), ':')
        } else {
            None
        },
        None => None,
    }
}

/// The Base64 text of a `Basic` authorization header.
pub open spec fn basic_payload(value: Seq<char>) -> Option<Seq<char>> {
    match after_prefix(value, "Basic "@) {
        Some(rest) => Some(trimmed(rest)),
        None => None,
    }
}

/// The username and the token that an authorization header holds.
pub open spec fn basic_credentials(value: Seq<char>) -> Option<(Seq<char>, Seq<char>)> {
    match basic_payload(value) {
        Some(payload) => credentials(base64_decoded(payload)),
        None => None,
    }
}

/// The texts of a username and a token.
pub open spec fn pair_texts(pair: Option<(String, String)>) -> Option<(Seq<char>, Seq<char>)> {
    match pair {
        Some(p) => Some((p.0@, p.1@)),
        None => None,
    }
}

/// Reads the username and the token out of decoded credentials.
pub fn read_credentials(decoded: Option<Vec<u8>>) -> (r: Option<(String, String)>)
    ensures
        pair_texts(r) == credentials(
            match decoded {
                Some(bytes) => Some(bytes@),
                None => None,
            },
        ),
{
    match decoded {
        None => None,
        Some(bytes) => match String::from_utf8(bytes) {
            Err(_) => None,
            Ok(text) => split_once(text.as_str(), ':'),
        },
    }
}

/// The Base64 text of a `Basic` authorization header.
pub fn payload_of(value: &str) -> (r: Option<String>)
    ensures
        match r {
            Some(payload) => basic_payload(value@) == Some(payload@),
            None => basic_payload(value@) is None,
        },
{
    match strip_prefix(value, "Basic ") {
        None => None,
        Some(rest) => Some(rest.as_str().trim().to_owned()),
    }
}

/// Reads the username and the token out of an authorization header.
pub fn parse_basic(value: &str) -> (r: Option<(String, String)>)
    ensures
        pair_texts(r) == basic_credentials(value@),
{
    match payload_of(value) {
        None => None,
        Some(payload) => read_credentials(decode_base64(payload.as_str())),
    }
}

/// Whether user `i` is the first one called `username`, and has that token.
pub open spec fn owns(users: Seq<User>, i: int, username: Seq<char>, token: Seq<char>) -> bool {
    &&& 0 <= i < users.len()
    &&& users[i].username@ == username
    &&& users[i].token@ == token
    &&& forall|j: int| 0 <= j < i ==> (#[trigger] users[j]).username@ != username
}

/// Whether two users are the same.
pub open spec fn same_user(a: User, b: User) -> bool {
    &&& a.username@ == b.username@
    &&& a.token@ == b.token@
    &&& a.permissions@ == b.permissions@
}

/// Whether the username and the token are those of a user.
pub open spec fn belong_to_someone(users: Seq<User>, username: Seq<char>, token: Seq<char>) -> bool {
    exists|i: int| owns(users, i, username, token)
}

/// Whether the username and the token are those of `user`.
pub open spec fn admits(
    users: Seq<User>,
    username: Seq<char>,
    token: Seq<char>,
    user: User,
) -> bool {
    exists|i: int| #[trigger] owns(users, i, username, token) && same_user(user, users[i])
}

/// What a request that presents `presented` is answered: where no users are
/// configured everyone is admitted, else the user whose name and token these
/// are, and no one else.
pub open spec fn identified(
    users: Seq<User>,
    presented: Option<(Seq<char>, Seq<char>)>,
    r: ApiResult<CurrentUser>,
) -> bool {
    match r {
        Ok(CurrentUser::Open) => users.len() == 0,
        Ok(CurrentUser::Authenticated(user)) => {
            &&& users.len() > 0
            &&& match presented {
                Some((username, token)) => admits(users, username, token, *user),
                None => false,
            }
        },
        Err(e) => {
            &&& users.len() > 0
            &&& e@ == unauthorized()
            &&& match presented {
                Some((username, token)) => !belong_to_someone(users, username, token),
                None => true,
            }
        },
    }
}

/// Finds the user whose name and token were presented.
pub fn identify(users: &Vec<User>, presented: Option<(String, String)>) -> (r: ApiResult<
    CurrentUser,
>)
    ensures
        identified(users@, pair_texts(presented), r),
{
    if users.len() == 0 {
        return Ok(CurrentUser::Open);
    }
    let (username, token) = match presented {
        None => {
            return Err(ApiError::unauthorized());
        },
        Some(pair) => pair,
    };
    let mut i: usize = 0;
    while i < users.len()
        invariant
            users@.len() > 0,
            i <= users@.len(),
            presented == Some((username, token)),
            forall|j: int| 0 <= j < i ==> (#[trigger] users@[j]).username@ != username@,
        decreases users@.len() - i,
    {
        let user = &users[i];
        if user.username == username {
            proof {
                encode_utf8_decode_utf8(token@);
                encode_utf8_decode_utf8(user.token@);
                assert forall|k: int| #[trigger]
                    owns(users@, k, username@, token@) implies k == i by {}
            }
            if constant_time_eq(token.as_str().as_bytes(), user.token.as_str().as_bytes()) {
                let found = user.clone();
                assert(owns(users@, i as int, username@, token@) && same_user(
                    found,
                    users@[i as int],
                ));
                return Ok(CurrentUser::Authenticated(Arc::new(found)));
            }
            return Err(ApiError::unauthorized());
        }
        i += 1;
    }
    Err(ApiError::unauthorized())
}

/// The credentials that an authorization header presents, where there is one.
pub open spec fn presented(header: Option<Seq<char>>) -> Option<(Seq<char>, Seq<char>)> {
    match header {
        Some(value) => basic_credentials(value),
        None => None,
    }
}

/// Authenticates a request by its authorization header. If no users are
/// configured, every request is treated as `CurrentUser::Open`. Otherwise
/// requires `Authorization: Basic <base64(username:token)>` matching a
/// configured user, comparing the token in constant time.
pub fn authenticate(users: &Vec<User>, header: Option<&str>) -> (r: ApiResult<CurrentUser>)
    ensures
        identified(
            users@,
            presented(
                match header {
                    Some(value) => Some(value@),
                    None => None,
                },
            ),
            r,
        ),
{
    let pair = match header {
        Some(value) => parse_basic(value),
        None => None,
    };
    identify(users, pair)
}

/// Lets a request into the library that a path parameter names. 404s, with
/// the same response as for a nonexistent library id, if the library
/// doesn't exist or the current user lacks read access, so unreadable
/// libraries are indistinguishable from ones that were never configured.
pub fn require_library_read(state: &AppState, user: &CurrentUser, param: Option<&str>) -> (r:
    ApiResult<()>)
    ensures
        match r {
            Ok(()) => state.admits_read(
                *user,
                match param {
                    Some(text) => Some(text@),
                    None => None,
                },
            ),
            Err(e) => {
                &&& e@ == not_found("library"@)
                &&& !state.admits_read(
                    *user,
                    match param {
                        Some(text) => Some(text@),
                        None => None,
                    },
                )
            },
        },
{
    match param {
        Some(text) => match parse_i64(text) {
            Some(id) => {
                if state.require_library(id).is_ok() && user.can_read(id) {
                    return Ok(());
                }
            },
            None => {},
        },
        None => {},
    }
    Err(ApiError::not_found("library"))
}

/// What the `WWW-Authenticate` header of a refusal says.
pub fn challenge() -> (r: &'static str)
    ensures
        r@ == "Basic realm=\"muserv\""@,
{
    "Basic realm=\"muserv\""
}

/// A header with the Base64 of a username, a colon and a token presents that
/// username and that token, where the username holds no colon.
pub proof fn header_presents_credentials(
    value: Seq<char>,
    username: Seq<char>,
    token: Seq<char>,
)
    requires
        basic_payload(value) is Some,
        base64_decoded(basic_payload(value)->0) == Some(
            encode_utf8(username + seq![':'] + token),
        ),
        !username.contains(':'),
    ensures
        basic_credentials(value) == Some((username, token)),
{
    let text = username + seq![':'] + token;
    encode_utf8_decode_utf8(text);
    encode_utf8_valid_utf8(text);
    lemma_first_index(text, ':');
    let at = first_index(text, ':');
    assert(text[username.len() as int] == ':');
    assert(text.contains(':'));
    assert forall|i: int| 0 <= i < username.len() implies text[i] != ':' by {
        assert(username.contains(username[i]));
    }
    assert(at == username.len());
    assert(text.take(at) =~= username);
    assert(text.skip(at + 1) =~= token);
}

/// A request is admitted as a configured user exactly where it presents that
/// user's name and token, if no user before it has the same name.
pub proof fn admitted_by_name_and_token(
    users: Seq<User>,
    i: int,
    username: Seq<char>,
    token: Seq<char>,
    r: ApiResult<CurrentUser>,
)
    requires
        identified(users, Some((username, token)), r),
        0 <= i < users.len(),
        users[i].username@ == username,
        forall|j: int| 0 <= j < i ==> (#[trigger] users[j]).username@ != username,
    ensures
        r is Ok <==> users[i].token@ == token,
        r matches Ok(CurrentUser::Authenticated(user)) ==> same_user(*user, users[i]),
{
    if users[i].token@ == token {
        assert(owns(users, i, username, token));
    }
    assert forall|k: int| #[trigger] owns(users, k, username, token) implies k == i by {}
}

/// Where no users are configured a requester may do everything; a user may do
/// what their permissions say for that library, and nothing where they say
/// nothing.
pub proof fn access_is_what_the_permissions_say(user: Arc<User>, id: i64)
    ensures
        CurrentUser::Open.access(id).read && CurrentUser::Open.access(id).write
            && CurrentUser::Open.access(id).upload,
        user.permissions@.contains_key(id) ==> CurrentUser::Authenticated(user).access(id)
            == user.permissions@[id],
        !user.permissions@.contains_key(id) ==> {
            let none = CurrentUser::Authenticated(user).access(id);
            !none.read && !none.write && !none.upload
        },
{
}

/// Everyone is admitted where no users are configured. Where there are some, a
/// request that presents nothing, a name that no user has, or another token than
/// that of the first user with the name, is refused as unauthorized; and who is
/// admitted is that user, with that user's permissions.
pub proof fn strangers_are_refused(
    users: Seq<User>,
    presented: Option<(Seq<char>, Seq<char>)>,
    r: ApiResult<CurrentUser>,
    i: int,
)
    requires
        identified(users, presented, r),
    ensures
        users.len() == 0 ==> r is Ok && r->Ok_0 is Open,
        users.len() > 0 && presented is None ==> r is Err,
        users.len() > 0 && r is Ok ==> r->Ok_0 is Authenticated,
        r matches Err(e) ==> users.len() > 0 && e@ == (401u16, "unauthorized"@),
        match presented {
            Some((username, token)) => {
                &&& (users.len() > 0 && forall|j: int|
                    0 <= j < users.len() ==> (#[trigger] users[j]).username@ != username)
                    ==> r is Err
                &&& (0 <= i < users.len() && users[i].username@ == username && forall|j: int|
                    0 <= j < i ==> (#[trigger] users[j]).username@ != username) ==> {
                    &&& users[i].token@ != token ==> r is Err
                    &&& users[i].token@ == token ==> (r matches Ok(CurrentUser::Authenticated(u))
                        && u.username@ == username && u.token@ == token && u.permissions@
                        == users[i].permissions@)
                }
            },
            None => true,
        },
{
    match presented {
        Some((username, token)) => {
            if 0 <= i < users.len() && users[i].username@ == username && forall|j: int|
                0 <= j < i ==> (#[trigger] users[j]).username@ != username {
                if users[i].token@ == token {
                    assert(owns(users, i, username, token));
                }
                assert forall|k: int| #[trigger] owns(users, k, username, token) implies k
                    == i by {}
            }
        },
        None => {},
    }
}

/// A header presents a username and a token exactly where it is the word `Basic`,
/// a space and a text, which stands, up to white space around it, for the
/// username, a colon and the token; the username holds no colon.
pub proof fn a_header_is_read_as_it_is_written(
    value: Seq<char>,
    text: Seq<char>,
    username: Seq<char>,
    token: Seq<char>,
    bytes: Seq<u8>,
)
    ensures
        value == "Basic "@ + text && base64_decoded(trimmed(text)) == Some(bytes) && valid_utf8(
            bytes,
        ) && decode_utf8(bytes) == username + seq![':'] + token && !username.contains(':')
            ==> basic_credentials(value) == Some((username, token)),
        value == "Basic "@ + text && base64_decoded(trimmed(text)) is None ==> basic_credentials(
            value,
        ) is None,
        value == "Basic "@ + text && base64_decoded(trimmed(text)) == Some(bytes) && (!valid_utf8(
            bytes,
        ) || !decode_utf8(bytes).contains(':')) ==> basic_credentials(value) is None,
        !("Basic "@.is_prefix_of(value)) ==> basic_credentials(value) is None,
{
    let prefix = "Basic "@;
    prefix_and_rest_make_the_text(value, prefix, text);
    if basic_payload(value) is Some {
        let rest = after_prefix(value, prefix)->0;
        prefix_and_rest_make_the_text(value, prefix, rest);
        assert(prefix.is_prefix_of(value)) by {
            assert(value.take(prefix.len() as int) =~= prefix);
        }
    }
    if !username.contains(':') {
        put_together_parts_are_split(username, ':', token);
    }
    split_parts_make_the_text(decode_utf8(bytes), ':');
}

} // verus!
