//! Playlists: what a request on them asks of the database, step by step, and
//! what it is answered.

use std::collections::HashSet;
use vstd::prelude::*;

use crate::api::auth::CurrentUser;
use crate::api::error::{bad_request, internal, not_found, ApiError, ApiResult};
use crate::api::{each_access_is_enough_for_itself, AppState};
use crate::clock::timestamp;
use crate::text::{
    a_part_is_found, contains_text, holds_text, is_blank, signed_decimal, signed_decimal_string,
    trimmed, white_space, white_space_around_is_taken_away,
};

verus! {

broadcast use vstd::std_specs::hash::group_hash_axioms;

/// A playlist in a list of playlists.
#[derive(Debug)]
pub struct PlaylistSummary {
    pub id: i64,
    pub name: String,
    pub description: Option<String>,
    pub track_count: i64,
    pub created_at: i64,
    pub updated_at: i64,
}

/// A playlist as it is stored.
#[derive(Debug)]
pub struct PlaylistRow {
    pub id: i64,
    pub name: String,
    pub description: Option<String>,
    pub created_at: i64,
    pub updated_at: i64,
}

/// A track of a playlist.
#[derive(Debug)]
pub struct PlaylistTrack {
    pub track_id: i64,
    pub position: i64,
    pub added_at: i64,
    pub title: Option<String>,
    pub album: Option<String>,
    pub artist: Option<String>,
    pub album_artist: Option<String>,
    pub duration_ms: Option<i64>,
}

/// A playlist and its tracks.
#[derive(Debug)]
pub struct PlaylistWithTracks {
    pub playlist: PlaylistRow,
    pub tracks: Vec<PlaylistTrack>,
}

/// A request to create a playlist.
#[derive(Debug)]
pub struct NewPlaylist {
    pub name: String,
    pub description: Option<String>,
}

/// A request to rename a playlist.
#[derive(Debug)]
pub struct PatchPlaylist {
    pub name: String,
}

/// A request to add a track to a playlist.
#[derive(Debug)]
pub struct AddTrackBody {
    pub track_id: i64,
}

/// A request to replace the tracks of a playlist.
#[derive(Debug)]
pub struct SetTracksBody {
    pub track_ids: Vec<i64>,
}

/// A statement that the database did not carry out, and what it says of it.
#[derive(Debug)]
pub enum DbFailure {
    /// The database refused it, with a message of its own.
    Refused { unique_violation: bool, message: String, text: String },
    /// It did not reach the database, or the answer did not come back.
    Unreachable { text: String },
}

impl DbFailure {
    /// What is said of the failure.
    pub open spec fn said(self) -> Seq<char> {
        match self {
            DbFailure::Refused { text, .. } => text@,
            DbFailure::Unreachable { text } => text@,
        }
    }

    /// A failure that the request is not to blame for.
    pub fn internal(&self) -> (r: ApiError)
        ensures
            r@ == internal(self.said()),
    {
        match self {
            DbFailure::Refused { text, .. } => ApiError::internal(text.as_str()),
            DbFailure::Unreachable { text } => ApiError::internal(text.as_str()),
        }
    }

    /// Whether a name is taken.
    pub open spec fn violates_unique(self) -> bool {
        self matches DbFailure::Refused { unique_violation, .. } && unique_violation
    }

    /// Whether a row refers to one that is not there.
    pub open spec fn violates_foreign_key(self) -> bool {
        self matches DbFailure::Refused { message, .. } && holds_text(message@, "FOREIGN KEY"@)
    }
}

/// What a request whose playlist could not be stored is answered: where its
/// name is taken, the request is at fault.
pub fn map_unique(failure: &DbFailure) -> (r: ApiError)
    ensures
        r@ == if failure.violates_unique() {
            bad_request("playlist name already exists in this library"@)
        } else {
            internal(failure.said())
        },
{
    match failure {
        DbFailure::Refused { unique_violation, .. } => {
            if *unique_violation {
                return ApiError::bad_request("playlist name already exists in this library");
            }
        },
        DbFailure::Unreachable { .. } => {},
    }
    failure.internal()
}

/// The row that a request is about, which must be there.
pub fn require_row<T>(row: Option<T>, what: &str) -> (r: ApiResult<T>)
    ensures
        match r {
            Ok(value) => row == Some(value),
            Err(e) => row is None && e@ == not_found(what@),
        },
{
    match row {
        Some(value) => Ok(value),
        None => Err(ApiError::not_found(what)),
    }
}

/// What a request for a playlist is answered.
pub fn get_one(playlist: Option<PlaylistRow>, tracks: Vec<PlaylistTrack>) -> (r: ApiResult<
    PlaylistWithTracks,
>)
    ensures
        match r {
            Ok(found) => playlist == Some(found.playlist) && found.tracks == tracks,
            Err(e) => playlist is None && e@ == not_found("playlist"@),
        },
{
    let playlist = require_row(playlist, "playlist")?;
    Ok(PlaylistWithTracks { playlist, tracks })
}

/// Why a playlist may not be given this name.
pub open spec fn naming_refusal(
    app: AppState,
    user: CurrentUser,
    lib_id: i64,
    name: Seq<char>,
) -> Option<(u16, Seq<char>)> {
    if app.write_refusal(user, lib_id) is Some {
        app.write_refusal(user, lib_id)
    } else if trimmed(name).len() == 0 {
        Some(bad_request("name must be non-empty"@))
    } else {
        None
    }
}

/// The name for a playlist, without white space around it.
fn playlist_name(app: &AppState, user: &CurrentUser, lib_id: i64, name: &str) -> (r: ApiResult<
    String,
>)
    ensures
        match r {
            Ok(text) => {
                &&& naming_refusal(*app, *user, lib_id, name@) is None
                &&& text@ == trimmed(name@)
            },
            Err(e) => naming_refusal(*app, *user, lib_id, name@) == Some(e@),
        },
{
    app.require_library_write(user, lib_id)?;
    let text = name.trim();
    if text.is_empty() {
        return Err(ApiError::bad_request("name must be non-empty"));
    }
    Ok(text.to_owned())
}

/// A row to store for a new playlist; it is created and updated at once.
#[derive(Debug)]
pub struct PlaylistDraft {
    pub name: String,
    pub description: Option<String>,
    pub now: i64,
}

/// The row to store for a playlist that is created at the time `now`.
pub fn create_at(
    app: &AppState,
    user: &CurrentUser,
    lib_id: i64,
    body: NewPlaylist,
    now: i64,
) -> (r: ApiResult<PlaylistDraft>)
    ensures
        match r {
            Ok(draft) => {
                &&& naming_refusal(*app, *user, lib_id, body.name@) is None
                &&& draft.name@ == trimmed(body.name@)
                &&& draft.description == body.description
                &&& draft.now == now
            },
            Err(e) => naming_refusal(*app, *user, lib_id, body.name@) == Some(e@),
        },
{
    let name = playlist_name(app, user, lib_id, body.name.as_str())?;
    Ok(PlaylistDraft { name, description: body.description, now })
}

/// The row to store for a playlist that is created now.
pub fn create(app: &AppState, user: &CurrentUser, lib_id: i64, body: NewPlaylist) -> (r: ApiResult<
    PlaylistDraft,
>)
    ensures
        match r {
            Ok(draft) => {
                &&& naming_refusal(*app, *user, lib_id, body.name@) is None
                &&& draft.name@ == trimmed(body.name@)
                &&& draft.description == body.description
                &&& draft.now >= 0
            },
            Err(e) => naming_refusal(*app, *user, lib_id, body.name@) == Some(e@),
        },
{
    let now = timestamp();
    create_at(app, user, lib_id, body, now)
}

/// What a request to create a playlist is answered, once its row was stored or
/// not: with the status for something created.
pub fn created(stored: Result<PlaylistRow, DbFailure>) -> (r: ApiResult<(u16, PlaylistRow)>)
    ensures
        match r {
            Ok(reply) => stored == Ok::<PlaylistRow, DbFailure>(reply.1) && reply.0 == 201,
            Err(e) => stored matches Err(failure) && e@ == if failure.violates_unique() {
                bad_request("playlist name already exists in this library"@)
            } else {
                internal(failure.said())
            },
        },
{
    match stored {
        Ok(row) => Ok((201, row)),
        Err(failure) => Err(map_unique(&failure)),
    }
}

/// What a playlist's row becomes.
#[derive(Debug)]
pub struct PlaylistChange {
    pub id: i64,
    pub name: String,
    pub now: i64,
}

/// What becomes of a playlist that is renamed at the time `now`.
pub fn update_at(
    app: &AppState,
    user: &CurrentUser,
    lib_id: i64,
    id: i64,
    body: PatchPlaylist,
    now: i64,
) -> (r: ApiResult<PlaylistChange>)
    ensures
        match r {
            Ok(change) => {
                &&& naming_refusal(*app, *user, lib_id, body.name@) is None
                &&& change.id == id
                &&& change.name@ == trimmed(body.name@)
                &&& change.now == now
            },
            Err(e) => naming_refusal(*app, *user, lib_id, body.name@) == Some(e@),
        },
{
    let name = playlist_name(app, user, lib_id, body.name.as_str())?;
    Ok(PlaylistChange { id, name, now })
}

/// What becomes of a playlist that is renamed now.
pub fn update(
    app: &AppState,
    user: &CurrentUser,
    lib_id: i64,
    id: i64,
    body: PatchPlaylist,
) -> (r: ApiResult<PlaylistChange>)
    ensures
        match r {
            Ok(change) => {
                &&& naming_refusal(*app, *user, lib_id, body.name@) is None
                &&& change.id == id
                &&& change.name@ == trimmed(body.name@)
                &&& change.now >= 0
            },
            Err(e) => naming_refusal(*app, *user, lib_id, body.name@) == Some(e@),
        },
{
    let now = timestamp();
    update_at(app, user, lib_id, id, body, now)
}

/// What a request to rename a playlist is answered, once its row was changed,
/// was not there, or could not be changed.
pub fn renamed(stored: Result<Option<PlaylistRow>, DbFailure>) -> (r: ApiResult<PlaylistRow>)
    ensures
        match r {
            Ok(row) => stored == Ok::<Option<PlaylistRow>, DbFailure>(Some(row)),
            Err(e) => match stored {
                Ok(row) => row is None && e@ == not_found("playlist"@),
                Err(failure) => e@ == if failure.violates_unique() {
                    bad_request("playlist name already exists in this library"@)
                } else {
                    internal(failure.said())
                },
            },
        },
{
    match stored {
        Ok(row) => require_row(row, "playlist"),
        Err(failure) => Err(map_unique(&failure)),
    }
}

/// The playlist to delete for a request to delete it.
pub fn delete(app: &AppState, user: &CurrentUser, lib_id: i64, id: i64) -> (r: ApiResult<i64>)
    ensures
        match r {
            Ok(playlist) => app.write_refusal(*user, lib_id) is None && playlist == id,
            Err(e) => app.write_refusal(*user, lib_id) == Some(e@),
        },
{
    app.require_library_write(user, lib_id)?;
    Ok(id)
}

/// What a request to delete a playlist is answered, by how many rows went: with
/// the status for nothing left to say.
pub fn deleted(rows: u64) -> (r: ApiResult<u16>)
    ensures
        match r {
            Ok(status) => rows != 0 && status == 204,
            Err(e) => rows == 0 && e@ == not_found("playlist"@),
        },
{
    if rows == 0 {
        return Err(ApiError::not_found("playlist"));
    }
    Ok(204)
}

/// A change to the tracks of a playlist.
#[derive(Debug, Clone, Copy, PartialEq, Eq, Structural)]
pub enum Write {
    /// Takes every track out.
    Clear { playlist: i64 },
    /// Takes a track out.
    Remove { playlist: i64, track: i64 },
    /// Puts a track in.
    Insert { playlist: i64, track: i64, position: i64, now: i64 },
    /// Puts a track in, unless it is there.
    InsertIfAbsent { playlist: i64, track: i64, position: i64, now: i64 },
    /// Says when the playlist was changed.
    Touch { playlist: i64, now: i64 },
}

/// Changes to make one after the other, all of them or none, and the status to
/// answer once they are made.
#[derive(Debug)]
pub struct Changes {
    pub writes: Vec<Write>,
    pub status: u16,
}

/// What a request is answered where one of its changes could not be made: a
/// track that is not there is the request's fault.
pub fn write_failed(write: Write, failure: &DbFailure) -> (r: ApiError)
    ensures
        r@ == match write {
            Write::Insert { track, .. } => if failure.violates_foreign_key() {
                bad_request("unknown track_id "@ + signed_decimal(track as int))
            } else {
                internal(failure.said())
            },
            _ => internal(failure.said()),
        },
{
    match write {
        Write::Insert { track, .. } => match failure {
            DbFailure::Refused { message, .. } => {
                if contains_text(message.as_str(), "FOREIGN KEY") {
                    let number = signed_decimal_string(track);
                    let mut text = "unknown track_id ".to_owned();
                    text.append(number.as_str());
                    return ApiError::bad_request(text.as_str());
                }
            },
            DbFailure::Unreachable { .. } => {},
        },
        _ => {},
    }
    failure.internal()
}

/// A request to add a track to a playlist, which may be carried out if both are
/// there.
#[derive(Debug)]
pub struct AddTrack {
    pub playlist: i64,
    pub track: i64,
    pub now: i64,
}

/// Lets a request to add a track in, at the time `now`.
pub fn add_track_at(
    app: &AppState,
    user: &CurrentUser,
    lib_id: i64,
    id: i64,
    body: AddTrackBody,
    now: i64,
) -> (r: ApiResult<AddTrack>)
    ensures
        match r {
            Ok(request) => {
                &&& app.write_refusal(*user, lib_id) is None
                &&& request == (AddTrack { playlist: id, track: body.track_id, now })
            },
            Err(e) => app.write_refusal(*user, lib_id) == Some(e@),
        },
{
    app.require_library_write(user, lib_id)?;
    Ok(AddTrack { playlist: id, track: body.track_id, now })
}

/// Lets a request to add a track in.
pub fn add_track(
    app: &AppState,
    user: &CurrentUser,
    lib_id: i64,
    id: i64,
    body: AddTrackBody,
) -> (r: ApiResult<AddTrack>)
    ensures
        match r {
            Ok(request) => {
                &&& app.write_refusal(*user, lib_id) is None
                &&& request.now >= 0
                &&& request == (AddTrack {
                    playlist: id,
                    track: body.track_id,
                    now: request.now,
                })
            },
            Err(e) => app.write_refusal(*user, lib_id) == Some(e@),
        },
{
    let now = timestamp();
    add_track_at(app, user, lib_id, id, body, now)
}

/// The position behind the last one that is taken.
pub open spec fn next_position(last: Option<i64>) -> int {
    match last {
        Some(position) => position + 1,
        None => 0,
    }
}

/// What is written to put a track in behind the last one.
pub open spec fn adding(playlist: i64, track: i64, last: Option<i64>, now: i64) -> Seq<Write> {
    seq![
        Write::InsertIfAbsent { playlist, track, position: next_position(last) as i64, now },
        Write::Touch { playlist, now },
    ]
}

impl AddTrack {
    /// What is to be written, by the rows found for the playlist and the track
    /// and by the last position that is taken in the playlist.
    pub fn found(self, playlist: Option<i64>, track: Option<i64>, last: Option<i64>) -> (r:
        ApiResult<Changes>)
        requires
            last != Some(i64::MAX),
        ensures
            match r {
                Ok(changes) => {
                    &&& playlist is Some
                    &&& track is Some
                    &&& changes.writes@ == adding(self.playlist, self.track, last, self.now)
                    &&& changes.status == 201
                },
                Err(e) => if playlist is None {
                    e@ == not_found("playlist"@)
                } else {
                    track is None && e@ == not_found("track"@)
                },
            },
    {
        require_row(playlist, "playlist")?;
        require_row(track, "track")?;
        let position: i64 = match last {
            Some(p) => p + 1,
            None => 0,
        };
        let mut writes: Vec<Write> = Vec::new();
        writes.push(
            Write::InsertIfAbsent {
                playlist: self.playlist,
                track: self.track,
                position,
                now: self.now,
            },
        );
        writes.push(Write::Touch { playlist: self.playlist, now: self.now });
        Ok(Changes { writes, status: 201 })
    }
}

/// A request to take a track out of a playlist.
#[derive(Debug)]
pub struct RemoveTrack {
    pub playlist: i64,
    pub track: i64,
    pub now: i64,
}

/// Lets a request to take a track out in, at the time `now`.
pub fn remove_track_at(
    app: &AppState,
    user: &CurrentUser,
    lib_id: i64,
    id: i64,
    track_id: i64,
    now: i64,
) -> (r: ApiResult<RemoveTrack>)
    ensures
        match r {
            Ok(request) => {
                &&& app.write_refusal(*user, lib_id) is None
                &&& request == (RemoveTrack { playlist: id, track: track_id, now })
            },
            Err(e) => app.write_refusal(*user, lib_id) == Some(e@),
        },
{
    app.require_library_write(user, lib_id)?;
    Ok(RemoveTrack { playlist: id, track: track_id, now })
}

/// Lets a request to take a track out in.
pub fn remove_track(
    app: &AppState,
    user: &CurrentUser,
    lib_id: i64,
    id: i64,
    track_id: i64,
) -> (r: ApiResult<RemoveTrack>)
    ensures
        match r {
            Ok(request) => {
                &&& app.write_refusal(*user, lib_id) is None
                &&& request.now >= 0
                &&& request == (RemoveTrack {
                    playlist: id,
                    track: track_id,
                    now: request.now,
                })
            },
            Err(e) => app.write_refusal(*user, lib_id) == Some(e@),
        },
{
    let now = timestamp();
    remove_track_at(app, user, lib_id, id, track_id, now)
}

impl RemoveTrack {
    /// What is to be written first, by the row found for the playlist.
    pub fn found(&self, playlist: Option<i64>) -> (r: ApiResult<Write>)
        ensures
            match r {
                Ok(write) => {
                    &&& playlist is Some
                    &&& write == (Write::Remove { playlist: self.playlist, track: self.track })
                },
                Err(e) => playlist is None && e@ == not_found("playlist"@),
            },
    {
        require_row(playlist, "playlist")?;
        Ok(Write::Remove { playlist: self.playlist, track: self.track })
    }

    /// What is to be written then, by how many rows went.
    pub fn removed(&self, rows: u64) -> (r: ApiResult<Changes>)
        ensures
            match r {
                Ok(changes) => {
                    &&& rows != 0
                    &&& changes.writes@ == seq![
                        Write::Touch { playlist: self.playlist, now: self.now },
                    ]
                    &&& changes.status == 204
                },
                Err(e) => rows == 0 && e@ == not_found("track in playlist"@),
            },
    {
        if rows == 0 {
            return Err(ApiError::not_found("track in playlist"));
        }
        let mut writes: Vec<Write> = Vec::new();
        writes.push(Write::Touch { playlist: self.playlist, now: self.now });
        Ok(Changes { writes, status: 204 })
    }
}

/// A request to replace the tracks of a playlist.
#[derive(Debug)]
pub struct SetTracks {
    pub playlist: i64,
    pub track_ids: Vec<i64>,
    pub now: i64,
}

/// Lets a request to replace the tracks of a playlist in, at the time `now`.
pub fn set_tracks_at(
    app: &AppState,
    user: &CurrentUser,
    lib_id: i64,
    id: i64,
    body: SetTracksBody,
    now: i64,
) -> (r: ApiResult<SetTracks>)
    ensures
        match r {
            Ok(request) => {
                &&& app.write_refusal(*user, lib_id) is None
                &&& request == (SetTracks { playlist: id, track_ids: body.track_ids, now })
            },
            Err(e) => app.write_refusal(*user, lib_id) == Some(e@),
        },
{
    app.require_library_write(user, lib_id)?;
    Ok(SetTracks { playlist: id, track_ids: body.track_ids, now })
}

/// Lets a request to replace the tracks of a playlist in.
pub fn set_tracks(
    app: &AppState,
    user: &CurrentUser,
    lib_id: i64,
    id: i64,
    body: SetTracksBody,
) -> (r: ApiResult<SetTracks>)
    ensures
        match r {
            Ok(request) => {
                &&& app.write_refusal(*user, lib_id) is None
                &&& request.now >= 0
                &&& request == (SetTracks {
                    playlist: id,
                    track_ids: body.track_ids,
                    now: request.now,
                })
            },
            Err(e) => app.write_refusal(*user, lib_id) == Some(e@),
        },
{
    let now = timestamp();
    set_tracks_at(app, user, lib_id, id, body, now)
}

/// The first number in `ids` that stands before it as well.
pub open spec fn first_repeated(ids: Seq<i64>) -> Option<i64>
    decreases ids.len(),
{
    if ids.len() == 0 {
        None
    } else if first_repeated(ids.drop_last()) is Some {
        first_repeated(ids.drop_last())
    } else if ids.drop_last().contains(ids.last()) {
        Some(ids.last())
    } else {
        None
    }
}

proof fn lemma_repeated_stays(ids: Seq<i64>, n: int)
    requires
        0 <= n <= ids.len(),
        first_repeated(ids.take(n)) is Some,
    ensures
        first_repeated(ids) == first_repeated(ids.take(n)),
    decreases ids.len(),
{
    if n == ids.len() {
        assert(ids.take(n) =~= ids);
    } else {
        assert(ids.drop_last().take(n) =~= ids.take(n));
        lemma_repeated_stays(ids.drop_last(), n);
    }
}

/// Looks for a number that stands in `ids` more than once.
fn find_repeated(ids: &Vec<i64>) -> (r: Option<i64>)
    ensures
        r == first_repeated(ids@),
{
    let mut seen: HashSet<i64> = HashSet::new();
    let mut i: usize = 0;
    assert(ids@.take(0) =~= seq![]);
    while i < ids.len()
        invariant
            i <= ids@.len(),
            forall|id: i64| seen@.contains(id) <==> ids@.take(i as int).contains(id),
            first_repeated(ids@.take(i as int)) is None,
        decreases ids@.len() - i,
    {
        let id: i64 = ids[i];
        let ghost before = ids@.take(i as int);
        let ghost after = ids@.take(i + 1);
        assert(after.drop_last() =~= before);
        assert(after.last() == id);
        if !seen.insert(id) {
            proof {
                lemma_repeated_stays(ids@, i + 1);
            }
            return Some(id);
        }
        assert forall|other: i64| seen@.contains(other) <==> after.contains(other) by {
            if before.contains(other) {
                let k = before.index_of(other);
                assert(after[k] == other);
            }
            if other == id {
                assert(after[i as int] == id);
            }
            if after.contains(other) && other != id {
                let k = after.index_of(other);
                assert(before[k] == other);
            }
        }
        i += 1;
    }
    assert(ids@.take(i as int) =~= ids@);
    None
}

/// `n` places for a value in a statement.
pub open spec fn placeholders(n: nat) -> Seq<char>
    decreases n,
{
    if n == 0 {
        ""@
    } else if n == 1 {
        "?"@
    } else {
        placeholders((n - 1) as nat) + ",?"@
    }
}

/// The statement that counts the tracks among `n` ids.
pub open spec fn counting(n: nat) -> Seq<char> {
    "SELECT COUNT(*) FROM tracks WHERE id IN ("@ + placeholders(n) + ")"@
}

/// What is written to give a playlist the tracks `ids`, at the positions from 0.
pub open spec fn replacing(playlist: i64, ids: Seq<i64>, now: i64) -> Seq<Write> {
    seq![Write::Clear { playlist }] + insertions(playlist, ids, now) + seq![
        Write::Touch { playlist, now },
    ]
}

/// What is written to put the tracks `ids` in.
pub open spec fn insertions(playlist: i64, ids: Seq<i64>, now: i64) -> Seq<Write> {
    Seq::new(
        ids.len(),
        |i: int| Write::Insert { playlist, track: ids[i], position: i as i64, now },
    )
}

impl SetTracks {
    /// The statement that counts how many of the tracks are in the library,
    /// with a place for each of their ids, by the row found for the playlist.
    /// There is nothing to count where there are no tracks.
    pub fn found(&self, playlist: Option<i64>) -> (r: ApiResult<Option<String>>)
        ensures
            match r {
                Ok(statement) => {
                    &&& playlist is Some
                    &&& first_repeated(self.track_ids@) is None
                    &&& match statement {
                        Some(sql) => self.track_ids@.len() > 0 && sql@ == counting(
                            self.track_ids@.len(),
                        ),
                        None => self.track_ids@.len() == 0,
                    }
                },
                Err(e) => if playlist is None {
                    e@ == not_found("playlist"@)
                } else {
                    first_repeated(self.track_ids@) matches Some(id) && e@ == bad_request(
                        "duplicate track_id "@ + signed_decimal(id as int) + " in track_ids"@,
                    )
                },
            },
    {
        require_row(playlist, "playlist")?;
        if let Some(id) = find_repeated(&self.track_ids) {
            let number = signed_decimal_string(id);
            let mut text = "duplicate track_id ".to_owned();
            text.append(number.as_str());
            text.append(" in track_ids");
            return Err(ApiError::bad_request(text.as_str()));
        }
        let n = self.track_ids.len();
        if n == 0 {
            return Ok(None);
        }
        let mut sql = "SELECT COUNT(*) FROM tracks WHERE id IN (".to_owned();
        let ghost head = sql@;
        sql.append("?");
        let mut i: usize = 1;
        while i < n
            invariant
                1 <= i <= n,
                sql@ =~= head + placeholders(i as nat),
            decreases n - i,
        {
            sql.append(",?");
            i += 1;
        }
        sql.append(")");
        Ok(Some(sql))
    }

    /// What is to be written, by how many of the tracks are in the library.
    pub fn counted(self, count: i64) -> (r: ApiResult<Changes>)
        ensures
            match r {
                Ok(changes) => {
                    &&& count == self.track_ids@.len()
                    &&& changes.writes@ == replacing(self.playlist, self.track_ids@, self.now)
                    &&& changes.status == 204
                },
                Err(e) => {
                    &&& count != self.track_ids@.len()
                    &&& e@ == bad_request("one or more track_ids do not belong to this library"@)
                },
            },
    {
        let n = self.track_ids.len();
        if count < 0 || count as u64 != n as u64 {
            return Err(
                ApiError::bad_request("one or more track_ids do not belong to this library"),
            );
        }
        let mut writes: Vec<Write> = Vec::new();
        writes.push(Write::Clear { playlist: self.playlist });
        let mut i: usize = 0;
        while i < n
            invariant
                i <= n == self.track_ids@.len(),
                n <= i64::MAX,
                writes@ =~= seq![Write::Clear { playlist: self.playlist }] + insertions(
                    self.playlist,
                    self.track_ids@,
                    self.now,
                ).take(i as int),
            decreases n - i,
        {
            writes.push(
                Write::Insert {
                    playlist: self.playlist,
                    track: self.track_ids[i],
                    position: i as i64,
                    now: self.now,
                },
            );
            i += 1;
        }
        writes.push(Write::Touch { playlist: self.playlist, now: self.now });
        assert(writes@ =~= replacing(self.playlist, self.track_ids@, self.now));
        Ok(Changes { writes, status: 204 })
    }
}

/// The positions of the tracks of `playlist`, by their ids, after a change.
pub open spec fn written(playlist: i64, places: Map<i64, i64>, write: Write) -> Map<i64, i64> {
    match write {
        Write::Clear { playlist: other } => if other == playlist {
            Map::empty()
        } else {
            places
        },
        Write::Remove { playlist: other, track } => if other == playlist {
            places.remove(track)
        } else {
            places
        },
        Write::Insert { playlist: other, track, position, .. } => if other == playlist {
            places.insert(track, position)
        } else {
            places
        },
        Write::InsertIfAbsent { playlist: other, track, position, .. } => if other == playlist
            && !places.contains_key(track) {
            places.insert(track, position)
        } else {
            places
        },
        Write::Touch { .. } => places,
    }
}

/// The positions of the tracks of `playlist` after changes made one by one.
pub open spec fn all_written(playlist: i64, places: Map<i64, i64>, writes: Seq<Write>) -> Map<
    i64,
    i64,
>
    decreases writes.len(),
{
    if writes.len() == 0 {
        places
    } else {
        written(playlist, all_written(playlist, places, writes.drop_last()), writes.last())
    }
}

/// Whether a playlist whose tracks have these positions is read as `ids`: in
/// the order of the positions.
pub open spec fn reads_as(places: Map<i64, i64>, ids: Seq<i64>) -> bool {
    &&& ids.no_duplicates()
    &&& forall|track: i64| #[trigger] places.contains_key(track) <==> ids.contains(track)
    &&& forall|i: int, j: int|
        0 <= i < j < ids.len() ==> places[#[trigger] ids[i]] < places[#[trigger] ids[j]]
}

/// Whether `last` is the last position that is taken.
pub open spec fn is_last_position(places: Map<i64, i64>, last: Option<i64>) -> bool {
    match last {
        Some(position) => {
            &&& exists|track: i64| #[trigger]
                places.contains_key(track) && places[track] == position
            &&& forall|track: i64| #[trigger]
                places.contains_key(track) ==> places[track] <= position
        },
        None => forall|track: i64| !#[trigger] places.contains_key(track),
    }
}

/// A number that stands in `ids` more than once is found, and nothing else is.
pub proof fn repeats_are_found(ids: Seq<i64>)
    ensures
        first_repeated(ids) is None <==> ids.no_duplicates(),
    decreases ids.len(),
{
    if ids.len() > 0 {
        let rest = ids.drop_last();
        repeats_are_found(rest);
        if ids.no_duplicates() {
            assert(rest.no_duplicates());
            if rest.contains(ids.last()) {
                let k = rest.index_of(ids.last());
                assert(ids[k] == ids[ids.len() - 1]);
            }
        } else {
            let (i, j) = choose|i: int, j: int|
                0 <= i < ids.len() && 0 <= j < ids.len() && i != j && ids[i] == ids[j];
            if i < ids.len() - 1 && j < ids.len() - 1 {
                assert(rest[i] == rest[j]);
            } else if i < ids.len() - 1 {
                assert(rest[i] == ids.last());
            } else {
                assert(rest[j] == ids.last());
            }
        }
    }
}

/// Where no id is repeated, the count of those that are in the library tells
/// whether all of them are.
pub proof fn count_tells_missing_tracks(tracks: Set<i64>, ids: Seq<i64>)
    requires
        first_repeated(ids) is None,
    ensures
        ids.to_set().intersect(tracks).len() == ids.len() <==> forall|i: int|
            0 <= i < ids.len() ==> tracks.contains(#[trigger] ids[i]),
{
    repeats_are_found(ids);
    ids.unique_seq_to_set();
    let all = ids.to_set();
    let present = all.intersect(tracks);
    if present.len() == ids.len() {
        vstd::set_lib::lemma_subset_equality(present, all);
        assert forall|i: int| 0 <= i < ids.len() implies tracks.contains(#[trigger] ids[i]) by {
            assert(all.contains(ids[i]));
        }
    }
    if forall|i: int| 0 <= i < ids.len() ==> tracks.contains(#[trigger] ids[i]) {
        assert(present =~= all);
    }
}

proof fn lemma_inserted(
    playlist: i64,
    other: i64,
    places: Map<i64, i64>,
    ids: Seq<i64>,
    now: i64,
    n: nat,
)
    requires
        ids.no_duplicates(),
        n <= ids.len() <= i64::MAX,
    ensures
        ({
            let first = seq![Write::Clear { playlist }] + insertions(playlist, ids, now).take(
                n as int,
            );
            let after = all_written(playlist, places, first);
            &&& other != playlist ==> all_written(other, places, first) == places
            &&& forall|track: i64| #[trigger]
                after.contains_key(track) <==> ids.take(n as int).contains(track)
            &&& forall|i: int| 0 <= i < n ==> after[#[trigger] ids[i]] == i
        }),
    decreases n,
{
    let inserted = insertions(playlist, ids, now);
    let first = seq![Write::Clear { playlist }] + inserted.take(n as int);
    if n == 0 {
        assert(first =~= seq![Write::Clear { playlist }]);
        assert(first.drop_last() =~= seq![]);
        assert(all_written(playlist, places, first.drop_last()) == places);
        assert(all_written(other, places, first.drop_last()) == places);
    } else {
        let m = (n - 1) as nat;
        lemma_inserted(playlist, other, places, ids, now, m);
        assert(first.drop_last() =~= seq![Write::Clear { playlist }] + inserted.take(m as int));
        assert(first.last() == inserted[m as int]);
        let before = all_written(playlist, places, first.drop_last());
        let after = all_written(playlist, places, first);
        assert(after == before.insert(ids[m as int], m as i64));
        assert forall|track: i64| #[trigger]
            after.contains_key(track) <==> ids.take(n as int).contains(track) by {
            if ids.take(m as int).contains(track) {
                let k = ids.take(m as int).index_of(track);
                assert(ids.take(n as int)[k] == track);
            }
            if track == ids[m as int] {
                assert(ids.take(n as int)[m as int] == track);
            }
            if ids.take(n as int).contains(track) && track != ids[m as int] {
                let k = ids.take(n as int).index_of(track);
                assert(ids.take(m as int)[k] == track);
            }
        }
    }
}

/// Once its tracks were replaced, a playlist is read as the tracks of the
/// request, in their order, whatever it held; other playlists are as before.
pub proof fn replaced_tracks_read_back(
    playlist: i64,
    other: i64,
    places: Map<i64, i64>,
    ids: Seq<i64>,
    now: i64,
)
    requires
        first_repeated(ids) is None,
        ids.len() <= i64::MAX,
    ensures
        reads_as(all_written(playlist, places, replacing(playlist, ids, now)), ids),
        other != playlist ==> all_written(other, places, replacing(playlist, ids, now)) == places,
{
    repeats_are_found(ids);
    let inserted = insertions(playlist, ids, now);
    lemma_inserted(playlist, other, places, ids, now, ids.len());
    assert(inserted.take(ids.len() as int) =~= inserted);
    assert(ids.take(ids.len() as int) =~= ids);
    let writes = replacing(playlist, ids, now);
    assert(writes.drop_last() =~= seq![Write::Clear { playlist }] + inserted);
}

/// A track that is added stands behind the others, at the end of the playlist;
/// one that was there stays where it was. Other playlists are as before.
pub proof fn added_track_comes_last(
    playlist: i64,
    other: i64,
    places: Map<i64, i64>,
    ids: Seq<i64>,
    track: i64,
    last: Option<i64>,
    now: i64,
)
    requires
        reads_as(places, ids),
        is_last_position(places, last),
        last != Some(i64::MAX),
    ensures
        ({
            let writes = adding(playlist, track, last, now);
            &&& reads_as(
                all_written(playlist, places, writes),
                if ids.contains(track) {
                    ids
                } else {
                    ids.push(track)
                },
            )
            &&& other != playlist ==> all_written(other, places, writes) == places
        }),
{
    reveal_with_fuel(all_written, 3);
    let writes = adding(playlist, track, last, now);
    assert(writes.drop_last().drop_last() =~= seq![]);
    assert(places.contains_key(track) <==> ids.contains(track));
    if !ids.contains(track) {
        let after = all_written(playlist, places, writes);
        let more = ids.push(track);
        assert(after == places.insert(track, next_position(last) as i64));
        assert forall|t: i64| #[trigger] after.contains_key(t) <==> more.contains(t) by {
            assert(places.contains_key(t) <==> ids.contains(t));
            if ids.contains(t) {
                let k = ids.index_of(t);
                assert(more[k] == t);
            }
            if t == track {
                assert(more[ids.len() as int] == t);
            }
            if more.contains(t) && t != track {
                let k = more.index_of(t);
                assert(ids[k] == t);
            }
        }
        assert forall|i: int, j: int| 0 <= i < j < more.len() implies after[#[trigger] more[i]]
            < after[#[trigger] more[j]] by {
            assert(more[i] == ids[i]);
            assert(ids.contains(ids[i]));
            assert(places.contains_key(ids[i]));
            if j < ids.len() {
                assert(more[j] == ids[j]);
                assert(ids.contains(ids[j]));
            }
        }
    }
}

/// A track that is taken out is missing from the playlist, and nothing else is.
pub proof fn removed_track_is_gone(
    playlist: i64,
    other: i64,
    places: Map<i64, i64>,
    ids: Seq<i64>,
    i: int,
)
    requires
        reads_as(places, ids),
        0 <= i < ids.len(),
    ensures
        reads_as(
            written(playlist, places, Write::Remove { playlist, track: ids[i] }),
            ids.remove(i),
        ),
        other != playlist ==> written(other, places, Write::Remove { playlist, track: ids[i] })
            == places,
{
    let after = places.remove(ids[i]);
    let rest = ids.remove(i);
    assert forall|t: i64| #[trigger] after.contains_key(t) <==> rest.contains(t) by {
        assert(places.contains_key(t) <==> ids.contains(t));
        if ids.contains(t) && t != ids[i] {
            let k = ids.index_of(t);
            if k < i {
                assert(rest[k] == t);
            } else {
                assert(rest[k - 1] == t);
            }
        }
        if rest.contains(t) {
            let k = rest.index_of(t);
            if k < i {
                assert(ids[k] == t);
            } else {
                assert(ids[k + 1] == t);
            }
        }
    }
}

/// Who may not write to a library changes none of its playlists: every request
/// to create, rename, delete or fill one is refused.
pub proof fn only_writers_change_playlists(
    app: AppState,
    user: CurrentUser,
    lib_id: i64,
    name: Seq<char>,
)
    requires
        !user.access(lib_id).write,
    ensures
        app.write_refusal(user, lib_id) is Some,
        naming_refusal(app, user, lib_id, name) == app.write_refusal(user, lib_id),
{
}

/// Write access is all that it takes to change playlists: where the library is
/// there and the requester may write to it, whatever else they may do, every
/// name that is not blank is accepted, without the white space around it; a
/// blank one is refused.
pub proof fn writers_may_name_playlists(
    app: AppState,
    user: CurrentUser,
    lib_id: i64,
    k: int,
    a: Seq<char>,
    name: Seq<char>,
    b: Seq<char>,
)
    requires
        0 <= k < app.libraries@.len(),
        app.libraries@[k].id == lib_id,
        user.access(lib_id).write,
        is_blank(a),
        is_blank(b),
        name.len() > 0,
        !white_space(name[0]),
        !white_space(name.last()),
    ensures
        app.write_refusal(user, lib_id) is None,
        naming_refusal(app, user, lib_id, a + name + b) is None,
        trimmed(a + name + b) == name,
        naming_refusal(app, user, lib_id, a) == Some((400u16, "name must be non-empty"@)),
{
    each_access_is_enough_for_itself(app, user, lib_id);
    white_space_around_is_taken_away(a, name, b);
    white_space_around_is_taken_away(a, seq![], seq![]);
    assert(a + Seq::<char>::empty() + Seq::<char>::empty() =~= a);
}

/// The track that is told to be repeated is one that stands in the request
/// twice, and none before its second place is repeated.
pub proof fn the_first_repeat_is_told(ids: Seq<i64>, j: int)
    requires
        0 <= j < ids.len(),
        ids.take(j).no_duplicates(),
        ids.take(j).contains(ids[j]),
    ensures
        first_repeated(ids) == Some(ids[j]),
{
    repeats_are_found(ids.take(j));
    assert(ids.take(j + 1).drop_last() =~= ids.take(j));
    assert(ids.take(j + 1).last() == ids[j]);
    lemma_repeated_stays(ids, j + 1);
}

/// The statement that counts tracks has one place for each of them, and a comma
/// between two places.
pub proof fn each_track_has_a_place(n: nat, i: int)
    requires
        n > 0,
    ensures
        placeholders(n).len() == 2 * n - 1,
        0 <= i < n ==> placeholders(n)[2 * i] == '?',
        0 <= i < n - 1 ==> placeholders(n)[2 * i + 1] == ',',
        counting(n) == "SELECT COUNT(*) FROM tracks WHERE id IN ("@ + placeholders(n) + ")"@,
    decreases n,
{
    reveal_strlit("?");
    reveal_strlit(",?");
    if n > 1 {
        each_track_has_a_place((n - 1) as nat, i);
        each_track_has_a_place((n - 1) as nat, n - 2);
    }
}

/// A track is added at the position behind the last one that is taken, or at 0;
/// the change has the time of the request, and the playlist is updated then.
pub proof fn an_added_track_has_its_place_and_time(
    playlist: i64,
    track: i64,
    last: Option<i64>,
    now: i64,
)
    requires
        last != Some(i64::MAX),
    ensures
        ({
            let writes = adding(playlist, track, last, now);
            &&& writes.len() == 2
            &&& writes[0] matches Write::InsertIfAbsent {
                playlist: p,
                track: t,
                position,
                now: time,
            } && p == playlist && t == track && time == now && (last is None ==> position == 0)
                && (last is Some ==> position == last->0 + 1)
            &&& writes[1] matches Write::Touch { playlist: p, now: time } && p == playlist && time
                == now
        }),
{
}

/// The tracks of a playlist are replaced by taking all of them out and putting
/// each of the request in at its index; each has the time of the request, and
/// the playlist is updated then.
pub proof fn replaced_tracks_have_their_places_and_time(
    playlist: i64,
    ids: Seq<i64>,
    now: i64,
    i: int,
)
    requires
        ids.len() <= i64::MAX,
    ensures
        ({
            let writes = replacing(playlist, ids, now);
            &&& writes.len() == ids.len() + 2
            &&& writes[0] matches Write::Clear { playlist: p } && p == playlist
            &&& 0 <= i < ids.len() ==> (writes[i + 1] matches Write::Insert {
                playlist: p,
                track,
                position,
                now: time,
            } && p == playlist && track == ids[i] && position == i && time == now)
            &&& writes.last() matches Write::Touch { playlist: p, now: time } && p == playlist
                && time == now
        }),
{
}

/// A failure is told as the database tells it. It is the request's fault where a
/// name is taken, or where the message speaks of a foreign key, whatever stands
/// around that; a failure that did not come from the database is not.
pub proof fn failures_are_told_apart(
    unique_violation: bool,
    message: String,
    text: String,
    a: Seq<char>,
    b: Seq<char>,
)
    ensures
        ({
            let refused = DbFailure::Refused { unique_violation, message, text };
            let lost = DbFailure::Unreachable { text };
            &&& refused.said() == text@ && lost.said() == text@
            &&& refused.violates_unique() == unique_violation && !lost.violates_unique()
            &&& message@ == a + "FOREIGN KEY"@ + b ==> refused.violates_foreign_key()
            &&& !holds_text(message@, "FOREIGN KEY"@) ==> !refused.violates_foreign_key()
            &&& !lost.violates_foreign_key()
        }),
{
    a_part_is_found(a, "FOREIGN KEY"@, b);
}

} // verus!
