use muserv::api::auth::CurrentUser;
use muserv::api::playlists::{
    add_track, add_track_at, create, create_at, created, delete, deleted, get_one, map_unique,
    remove_track, remove_track_at, renamed, require_row, set_tracks, set_tracks_at, update,
    update_at, write_failed, AddTrackBody, DbFailure, NewPlaylist, PatchPlaylist, PlaylistRow,
    PlaylistTrack, SetTracksBody, Write,
};
use muserv::api::error::ApiError;
use muserv::api::AppState;
use muserv::libraries::Library;
use muserv::users::{LibraryAccess, User};
use std::collections::{BTreeMap, HashMap};
use std::sync::Arc;

fn state() -> AppState {
    AppState {
        users: Vec::new(),
        libraries: vec![Library { id: 1, name: "main".to_string(), path: "/m".to_string() }],
        downloaders_path: None,
    }
}

fn reader() -> CurrentUser {
    let mut permissions = HashMap::new();
    permissions.insert(1, LibraryAccess { read: true, write: false, upload: true });
    CurrentUser::Authenticated(Arc::new(User {
        username: "alan".to_string(),
        token: "t".to_string(),
        permissions,
    }))
}

fn told<T>(r: Result<T, ApiError>) -> (u16, String) {
    let err = r.err().unwrap();
    (err.status, err.message)
}

fn refusal(status: u16, message: &str) -> (u16, String) {
    (status, message.to_string())
}

fn row(id: i64) -> PlaylistRow {
    PlaylistRow { id, name: "mix".to_string(), description: None, created_at: 1, updated_at: 2 }
}

fn track(id: i64) -> PlaylistTrack {
    PlaylistTrack {
        track_id: id,
        position: 0,
        added_at: 1,
        title: None,
        album: None,
        artist: None,
        album_artist: None,
        duration_ms: None,
    }
}

fn refused(unique_violation: bool, message: &str) -> DbFailure {
    DbFailure::Refused {
        unique_violation,
        message: message.to_string(),
        text: format!("database: {message}"),
    }
}

fn unreachable_db() -> DbFailure {
    DbFailure::Unreachable { text: "gone".to_string() }
}

fn new_playlist(name: &str) -> NewPlaylist {
    NewPlaylist { name: name.to_string(), description: Some("d".to_string()) }
}

#[test]
fn creating_takes_a_name() {
    let draft = create_at(&state(), &CurrentUser::Open, 1, new_playlist(" mix "), 7).unwrap();
    assert_eq!(draft.name, "mix");
    assert_eq!(draft.description.as_deref(), Some("d"));
    assert_eq!(draft.now, 7);
    assert_eq!(
        told(create_at(&state(), &CurrentUser::Open, 1, new_playlist(" \n"), 7)),
        refusal(400, "name must be non-empty")
    );
    assert_eq!(
        told(create_at(&state(), &reader(), 1, new_playlist(""), 7)),
        refusal(403, "write access required")
    );
    assert_eq!(
        told(create_at(&state(), &reader(), 2, new_playlist("mix"), 7)),
        refusal(404, "library not found")
    );
}

#[test]
fn creating_is_answered() {
    let (status, stored) = created(Ok(row(3))).unwrap();
    assert_eq!((status, stored.id), (201, 3));
    assert_eq!(
        told(created(Err(refused(true, "UNIQUE constraint failed")))),
        refusal(400, "playlist name already exists in this library")
    );
    assert_eq!(told(created(Err(refused(false, "locked")))), refusal(500, "database: locked"));
    assert_eq!(told(created(Err(unreachable_db()))), refusal(500, "gone"));
    let err = map_unique(&refused(true, "x"));
    assert_eq!(err.status, 400);
}

#[test]
fn renaming_takes_a_name() {
    let body = |name: &str| PatchPlaylist { name: name.to_string() };
    let change = update_at(&state(), &CurrentUser::Open, 1, 5, body(" new "), 9).unwrap();
    assert_eq!((change.id, change.name.as_str(), change.now), (5, "new", 9));
    assert_eq!(
        told(update_at(&state(), &CurrentUser::Open, 1, 5, body(" "), 9)),
        refusal(400, "name must be non-empty")
    );
    assert_eq!(
        told(update_at(&state(), &reader(), 1, 5, body("new"), 9)),
        refusal(403, "write access required")
    );
    assert_eq!(renamed(Ok(Some(row(5)))).unwrap().id, 5);
    assert_eq!(told(renamed(Ok(None))), refusal(404, "playlist not found"));
    assert_eq!(
        told(renamed(Err(refused(true, "x")))),
        refusal(400, "playlist name already exists in this library")
    );
    assert_eq!(told(renamed(Err(unreachable_db()))), refusal(500, "gone"));
}

#[test]
fn reading_and_deleting_need_a_playlist() {
    let found = get_one(Some(row(3)), vec![track(8)]).unwrap();
    assert_eq!(found.playlist.id, 3);
    assert_eq!(found.tracks.len(), 1);
    assert_eq!(found.tracks[0].track_id, 8);
    assert_eq!(told(get_one(None, Vec::new())), refusal(404, "playlist not found"));
    assert_eq!(require_row(Some(3), "track").unwrap(), 3);
    assert_eq!(told(require_row::<i64>(None, "track")), refusal(404, "track not found"));
    assert_eq!(delete(&state(), &CurrentUser::Open, 1, 3).unwrap(), 3);
    assert_eq!(told(delete(&state(), &reader(), 1, 3)), refusal(403, "write access required"));
    assert_eq!(told(delete(&state(), &reader(), 2, 3)), refusal(404, "library not found"));
    assert_eq!(deleted(1).unwrap(), 204);
    assert_eq!(told(deleted(0)), refusal(404, "playlist not found"));
}

#[test]
fn adding_goes_behind_the_last_track() {
    let ask = || {
        add_track_at(&state(), &CurrentUser::Open, 1, 5, AddTrackBody { track_id: 8 }, 9).unwrap()
    };
    let changes = ask().found(Some(5), Some(8), Some(41)).unwrap();
    assert_eq!(changes.status, 201);
    assert_eq!(
        changes.writes,
        vec![
            Write::InsertIfAbsent { playlist: 5, track: 8, position: 42, now: 9 },
            Write::Touch { playlist: 5, now: 9 },
        ]
    );
    let changes = ask().found(Some(5), Some(8), None).unwrap();
    assert_eq!(
        changes.writes[0],
        Write::InsertIfAbsent { playlist: 5, track: 8, position: 0, now: 9 }
    );
    assert_eq!(told(ask().found(None, None, None)), refusal(404, "playlist not found"));
    assert_eq!(told(ask().found(Some(5), None, None)), refusal(404, "track not found"));
    assert_eq!(
        told(add_track_at(&state(), &reader(), 1, 5, AddTrackBody { track_id: 8 }, 9)),
        refusal(403, "write access required")
    );
}

#[test]
fn removing_needs_the_track_in_the_playlist() {
    let request = remove_track_at(&state(), &CurrentUser::Open, 1, 5, 8, 9).unwrap();
    assert_eq!(request.found(Some(5)).unwrap(), Write::Remove { playlist: 5, track: 8 });
    assert_eq!(told(request.found(None)), refusal(404, "playlist not found"));
    let changes = request.removed(1).unwrap();
    assert_eq!(changes.writes, vec![Write::Touch { playlist: 5, now: 9 }]);
    assert_eq!(changes.status, 204);
    assert_eq!(told(request.removed(0)), refusal(404, "track in playlist not found"));
    assert_eq!(
        told(remove_track_at(&state(), &reader(), 1, 5, 8, 9)),
        refusal(403, "write access required")
    );
}

#[test]
fn replacing_counts_the_tracks() {
    let ask = |ids: &[i64]| {
        let body = SetTracksBody { track_ids: ids.to_vec() };
        set_tracks_at(&state(), &CurrentUser::Open, 1, 5, body, 9).unwrap()
    };
    assert_eq!(
        ask(&[8, 6, 7]).found(Some(5)).unwrap().as_deref(),
        Some("SELECT COUNT(*) FROM tracks WHERE id IN (?,?,?)")
    );
    assert_eq!(
        ask(&[8]).found(Some(5)).unwrap().as_deref(),
        Some("SELECT COUNT(*) FROM tracks WHERE id IN (?)")
    );
    assert_eq!(ask(&[]).found(Some(5)).unwrap(), None);
    assert_eq!(told(ask(&[8, 8]).found(None)), refusal(404, "playlist not found"));
    assert_eq!(
        told(ask(&[8, -3, 7, -3, 8]).found(Some(5))),
        refusal(400, "duplicate track_id -3 in track_ids")
    );
    for count in [2, 4, -1] {
        assert_eq!(
            told(ask(&[8, 6, 7]).counted(count)),
            refusal(400, "one or more track_ids do not belong to this library")
        );
    }
    let changes = ask(&[8, 6]).counted(2).unwrap();
    assert_eq!(changes.status, 204);
    assert_eq!(
        changes.writes,
        vec![
            Write::Clear { playlist: 5 },
            Write::Insert { playlist: 5, track: 8, position: 0, now: 9 },
            Write::Insert { playlist: 5, track: 6, position: 1, now: 9 },
            Write::Touch { playlist: 5, now: 9 },
        ]
    );
    assert_eq!(ask(&[]).counted(0).unwrap().writes.len(), 2);
    let body = SetTracksBody { track_ids: Vec::new() };
    assert_eq!(
        told(set_tracks_at(&state(), &reader(), 1, 5, body, 9)),
        refusal(403, "write access required")
    );
}

#[test]
fn failed_writes_are_answered() {
    let insert = Write::Insert { playlist: 5, track: 8, position: 0, now: 9 };
    let err = write_failed(insert, &refused(false, "FOREIGN KEY constraint failed"));
    assert_eq!((err.status, err.message.as_str()), (400, "unknown track_id 8"));
    let err = write_failed(insert, &refused(false, "locked"));
    assert_eq!((err.status, err.message.as_str()), (500, "database: locked"));
    let err = write_failed(insert, &unreachable_db());
    assert_eq!((err.status, err.message.as_str()), (500, "gone"));
    let clear = Write::Clear { playlist: 5 };
    assert_eq!(write_failed(clear, &refused(false, "FOREIGN KEY")).status, 500);
}

#[test]
fn requests_take_the_present_time() {
    let app = state();
    let open = CurrentUser::Open;
    let before = chrono::Utc::now().timestamp();
    let times = [
        create(&app, &open, 1, new_playlist("a")).unwrap().now,
        update(&app, &open, 1, 5, PatchPlaylist { name: "a".to_string() }).unwrap().now,
        add_track(&app, &open, 1, 5, AddTrackBody { track_id: 8 }).unwrap().now,
        remove_track(&app, &open, 1, 5, 8).unwrap().now,
        set_tracks(&app, &open, 1, 5, SetTracksBody { track_ids: vec![8] }).unwrap().now,
    ];
    let after = chrono::Utc::now().timestamp();
    for now in times {
        assert!(before <= now && now <= after);
    }
    assert!(create(&app, &reader(), 1, new_playlist("a")).is_err());
}

fn apply(places: &mut BTreeMap<i64, i64>, writes: &[Write]) {
    for write in writes {
        match *write {
            Write::Clear { .. } => places.clear(),
            Write::Remove { track, .. } => {
                places.remove(&track);
            }
            Write::Insert { track, position, .. } => {
                places.insert(track, position);
            }
            Write::InsertIfAbsent { track, position, .. } => {
                places.entry(track).or_insert(position);
            }
            Write::Touch { .. } => {}
        }
    }
}

fn read(places: &BTreeMap<i64, i64>) -> Vec<i64> {
    let mut ids: Vec<i64> = places.keys().copied().collect();
    ids.sort_by_key(|id| places[id]);
    ids
}

#[test]
fn a_playlist_is_read_as_it_was_written() {
    let app = state();
    let mut places: BTreeMap<i64, i64> = BTreeMap::new();
    places.insert(1, 4);
    let body = SetTracksBody { track_ids: vec![30, 10, 20] };
    let set = set_tracks_at(&app, &CurrentUser::Open, 1, 5, body, 9).unwrap();
    apply(&mut places, &set.counted(3).unwrap().writes);
    assert_eq!(read(&places), vec![30, 10, 20]);

    for track in [40, 10] {
        let last = places.values().max().copied();
        let add =
            add_track_at(&app, &CurrentUser::Open, 1, 5, AddTrackBody { track_id: track }, 9).unwrap();
        apply(&mut places, &add.found(Some(5), Some(track), last).unwrap().writes);
    }
    assert_eq!(read(&places), vec![30, 10, 20, 40]);

    let remove = remove_track_at(&app, &CurrentUser::Open, 1, 5, 10, 9).unwrap();
    apply(&mut places, &[remove.found(Some(5)).unwrap()]);
    assert_eq!(read(&places), vec![30, 20, 40]);
}
