use music_catalog::catalog::{Catalog, StoreError};

#[test]
fn insert_then_get_then_delete_round_trip() {
    let mut c = Catalog::new();
    let id = c
        .create_track("song1.mp3".to_string(), 180, Some("cover.png".to_string()))
        .unwrap();
    assert_eq!(id, 1);

    let t = c.get_track_by_external_name("song1.mp3").unwrap();
    assert_eq!(t.external_name, "song1.mp3");
    assert_eq!(t.duration_seconds, 180);
    assert_eq!(t.image_name.as_deref(), Some("cover.png"));
    assert_eq!(t.playlist_id, None);

    c.delete_track("song1.mp3");
    assert!(c.get_track_by_external_name("song1.mp3").is_none());
}

#[test]
fn get_unknown_track_is_none_not_a_fault() {
    let c = Catalog::new();
    assert!(c.get_track_by_external_name("never-inserted.mp3").is_none());
}

#[test]
fn delete_unknown_track_still_succeeds() {
    let mut c = Catalog::new();
    c.delete_track("ghost.mp3");
    assert_eq!(c.tracks().len(), 0);
}

#[test]
fn duplicate_external_name_is_rejected() {
    let mut c = Catalog::new();
    c.create_track("a.mp3".to_string(), 10, None).unwrap();
    let r = c.create_track("a.mp3".to_string(), 20, None);
    assert_eq!(r, Err(StoreError::NameTaken));
    assert_eq!(c.tracks().len(), 1);
}

#[test]
fn empty_listing_is_an_empty_array() {
    let c = Catalog::new();
    assert_eq!(c.tracks().len(), 0);
    assert_eq!(c.list_playlists(None).len(), 0);
}

#[test]
fn playlist_create_get_delete() {
    let mut c = Catalog::new();
    let pid = c.create_playlist("mix".to_string(), 7).unwrap();
    let p = c.get_playlist(pid).unwrap();
    assert_eq!(p.name, "mix");
    assert_eq!(p.creator_id, 7);
    assert_eq!(p.track_count, 0);

    c.delete_playlist(pid);
    assert!(c.get_playlist(pid).is_none());

    // deleting again is still a success
    c.delete_playlist(pid);
}

#[test]
fn attach_then_detach_restores_track_count() {
    let mut c = Catalog::new();
    let tid = c.create_track("s.mp3".to_string(), 30, None).unwrap();
    let pid = c.create_playlist("mix".to_string(), 1).unwrap();
    let before = c.get_playlist(pid).unwrap().track_count;

    c.attach_track_to_playlist(tid, pid).unwrap();
    assert_eq!(c.get_playlist(pid).unwrap().track_count, before + 1);
    let t = c.get_track_by_external_name("s.mp3").unwrap();
    assert_eq!(t.playlist_id, Some(pid));

    c.detach_track_from_playlist(tid, pid).unwrap();
    assert_eq!(c.get_playlist(pid).unwrap().track_count, before);
    let t = c.get_track_by_external_name("s.mp3").unwrap();
    assert_eq!(t.playlist_id, None);
}

#[test]
fn attach_moves_membership_between_playlists() {
    let mut c = Catalog::new();
    let tid = c.create_track("s.mp3".to_string(), 30, None).unwrap();
    let p1 = c.create_playlist("one".to_string(), 1).unwrap();
    let p2 = c.create_playlist("two".to_string(), 1).unwrap();

    c.attach_track_to_playlist(tid, p1).unwrap();
    c.attach_track_to_playlist(tid, p2).unwrap();

    assert_eq!(c.get_playlist(p1).unwrap().track_count, 0);
    assert_eq!(c.get_playlist(p2).unwrap().track_count, 1);
}

#[test]
fn attach_unknown_track_or_playlist_fails() {
    let mut c = Catalog::new();
    let pid = c.create_playlist("mix".to_string(), 1).unwrap();
    assert_eq!(
        c.attach_track_to_playlist(999, pid),
        Err(StoreError::NoSuchTrack)
    );
    let tid = c.create_track("s.mp3".to_string(), 30, None).unwrap();
    assert_eq!(
        c.attach_track_to_playlist(tid, 999),
        Err(StoreError::NoSuchPlaylist)
    );
    assert_eq!(c.get_playlist(pid).unwrap().track_count, 0);
}

#[test]
fn detach_without_membership_fails() {
    let mut c = Catalog::new();
    let tid = c.create_track("s.mp3".to_string(), 30, None).unwrap();
    let pid = c.create_playlist("mix".to_string(), 1).unwrap();
    assert_eq!(
        c.detach_track_from_playlist(tid, pid),
        Err(StoreError::NotAttached)
    );
    assert_eq!(
        c.detach_track_from_playlist(999, pid),
        Err(StoreError::NoSuchTrack)
    );
    assert_eq!(
        c.detach_track_from_playlist(tid, 999),
        Err(StoreError::NoSuchPlaylist)
    );
}

#[test]
fn list_playlists_filters_by_creator() {
    let mut c = Catalog::new();
    c.create_playlist("a".to_string(), 1).unwrap();
    c.create_playlist("b".to_string(), 2).unwrap();
    c.create_playlist("c".to_string(), 1).unwrap();

    let all = c.list_playlists(None);
    assert_eq!(all.len(), 3);

    let of_one = c.list_playlists(Some(1));
    assert_eq!(of_one.len(), 2);
    assert_eq!(of_one[0].name, "a");
    assert_eq!(of_one[1].name, "c");

    assert_eq!(c.list_playlists(Some(3)).len(), 0);
}

#[test]
fn list_playlist_tracks_returns_members_in_order() {
    let mut c = Catalog::new();
    let t1 = c.create_track("a.mp3".to_string(), 10, None).unwrap();
    let _t2 = c.create_track("b.mp3".to_string(), 20, None).unwrap();
    let t3 = c.create_track("c.mp3".to_string(), 30, None).unwrap();
    let pid = c.create_playlist("mix".to_string(), 1).unwrap();

    c.attach_track_to_playlist(t1, pid).unwrap();
    c.attach_track_to_playlist(t3, pid).unwrap();

    let members = c.list_playlist_tracks(pid);
    assert_eq!(members.len(), 2);
    assert_eq!(members[0].external_name, "a.mp3");
    assert_eq!(members[1].external_name, "c.mp3");

    assert_eq!(c.list_playlist_tracks(999).len(), 0);
}

#[test]
fn authenticate_needs_both_fields_to_match() {
    let mut c = Catalog::new();
    let uid = c
        .create_user("alice".to_string(), "secret".to_string())
        .unwrap();

    let u = c.authenticate_user("alice", "secret").unwrap();
    assert_eq!(u.id, uid);
    assert_eq!(u.username, "alice");

    // a wrong password and an unknown username are the same refusal
    assert!(c.authenticate_user("alice", "wrong").is_none());
    assert!(c.authenticate_user("bob", "secret").is_none());
    assert!(c.authenticate_user("bob", "wrong").is_none());
    assert!(c.authenticate_user("", "").is_none());
}

#[test]
fn duplicate_username_is_rejected() {
    let mut c = Catalog::new();
    c.create_user("alice".to_string(), "one".to_string()).unwrap();
    let r = c.create_user("alice".to_string(), "two".to_string());
    assert_eq!(r, Err(StoreError::UsernameTaken));
}

#[test]
fn store_failures_map_to_a_server_fault_status() {
    assert_eq!(StoreError::NameTaken.http_status(), 500);
    assert_eq!(StoreError::UsernameTaken.http_status(), 500);
    assert_eq!(StoreError::NoSuchTrack.http_status(), 500);
    assert_eq!(StoreError::NoSuchPlaylist.http_status(), 500);
    assert_eq!(StoreError::NotAttached.http_status(), 500);
}

#[test]
fn generated_ids_are_distinct_across_entities() {
    let mut c = Catalog::new();
    let a = c.create_track("a.mp3".to_string(), 1, None).unwrap();
    let b = c.create_playlist("p".to_string(), 1).unwrap();
    let d = c.create_user("u".to_string(), "pw".to_string()).unwrap();
    assert!(a != b && b != d && a != d);
}
