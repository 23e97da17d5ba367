use music_catalog::catalog::{Catalog, StoreError};
use music_catalog::ingest::{
    classify_filename, ingest, route_part, scan_parts, storage_path, FileKind, IngestError,
    IngestSlots, PartRoute,
};

#[test]
fn classification_follows_the_extension() {
    assert_eq!(classify_filename("song.mp3"), FileKind::Audio);
    assert_eq!(classify_filename("cover.png"), FileKind::Image);
    assert_eq!(classify_filename("cover.jpg"), FileKind::Image);
    assert_eq!(classify_filename("cover.jpeg"), FileKind::Image);
    assert_eq!(classify_filename("notes.txt"), FileKind::Unsupported);
    assert_eq!(classify_filename("mp3"), FileKind::Unsupported);
    assert_eq!(classify_filename(""), FileKind::Unsupported);
    assert_eq!(classify_filename("song.mp3.txt"), FileKind::Unsupported);
}

#[test]
fn route_part_fills_the_slot_of_its_kind() {
    let mut slots = IngestSlots::new();
    assert_eq!(route_part(&mut slots, "a.mp3"), Ok(PartRoute::AudioDir));
    assert_eq!(route_part(&mut slots, "c.png"), Ok(PartRoute::ImageDir));
    assert_eq!(slots.audio.as_deref(), Some("a.mp3"));
    assert_eq!(slots.image.as_deref(), Some("c.png"));

    let r = route_part(&mut slots, "evil.exe");
    assert_eq!(r, Err(IngestError::UnsupportedFileType));
    // a rejected part leaves the slots as they were
    assert_eq!(slots.audio.as_deref(), Some("a.mp3"));
    assert_eq!(slots.image.as_deref(), Some("c.png"));
}

#[test]
fn a_later_part_of_the_same_kind_replaces_the_earlier() {
    let names = vec!["a.mp3".to_string(), "b.mp3".to_string(), "c.png".to_string()];
    let slots = scan_parts(&names).unwrap();
    assert_eq!(slots.audio.as_deref(), Some("b.mp3"));
    assert_eq!(slots.image.as_deref(), Some("c.png"));
}

#[test]
fn ingest_with_both_parts_commits_one_row() {
    let mut c = Catalog::new();
    let names = vec!["song1.mp3".to_string(), "cover.png".to_string()];
    let id = ingest(&mut c, &names, 180).unwrap();

    assert_eq!(c.tracks().len(), 1);
    let t = c.get_track_by_external_name("song1.mp3").unwrap();
    assert_eq!(t.id, id);
    assert_eq!(t.duration_seconds, 180);
    assert_eq!(t.image_name.as_deref(), Some("cover.png"));
    assert_eq!(t.playlist_id, None);
}

#[test]
fn ingest_with_unsupported_part_rejects_and_stores_nothing() {
    let mut c = Catalog::new();
    let names = vec![
        "song1.mp3".to_string(),
        "notes.pdf".to_string(),
        "cover.png".to_string(),
    ];
    let r = ingest(&mut c, &names, 180);
    assert_eq!(r, Err(IngestError::UnsupportedFileType));
    assert_eq!(r.unwrap_err().http_status(), 400);
    assert_eq!(c.tracks().len(), 0);
}

#[test]
fn ingest_with_only_audio_rejects_and_stores_nothing() {
    let mut c = Catalog::new();
    let names = vec!["song1.mp3".to_string()];
    let r = ingest(&mut c, &names, 180);
    assert_eq!(r, Err(IngestError::MissingPart));
    assert_eq!(r.unwrap_err().http_status(), 400);
    assert_eq!(c.tracks().len(), 0);
}

#[test]
fn ingest_with_only_image_rejects_and_stores_nothing() {
    let mut c = Catalog::new();
    let names = vec!["cover.jpg".to_string()];
    let r = ingest(&mut c, &names, 180);
    assert_eq!(r, Err(IngestError::MissingPart));
    assert_eq!(c.tracks().len(), 0);
}

#[test]
fn ingest_with_no_parts_rejects() {
    let mut c = Catalog::new();
    let names: Vec<String> = vec![];
    assert_eq!(ingest(&mut c, &names, 180), Err(IngestError::MissingPart));
    assert_eq!(c.tracks().len(), 0);
}

#[test]
fn ingest_with_zero_duration_is_a_server_fault() {
    let mut c = Catalog::new();
    let names = vec!["song1.mp3".to_string(), "cover.png".to_string()];
    let r = ingest(&mut c, &names, 0);
    assert_eq!(r, Err(IngestError::UnknownDuration));
    assert_eq!(r.unwrap_err().http_status(), 500);
    assert_eq!(c.tracks().len(), 0);
}

#[test]
fn ingest_of_a_name_already_stored_is_a_store_fault() {
    let mut c = Catalog::new();
    let names = vec!["song1.mp3".to_string(), "cover.png".to_string()];
    ingest(&mut c, &names, 180).unwrap();
    let r = ingest(&mut c, &names, 90);
    assert_eq!(r, Err(IngestError::Store(StoreError::NameTaken)));
    assert_eq!(r.unwrap_err().http_status(), 500);
    assert_eq!(c.tracks().len(), 1);
}

#[test]
fn storage_path_joins_directory_and_filename_verbatim() {
    assert_eq!(storage_path("./audio/", "song1.mp3"), "./audio/song1.mp3");
    assert_eq!(storage_path("", "x.png"), "x.png");
}
