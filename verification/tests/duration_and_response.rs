use music_catalog::catalog::Catalog;
use music_catalog::duration::duration_or_zero;
use music_catalog::response::{public_url, track_record, track_records};

#[test]
fn a_successful_probe_passes_through() {
    assert_eq!(duration_or_zero(Some(180)), 180);
    assert_eq!(duration_or_zero(Some(1)), 1);
}

#[test]
fn a_failed_probe_is_the_zero_sentinel() {
    assert_eq!(duration_or_zero(None), 0);
    assert_eq!(duration_or_zero(Some(0)), 0);
}

#[test]
fn public_url_joins_base_and_name() {
    assert_eq!(
        public_url("https://media.example/images", "cover.png"),
        "https://media.example/images/cover.png"
    );
    assert_eq!(public_url("", "a"), "/a");
}

#[test]
fn record_of_a_track_with_image_derives_the_url() {
    let mut c = Catalog::new();
    c.create_track("song1.mp3".to_string(), 180, Some("cover.png".to_string()))
        .unwrap();
    let t = c.get_track_by_external_name("song1.mp3").unwrap();
    let r = track_record(t, "https://media.example/images");
    assert_eq!(r.external_name, "song1.mp3");
    assert_eq!(r.duration_seconds, 180);
    assert_eq!(r.image_name.as_deref(), Some("cover.png"));
    assert_eq!(
        r.image_url.as_deref(),
        Some("https://media.example/images/cover.png")
    );
}

#[test]
fn record_of_a_track_without_image_has_no_url() {
    let mut c = Catalog::new();
    c.create_track("bare.mp3".to_string(), 60, None).unwrap();
    let t = c.get_track_by_external_name("bare.mp3").unwrap();
    let r = track_record(t, "https://media.example/images");
    assert_eq!(r.image_name, None);
    assert_eq!(r.image_url, None);
}

#[test]
fn listing_maps_every_row_in_order() {
    let mut c = Catalog::new();
    c.create_track("a.mp3".to_string(), 10, Some("a.png".to_string()))
        .unwrap();
    c.create_track("b.mp3".to_string(), 20, None).unwrap();
    let rs = track_records(c.tracks(), "http://base");
    assert_eq!(rs.len(), 2);
    assert_eq!(rs[0].external_name, "a.mp3");
    assert_eq!(rs[0].image_url.as_deref(), Some("http://base/a.png"));
    assert_eq!(rs[1].external_name, "b.mp3");
    assert_eq!(rs[1].image_url, None);
}
