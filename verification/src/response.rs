//! The response mapper: turns stored catalog rows into the wire records
//! the API returns, deriving the public image URL where an image is
//! stored. A pure transformation; nothing here touches the store.

use vstd::prelude::*;
use vstd::string::StringExecFns;
use crate::catalog::Track;
use crate::catalog::TrackModel;

verus! {

/// A public URL: the configured base, a separator, and the stored
/// filename.
pub open spec fn url_model(base: Seq<char>, name: Seq<char>) -> Seq<char> {
    base + seq!['/'] + name
}

/// Builds the public URL under which a stored file is served.
pub fn public_url(base: &str, name: &str) -> (u: String)
    ensures
        u@ == url_model(base@, name@),
{
    let mut u = base.to_owned();
    u.append("/");
    u.append(name);
    proof {
        reveal_strlit("/");
        assert("/"@ =~= seq!['/']);
        assert(u@ =~= url_model(base@, name@));
    }
    u
}

/// A track as the API reports it: the stored fields, and the derived
/// `image_url` exactly when an image is stored.
#[derive(Debug)]
pub struct TrackRecord {
    pub id: u64,
    pub external_name: String,
    pub duration_seconds: u64,
    pub image_name: Option<String>,
    pub image_url: Option<String>,
}

/// The mathematical image of a `TrackRecord`.
#[verifier::ext_equal]
pub ghost struct TrackRecordModel {
    pub id: u64,
    pub external_name: Seq<char>,
    pub duration_seconds: u64,
    pub image_name: Option<Seq<char>>,
    pub image_url: Option<Seq<char>>,
}

impl View for TrackRecord {
    type V = TrackRecordModel;

    open spec fn view(&self) -> TrackRecordModel {
        TrackRecordModel {
            id: self.id,
            external_name: self.external_name@,
            duration_seconds: self.duration_seconds,
            image_name: self.image_name.deep_view(),
            image_url: self.image_url.deep_view(),
        }
    }
}

/// What the mapper produces for one row: every stored field verbatim, and
/// the image URL derived from the base exactly when an image is present.
pub open spec fn record_model_of(t: TrackModel, image_base_url: Seq<char>) -> TrackRecordModel {
    TrackRecordModel {
        id: t.id,
        external_name: t.external_name,
        duration_seconds: t.duration_seconds,
        image_name: t.image_name,
        image_url: match t.image_name {
            Some(n) => Some(url_model(image_base_url, n)),
            None => None,
        },
    }
}

/// Maps one stored row to its wire record.
pub fn track_record(t: &Track, image_base_url: &str) -> (r: TrackRecord)
    ensures
        r@ == record_model_of(t@, image_base_url@),
{
    let image_name = match &t.image_name {
        Some(n) => Some(n.clone()),
        None => None,
    };
    let image_url = match &t.image_name {
        Some(n) => Some(public_url(image_base_url, n.as_str())),
        None => None,
    };
    let r = TrackRecord {
        id: t.id,
        external_name: t.external_name.clone(),
        duration_seconds: t.duration_seconds,
        image_name,
        image_url,
    };
    proof {
        assert(r@ =~= record_model_of(t@, image_base_url@));
    }
    r
}

/// Maps a whole listing to wire records, in stored order.
pub fn track_records(tracks: &Vec<Track>, image_base_url: &str) -> (r: Vec<TrackRecord>)
    ensures
        r@.len() == tracks@.len(),
        forall|i: int|
            0 <= i < r@.len() ==> #[trigger] r@[i]@ == record_model_of(
                tracks@[i]@,
                image_base_url@,
            ),
{
    let mut r: Vec<TrackRecord> = Vec::new();
    let n = tracks.len();
    for i in 0..n
        invariant
            n == tracks@.len(),
            r@.len() == i,
            forall|k: int|
                0 <= k < i ==> #[trigger] r@[k]@ == record_model_of(tracks@[k]@, image_base_url@),
    {
        r.push(track_record(&tracks[i], image_base_url));
    }
    r
}

} // verus!
