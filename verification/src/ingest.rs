//! The upload ingestion workflow: classifying multipart parts by filename
//! extension, tracking which slots an upload has filled, and the final
//! decision that commits one catalog row.
//!
//! The caller streams each part's bytes to disk and probes the saved audio
//! file for its duration; everything the workflow decides — which
//! directory a part belongs in, when a request is rejected and with which
//! status, and what row is committed — is decided here and verified.
//!
//! Filenames are taken verbatim from the client, since the external name
//! doubles as the public identifier: a name holding a path separator or
//! `..` reaches the filesystem unchecked. A deployment that cannot trust
//! its clients must generate server-side names instead; that changes the
//! public filename contract, so it is flagged here rather than silently
//! imposed.

use vstd::prelude::*;
use vstd::string::StringExecFns;
use crate::catalog::Catalog;
use crate::catalog::CatalogModel;
use crate::catalog::StoreError;

verus! {

/// `s` ends with `suffix`.
pub open spec fn ends_with_seq(s: Seq<char>, suffix: Seq<char>) -> bool {
    s.len() >= suffix.len() && s.subrange(s.len() - suffix.len(), s.len() as int) == suffix
}

/// Whether `s` ends with `suffix`, by characters.
pub fn str_ends_with(s: &str, suffix: &str) -> (r: bool)
    ensures
        r == ends_with_seq(s@, suffix@),
{
    let n = s.unicode_len();
    let m = suffix.unicode_len();
    if m > n {
        return false;
    }
    let off = n - m;
    for i in 0..m
        invariant
            n == s@.len(),
            m == suffix@.len(),
            m <= n,
            off == n - m,
            forall|k: int| 0 <= k < i ==> s@[off + k] == suffix@[k],
    {
        if s.get_char(off + i) != suffix.get_char(i) {
            proof {
                if ends_with_seq(s@, suffix@) {
                    assert(s@.subrange(n - m, n as int)[i as int] == suffix@[i as int]);
                }
            }
            return false;
        }
    }
    proof {
        assert(s@.subrange(n - m, n as int) =~= suffix@);
    }
    true
}

/// What a part's filename extension says about it.
#[derive(Debug, Clone, Copy, PartialEq, Eq, Structural)]
pub enum FileKind {
    Audio,
    Image,
    Unsupported,
}

pub open spec fn audio_suffix() -> Seq<char> {
    seq!['.', 'm', 'p', '3']
}

pub open spec fn png_suffix() -> Seq<char> {
    seq!['.', 'p', 'n', 'g']
}

pub open spec fn jpg_suffix() -> Seq<char> {
    seq!['.', 'j', 'p', 'g']
}

pub open spec fn jpeg_suffix() -> Seq<char> {
    seq!['.', 'j', 'p', 'e', 'g']
}

/// The classification rule: `.mp3` is audio; `.png`, `.jpg` and `.jpeg`
/// are images; everything else is unsupported.
pub open spec fn classify_spec(name: Seq<char>) -> FileKind {
    if ends_with_seq(name, audio_suffix()) {
        FileKind::Audio
    } else if ends_with_seq(name, png_suffix()) || ends_with_seq(name, jpg_suffix())
        || ends_with_seq(name, jpeg_suffix()) {
        FileKind::Image
    } else {
        FileKind::Unsupported
    }
}

/// Classifies a part by its declared filename.
pub fn classify_filename(name: &str) -> (k: FileKind)
    ensures
        k == classify_spec(name@),
{
    proof {
        reveal_strlit(".mp3");
        reveal_strlit(".png");
        reveal_strlit(".jpg");
        reveal_strlit(".jpeg");
        assert(".mp3"@ =~= audio_suffix());
        assert(".png"@ =~= png_suffix());
        assert(".jpg"@ =~= jpg_suffix());
        assert(".jpeg"@ =~= jpeg_suffix());
    }
    if str_ends_with(name, ".mp3") {
        FileKind::Audio
    } else if str_ends_with(name, ".png") || str_ends_with(name, ".jpg") || str_ends_with(
        name,
        ".jpeg",
    ) {
        FileKind::Image
    } else {
        FileKind::Unsupported
    }
}

/// Why an ingestion request was rejected.
#[derive(Debug, PartialEq, Eq, Structural)]
pub enum IngestError {
    /// A part's filename has an extension the service does not accept.
    UnsupportedFileType,
    /// The upload ended without both an audio part and an image part.
    MissingPart,
    /// The saved audio file's duration probe came back as the zero
    /// sentinel, so the track cannot be catalogued.
    UnknownDuration,
    /// Committing the catalog row failed.
    Store(StoreError),
}

impl IngestError {
    /// The HTTP status each rejection maps to: a client fault is 400, a
    /// server-side fault is 500.
    pub open spec fn http_status_spec(self) -> u16 {
        match self {
            IngestError::UnsupportedFileType => 400,
            IngestError::MissingPart => 400,
            IngestError::UnknownDuration => 500,
            IngestError::Store(_) => 500,
        }
    }

    /// The HTTP status code of this rejection.
    pub fn http_status(&self) -> (s: u16)
        ensures
            s == self.http_status_spec(),
    {
        match self {
            IngestError::UnsupportedFileType => 400,
            IngestError::MissingPart => 400,
            IngestError::UnknownDuration => 500,
            IngestError::Store(_) => 500,
        }
    }
}

/// The filenames an upload has produced so far: at most one audio part and
/// one image part, a later part of the same kind replacing the earlier.
pub struct IngestSlots {
    pub audio: Option<String>,
    pub image: Option<String>,
}

/// The mathematical image of `IngestSlots`.
#[verifier::ext_equal]
pub ghost struct SlotsModel {
    pub audio: Option<Seq<char>>,
    pub image: Option<Seq<char>>,
}

impl View for IngestSlots {
    type V = SlotsModel;

    open spec fn view(&self) -> SlotsModel {
        SlotsModel { audio: self.audio.deep_view(), image: self.image.deep_view() }
    }
}

pub open spec fn empty_slots() -> SlotsModel {
    SlotsModel { audio: None, image: None }
}

impl IngestSlots {
    /// Slots of an upload no part of which has arrived yet.
    pub fn new() -> (s: IngestSlots)
        ensures
            s@ == empty_slots(),
    {
        IngestSlots { audio: None, image: None }
    }
}

/// Which storage directory a part's bytes belong in.
#[derive(Debug, Clone, Copy, PartialEq, Eq, Structural)]
pub enum PartRoute {
    AudioDir,
    ImageDir,
}

/// How one part changes the slots: its filename lands in the slot of its
/// kind, and an unsupported extension rejects the upload.
pub open spec fn route_model(sl: SlotsModel, name: Seq<char>) -> Option<SlotsModel> {
    match classify_spec(name) {
        FileKind::Audio => Some(SlotsModel { audio: Some(name), ..sl }),
        FileKind::Image => Some(SlotsModel { image: Some(name), ..sl }),
        FileKind::Unsupported => None,
    }
}

/// Decides where one incoming part belongs. On success the filename is
/// recorded in the slot of its kind and the caller streams the part's
/// bytes into the returned directory; an unsupported extension rejects the
/// whole upload and leaves the slots unchanged.
pub fn route_part(slots: &mut IngestSlots, filename: &str) -> (r: Result<PartRoute, IngestError>)
    ensures
        match r {
            Ok(PartRoute::AudioDir) => classify_spec(filename@) == FileKind::Audio && Some(
                final(slots)@,
            ) == route_model(old(slots)@, filename@),
            Ok(PartRoute::ImageDir) => classify_spec(filename@) == FileKind::Image && Some(
                final(slots)@,
            ) == route_model(old(slots)@, filename@),
            Err(IngestError::UnsupportedFileType) => classify_spec(filename@)
                == FileKind::Unsupported && final(slots)@ == old(slots)@,
            Err(_) => false,
        },
{
    match classify_filename(filename) {
        FileKind::Audio => {
            slots.audio = Some(filename.to_owned());
            Ok(PartRoute::AudioDir)
        },
        FileKind::Image => {
            slots.image = Some(filename.to_owned());
            Ok(PartRoute::ImageDir)
        },
        FileKind::Unsupported => Err(IngestError::UnsupportedFileType),
    }
}

/// The slots after a whole sequence of parts, oldest first; `None` when
/// some part's extension is unsupported, which rejects the upload
/// wherever in the stream it stands.
pub open spec fn scan_model(names: Seq<Seq<char>>) -> Option<SlotsModel>
    decreases names.len(),
{
    if names.len() == 0 {
        Some(empty_slots())
    } else {
        match scan_model(names.drop_last()) {
            Some(sl) => route_model(sl, names.last()),
            None => None,
        }
    }
}

/// Once some prefix of the parts is rejected, the whole stream is.
proof fn lemma_scan_none_extends(names: Seq<Seq<char>>, k: int)
    requires
        0 <= k <= names.len(),
        scan_model(names.take(k)) is None,
    ensures
        scan_model(names) is None,
    decreases names.len() - k,
{
    if k == names.len() {
        assert(names.take(k) =~= names);
    } else {
        assert(names.take(k + 1).drop_last() =~= names.take(k));
        assert(scan_model(names.take(k + 1)) is None);
        lemma_scan_none_extends(names, k + 1);
    }
}

/// Runs the routing decision over a whole list of part filenames.
pub fn scan_parts(part_names: &Vec<String>) -> (r: Result<IngestSlots, IngestError>)
    ensures
        match r {
            Ok(slots) => scan_model(part_names.deep_view()) == Some(slots@),
            Err(IngestError::UnsupportedFileType) => scan_model(part_names.deep_view()) is None,
            Err(_) => false,
        },
{
    let ghost nv = part_names.deep_view();
    let mut slots = IngestSlots::new();
    let n = part_names.len();
    proof {
        assert(nv.take(0) =~= Seq::<Seq<char>>::empty());
    }
    for i in 0..n
        invariant
            n == part_names@.len(),
            nv == part_names.deep_view(),
            scan_model(nv.take(i as int)) == Some(slots@),
    {
        let ghost before = slots@;
        let r = route_part(&mut slots, part_names[i].as_str());
        proof {
            assert(nv[i as int] == part_names@[i as int]@);
            assert(nv.take(i + 1).drop_last() =~= nv.take(i as int));
            assert(nv.take(i + 1).last() == nv[i as int]);
        }
        if let Err(e) = r {
            proof {
                assert(scan_model(nv.take(i + 1)) is None);
                lemma_scan_none_extends(nv, i + 1);
            }
            return Err(e);
        }
    }
    proof {
        assert(nv.take(n as int) =~= nv);
    }
    Ok(slots)
}

/// The finalize decision over completed slots: what the catalog becomes
/// and what the caller is told. An upload missing a part is a client
/// fault; a zero duration probe and a store conflict are server faults.
pub open spec fn commit_model(m: CatalogModel, sl: SlotsModel, duration_seconds: u64) -> (
    CatalogModel,
    Result<u64, IngestError>,
) {
    match (sl.audio, sl.image) {
        (Some(audio), Some(image)) => {
            if duration_seconds == 0 {
                (m, Err(IngestError::UnknownDuration))
            } else if m.has_track_named(audio) {
                (m, Err(IngestError::Store(StoreError::NameTaken)))
            } else if m.next_id == u64::MAX {
                (m, Err(IngestError::Store(StoreError::IdsExhausted)))
            } else {
                (m.with_track_inserted(audio, duration_seconds, Some(image)), Ok(m.next_id))
            }
        },
        _ => (m, Err(IngestError::MissingPart)),
    }
}

/// Finalizes an upload: with both slots filled and a positive probed
/// duration, commits exactly one track row whose external name is the
/// audio filename and whose image is set; otherwise rejects and leaves
/// the catalog unchanged.
pub fn commit_ingest(catalog: &mut Catalog, slots: IngestSlots, duration_seconds: u64) -> (r:
    Result<u64, IngestError>)
    requires
        old(catalog)@.wf(),
    ensures
        final(catalog)@.wf(),
        final(catalog)@ == commit_model(old(catalog)@, slots@, duration_seconds).0,
        r == commit_model(old(catalog)@, slots@, duration_seconds).1,
{
    let IngestSlots { audio, image } = slots;
    let audio_name = match audio {
        Some(a) => a,
        None => {
            return Err(IngestError::MissingPart);
        },
    };
    let image_name = match image {
        Some(im) => im,
        None => {
            return Err(IngestError::MissingPart);
        },
    };
    if duration_seconds == 0 {
        return Err(IngestError::UnknownDuration);
    }
    match catalog.create_track(audio_name, duration_seconds, Some(image_name)) {
        Ok(id) => Ok(id),
        Err(e) => Err(IngestError::Store(e)),
    }
}

/// The whole ingestion decision over a finished upload: the slots the
/// parts produce, then the finalize decision.
pub open spec fn ingest_model(m: CatalogModel, names: Seq<Seq<char>>, duration_seconds: u64) -> (
    CatalogModel,
    Result<u64, IngestError>,
) {
    match scan_model(names) {
        None => (m, Err(IngestError::UnsupportedFileType)),
        Some(sl) => commit_model(m, sl, duration_seconds),
    }
}

/// Applies the complete ingestion decision: routes every part name, then
/// finalizes against the probed duration of the saved audio. A rejection,
/// whatever its cause, commits no row and leaves the catalog unchanged;
/// success commits exactly one.
pub fn ingest(catalog: &mut Catalog, part_names: &Vec<String>, duration_seconds: u64) -> (r:
    Result<u64, IngestError>)
    requires
        old(catalog)@.wf(),
    ensures
        final(catalog)@.wf(),
        final(catalog)@ == ingest_model(old(catalog)@, part_names.deep_view(), duration_seconds).0,
        r == ingest_model(old(catalog)@, part_names.deep_view(), duration_seconds).1,
{
    let slots = match scan_parts(part_names) {
        Ok(s) => s,
        Err(e) => {
            return Err(e);
        },
    };
    commit_ingest(catalog, slots, duration_seconds)
}

/// Law: an upload whose parts produce a filled audio slot and a filled
/// image slot, whose probed duration is positive and whose commit the
/// store accepts, yields exactly one new track row: it carries that
/// duration and a stored image name, the rows already present stay as
/// they were, and playlists and users are untouched.
pub proof fn lemma_ingest_success_adds_one_row(
    m: CatalogModel,
    names: Seq<Seq<char>>,
    duration_seconds: u64,
)
    requires
        ingest_model(m, names, duration_seconds).1 is Ok,
    ensures
        ({
            let committed = ingest_model(m, names, duration_seconds).0;
            &&& duration_seconds > 0
            &&& committed.tracks.len() == m.tracks.len() + 1
            &&& committed.tracks.last().duration_seconds == duration_seconds
            &&& committed.tracks.last().image_name is Some
            &&& committed.tracks.take(m.tracks.len() as int) == m.tracks
            &&& committed.playlists == m.playlists
            &&& committed.users == m.users
        }),
{
    let committed = ingest_model(m, names, duration_seconds).0;
    assert(committed.tracks.take(m.tracks.len() as int) =~= m.tracks);
}

/// Law: an upload holding a part whose filename extension is unsupported
/// is rejected as a client fault, and no track row is created: the
/// catalog comes out exactly as it went in.
pub proof fn lemma_ingest_unsupported_rejected(
    m: CatalogModel,
    names: Seq<Seq<char>>,
    duration_seconds: u64,
    i: int,
)
    requires
        0 <= i < names.len(),
        classify_spec(names[i]) == FileKind::Unsupported,
    ensures
        ingest_model(m, names, duration_seconds).0 == m,
        ingest_model(m, names, duration_seconds).1 == Err::<u64, IngestError>(
            IngestError::UnsupportedFileType,
        ),
        IngestError::UnsupportedFileType.http_status_spec() == 400,
{
    assert(names.take(i + 1).drop_last() =~= names.take(i));
    assert(names.take(i + 1).last() == names[i]);
    assert(scan_model(names.take(i + 1)) is None);
    lemma_scan_none_extends(names, i + 1);
}

/// Law: an upload that ends without both an audio part and an image part
/// is rejected as a client fault, and no track row is created.
pub proof fn lemma_ingest_missing_part_rejected(
    m: CatalogModel,
    names: Seq<Seq<char>>,
    duration_seconds: u64,
)
    requires
        scan_model(names) matches Some(sl) && (sl.audio is None || sl.image is None),
    ensures
        ingest_model(m, names, duration_seconds).0 == m,
        ingest_model(m, names, duration_seconds).1 == Err::<u64, IngestError>(
            IngestError::MissingPart,
        ),
        IngestError::MissingPart.http_status_spec() == 400,
{
}

/// The path of a stored part: the storage directory, already carrying its
/// trailing separator, followed by the part's filename verbatim.
pub fn storage_path(dir: &str, filename: &str) -> (p: String)
    ensures
        p@ == dir@ + filename@,
{
    let mut p = dir.to_owned();
    p.append(filename);
    p
}

} // verus!
