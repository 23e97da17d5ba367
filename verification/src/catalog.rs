//! The catalog store: tracks, playlists and users, held in memory with a
//! well-formedness invariant that every operation preserves.
//!
//! A playlist's `track_count` is denormalized: the invariant ties it to the
//! number of tracks whose `playlist_id` names that playlist, and the
//! membership mutations update the track and the counter together, so the
//! two can never drift apart.

use vstd::prelude::*;

verus! {

/// One audio entry of the catalog. `external_name` is both the storage
/// filename and the public identifier; it is unique across the catalog.
#[derive(Debug)]
pub struct Track {
    pub id: u64,
    pub external_name: String,
    pub duration_seconds: u64,
    pub image_name: Option<String>,
    pub playlist_id: Option<u64>,
}

/// A named, user-owned bucket of tracks with a maintained member count.
#[derive(Debug)]
pub struct Playlist {
    pub id: u64,
    pub name: String,
    pub creator_id: u64,
    pub track_count: u64,
}

/// An account row. The password is stored and compared verbatim; that is
/// the service's stated contract, not a recommendation.
#[derive(Debug)]
pub struct User {
    pub id: u64,
    pub username: String,
    pub password: String,
}

/// The mathematical image of a `Track`.
#[verifier::ext_equal]
pub ghost struct TrackModel {
    pub id: u64,
    pub external_name: Seq<char>,
    pub duration_seconds: u64,
    pub image_name: Option<Seq<char>>,
    pub playlist_id: Option<u64>,
}

/// The mathematical image of a `Playlist`.
#[verifier::ext_equal]
pub ghost struct PlaylistModel {
    pub id: u64,
    pub name: Seq<char>,
    pub creator_id: u64,
    pub track_count: u64,
}

/// The mathematical image of a `User`.
#[verifier::ext_equal]
pub ghost struct UserModel {
    pub id: u64,
    pub username: Seq<char>,
    pub password: Seq<char>,
}

impl View for Track {
    type V = TrackModel;

    open spec fn view(&self) -> TrackModel {
        TrackModel {
            id: self.id,
            external_name: self.external_name@,
            duration_seconds: self.duration_seconds,
            image_name: self.image_name.deep_view(),
            playlist_id: self.playlist_id,
        }
    }
}

impl View for Playlist {
    type V = PlaylistModel;

    open spec fn view(&self) -> PlaylistModel {
        PlaylistModel {
            id: self.id,
            name: self.name@,
            creator_id: self.creator_id,
            track_count: self.track_count,
        }
    }
}

impl View for User {
    type V = UserModel;

    open spec fn view(&self) -> UserModel {
        UserModel { id: self.id, username: self.username@, password: self.password@ }
    }
}

/// Why a store operation failed. Every variant maps to an internal-error
/// response; the store never panics and never reports a partial change.
#[derive(Debug, PartialEq, Eq, Structural)]
pub enum StoreError {
    /// A track with the requested external name already exists.
    NameTaken,
    /// A user with the requested username already exists.
    UsernameTaken,
    /// The track named by an id does not exist.
    NoSuchTrack,
    /// The playlist named by an id does not exist.
    NoSuchPlaylist,
    /// The track is not attached to the named playlist.
    NotAttached,
    /// The id generator is exhausted.
    IdsExhausted,
}

impl StoreError {
    /// Every store failure, whatever its cause, is a server fault.
    pub fn http_status(&self) -> (s: u16)
        ensures
            s == 500,
    {
        500
    }
}

/// How many tracks of `tracks` are attached to the playlist with id `pid`.
pub open spec fn playlist_track_count(tracks: Seq<TrackModel>, pid: u64) -> nat
    decreases tracks.len(),
{
    if tracks.len() == 0 {
        0
    } else {
        playlist_track_count(tracks.drop_last(), pid) + (if tracks.last().playlist_id == Some(
            pid,
        ) {
            1nat
        } else {
            0nat
        })
    }
}

/// The mathematical image of the whole store.
#[verifier::ext_equal]
pub ghost struct CatalogModel {
    pub tracks: Seq<TrackModel>,
    pub playlists: Seq<PlaylistModel>,
    pub users: Seq<UserModel>,
    pub next_id: u64,
}

impl CatalogModel {
    /// Track ids and external names are unique, and ids are below the
    /// generator's next value.
    pub open spec fn tracks_wf(self) -> bool {
        &&& forall|i: int, j: int|
            0 <= i < j < self.tracks.len() ==> #[trigger] self.tracks[i].id
                != #[trigger] self.tracks[j].id
        &&& forall|i: int, j: int|
            0 <= i < j < self.tracks.len() ==> #[trigger] self.tracks[i].external_name
                != #[trigger] self.tracks[j].external_name
        &&& forall|i: int|
            0 <= i < self.tracks.len() ==> #[trigger] self.tracks[i].id < self.next_id
        &&& forall|i: int|
            0 <= i < self.tracks.len() ==> match #[trigger] self.tracks[i].playlist_id {
                Some(q) => q < self.next_id,
                None => true,
            }
    }

    /// Playlist ids are unique and below the generator's next value, and
    /// every stored member count agrees with the tracks that point here.
    pub open spec fn playlists_wf(self) -> bool {
        &&& forall|i: int, j: int|
            0 <= i < j < self.playlists.len() ==> #[trigger] self.playlists[i].id
                != #[trigger] self.playlists[j].id
        &&& forall|i: int|
            0 <= i < self.playlists.len() ==> #[trigger] self.playlists[i].id < self.next_id
        &&& forall|i: int|
            0 <= i < self.playlists.len() ==> #[trigger] self.playlists[i].track_count
                == playlist_track_count(self.tracks, self.playlists[i].id)
    }

    /// User ids and usernames are unique, and ids are below the generator's
    /// next value.
    pub open spec fn users_wf(self) -> bool {
        &&& forall|i: int, j: int|
            0 <= i < j < self.users.len() ==> #[trigger] self.users[i].id
                != #[trigger] self.users[j].id
        &&& forall|i: int, j: int|
            0 <= i < j < self.users.len() ==> #[trigger] self.users[i].username
                != #[trigger] self.users[j].username
        &&& forall|i: int| 0 <= i < self.users.len() ==> #[trigger] self.users[i].id < self.next_id
    }

    /// The store's full invariant.
    pub open spec fn wf(self) -> bool {
        self.tracks_wf() && self.playlists_wf() && self.users_wf()
    }

    pub open spec fn has_track(self, track_id: u64) -> bool {
        exists|i: int| 0 <= i < self.tracks.len() && #[trigger] self.tracks[i].id == track_id
    }

    pub open spec fn track_index_of(self, track_id: u64) -> int {
        choose|i: int| 0 <= i < self.tracks.len() && #[trigger] self.tracks[i].id == track_id
    }

    pub open spec fn has_track_named(self, name: Seq<char>) -> bool {
        exists|i: int|
            0 <= i < self.tracks.len() && #[trigger] self.tracks[i].external_name == name
    }

    pub open spec fn track_index_named(self, name: Seq<char>) -> int {
        choose|i: int|
            0 <= i < self.tracks.len() && #[trigger] self.tracks[i].external_name == name
    }

    pub open spec fn has_playlist(self, playlist_id: u64) -> bool {
        seq_has_playlist(self.playlists, playlist_id)
    }

    pub open spec fn playlist_index_of(self, playlist_id: u64) -> int {
        seq_playlist_index_of(self.playlists, playlist_id)
    }

    pub open spec fn has_username(self, username: Seq<char>) -> bool {
        exists|i: int| 0 <= i < self.users.len() && #[trigger] self.users[i].username == username
    }

    pub open spec fn user_index_named(self, username: Seq<char>) -> int {
        choose|i: int| 0 <= i < self.users.len() && #[trigger] self.users[i].username == username
    }

    /// Some stored account carries exactly this username and this password.
    pub open spec fn credentials_match(self, username: Seq<char>, password: Seq<char>) -> bool {
        exists|i: int|
            0 <= i < self.users.len() && #[trigger] self.users[i].username == username
                && self.users[i].password == password
    }

    /// The store after a fresh account row is inserted.
    pub open spec fn with_user_inserted(self, username: Seq<char>, password: Seq<char>) -> CatalogModel {
        CatalogModel {
            users: self.users.push(UserModel { id: self.next_id, username, password }),
            next_id: (self.next_id + 1) as u64,
            ..self
        }
    }

    /// The store after a fresh playlist row is inserted, with an empty
    /// member count.
    pub open spec fn with_playlist_inserted(self, name: Seq<char>, creator_id: u64) -> CatalogModel {
        CatalogModel {
            playlists: self.playlists.push(
                PlaylistModel { id: self.next_id, name, creator_id, track_count: 0 },
            ),
            next_id: (self.next_id + 1) as u64,
            ..self
        }
    }

    /// The store after the playlist row with id `playlist_id` is removed.
    /// Tracks that pointed at it keep their dangling reference; the
    /// relationship is not enforced referentially.
    pub open spec fn with_playlist_deleted(self, playlist_id: u64) -> CatalogModel {
        if self.has_playlist(playlist_id) {
            CatalogModel {
                playlists: self.playlists.remove(self.playlist_index_of(playlist_id)),
                ..self
            }
        } else {
            self
        }
    }

    /// The store after the track with id `track_id` is attached to the
    /// playlist with id `playlist_id`: the track's reference is set and the
    /// target's member count rises by one; a previous membership is
    /// released first, its playlist's count falling by one.
    pub open spec fn with_track_attached(self, track_id: u64, playlist_id: u64) -> CatalogModel {
        let ti = self.track_index_of(track_id);
        let t = self.tracks[ti];
        let released = match t.playlist_id {
            Some(q) => bump_track_count(self.playlists, q, -1),
            None => self.playlists,
        };
        CatalogModel {
            tracks: self.tracks.update(ti, TrackModel { playlist_id: Some(playlist_id), ..t }),
            playlists: bump_track_count(released, playlist_id, 1),
            ..self
        }
    }

    /// The store after the track with id `track_id` leaves its playlist:
    /// the reference is cleared and that playlist's member count falls by
    /// one, in one step.
    pub open spec fn with_track_detached(self, track_id: u64) -> CatalogModel {
        let ti = self.track_index_of(track_id);
        let t = self.tracks[ti];
        let released = match t.playlist_id {
            Some(q) => bump_track_count(self.playlists, q, -1),
            None => self.playlists,
        };
        CatalogModel {
            tracks: self.tracks.update(ti, TrackModel { playlist_id: None, ..t }),
            playlists: released,
            ..self
        }
    }

    /// The store after the track named `name`, if present, is removed; a
    /// playlist it belonged to loses one from its member count.
    pub open spec fn with_track_deleted(self, name: Seq<char>) -> CatalogModel {
        if self.has_track_named(name) {
            let ti = self.track_index_named(name);
            let t = self.tracks[ti];
            let released = match t.playlist_id {
                Some(q) => bump_track_count(self.playlists, q, -1),
                None => self.playlists,
            };
            CatalogModel { tracks: self.tracks.remove(ti), playlists: released, ..self }
        } else {
            self
        }
    }

    /// The store after a fresh track row is inserted.
    pub open spec fn with_track_inserted(
        self,
        name: Seq<char>,
        duration_seconds: u64,
        image_name: Option<Seq<char>>,
    ) -> CatalogModel {
        CatalogModel {
            tracks: self.tracks.push(
                TrackModel {
                    id: self.next_id,
                    external_name: name,
                    duration_seconds,
                    image_name,
                    playlist_id: None,
                },
            ),
            next_id: (self.next_id + 1) as u64,
            ..self
        }
    }
}

/// `playlist_track_count` never exceeds the number of tracks.
proof fn lemma_count_le_len(tracks: Seq<TrackModel>, pid: u64)
    ensures
        playlist_track_count(tracks, pid) <= tracks.len(),
    decreases tracks.len(),
{
    if tracks.len() > 0 {
        lemma_count_le_len(tracks.drop_last(), pid);
    }
}

/// Appending a track adds its membership indicator to every count.
proof fn lemma_count_push(tracks: Seq<TrackModel>, t: TrackModel, pid: u64)
    ensures
        playlist_track_count(tracks.push(t), pid) == playlist_track_count(tracks, pid) + (
        if t.playlist_id == Some(pid) {
            1nat
        } else {
            0nat
        }),
{
    assert(tracks.push(t).drop_last() =~= tracks);
    assert(tracks.push(t).last() == t);
}

/// Replacing the track at `i` moves every count by the difference of the
/// two membership indicators.
proof fn lemma_count_update(tracks: Seq<TrackModel>, i: int, t: TrackModel, pid: u64)
    requires
        0 <= i < tracks.len(),
    ensures
        playlist_track_count(tracks.update(i, t), pid) == playlist_track_count(tracks, pid) + (
        if t.playlist_id == Some(pid) {
            1int
        } else {
            0int
        }) - (if tracks[i].playlist_id == Some(pid) {
            1int
        } else {
            0int
        }),
    decreases tracks.len(),
{
    let u = tracks.update(i, t);
    if i == tracks.len() - 1 {
        assert(u.drop_last() =~= tracks.drop_last());
        assert(u.last() == t);
    } else {
        assert(u.drop_last() =~= tracks.drop_last().update(i, t));
        assert(u.last() == tracks.last());
        lemma_count_update(tracks.drop_last(), i, t, pid);
    }
}

/// Removing the track at `i` subtracts its membership indicator from every
/// count.
proof fn lemma_count_remove(tracks: Seq<TrackModel>, i: int, pid: u64)
    requires
        0 <= i < tracks.len(),
    ensures
        playlist_track_count(tracks.remove(i), pid) == playlist_track_count(tracks, pid) - (
        if tracks[i].playlist_id == Some(pid) {
            1int
        } else {
            0int
        }),
    decreases tracks.len(),
{
    let u = tracks.remove(i);
    if i == tracks.len() - 1 {
        assert(u =~= tracks.drop_last());
    } else {
        assert(u.drop_last() =~= tracks.drop_last().remove(i));
        assert(u.last() == tracks.last());
        lemma_count_remove(tracks.drop_last(), i, pid);
    }
}

/// A playlist id that no track points to has a zero count.
proof fn lemma_count_absent(tracks: Seq<TrackModel>, pid: u64)
    requires
        forall|i: int| 0 <= i < tracks.len() ==> #[trigger] tracks[i].playlist_id != Some(pid),
    ensures
        playlist_track_count(tracks, pid) == 0,
    decreases tracks.len(),
{
    if tracks.len() > 0 {
        lemma_count_absent(tracks.drop_last(), pid);
    }
}

/// A track attached to `pid` makes the count of `pid` positive.
proof fn lemma_count_positive(tracks: Seq<TrackModel>, i: int, pid: u64)
    requires
        0 <= i < tracks.len(),
        tracks[i].playlist_id == Some(pid),
    ensures
        playlist_track_count(tracks, pid) >= 1,
    decreases tracks.len(),
{
    if i == tracks.len() - 1 {
    } else {
        lemma_count_positive(tracks.drop_last(), i, pid);
    }
}

pub open spec fn seq_has_playlist(playlists: Seq<PlaylistModel>, pid: u64) -> bool {
    exists|j: int| 0 <= j < playlists.len() && #[trigger] playlists[j].id == pid
}

pub open spec fn seq_playlist_index_of(playlists: Seq<PlaylistModel>, pid: u64) -> int {
    choose|j: int| 0 <= j < playlists.len() && #[trigger] playlists[j].id == pid
}

/// The playlist rows after the member count of the playlist with id `pid`,
/// if it exists, moves by `delta`.
pub open spec fn bump_track_count(
    playlists: Seq<PlaylistModel>,
    pid: u64,
    delta: int,
) -> Seq<PlaylistModel> {
    if seq_has_playlist(playlists, pid) {
        let j = seq_playlist_index_of(playlists, pid);
        let p = playlists[j];
        playlists.update(
            j,
            PlaylistModel { track_count: (p.track_count + delta) as u64, ..p },
        )
    } else {
        playlists
    }
}

/// With unique playlist ids, the chosen index of an id is the one index
/// that carries it.
proof fn lemma_seq_playlist_index(playlists: Seq<PlaylistModel>, j: int, pid: u64)
    requires
        forall|a: int, b: int|
            0 <= a < b < playlists.len() ==> #[trigger] playlists[a].id != #[trigger] playlists[b].id,
        0 <= j < playlists.len(),
        playlists[j].id == pid,
    ensures
        seq_has_playlist(playlists, pid),
        seq_playlist_index_of(playlists, pid) == j,
{
    assert(seq_has_playlist(playlists, pid));
    let k = seq_playlist_index_of(playlists, pid);
    assert(0 <= k < playlists.len() && playlists[k].id == pid);
    if k < j {
        assert(playlists[k].id != playlists[j].id);
    } else if j < k {
        assert(playlists[j].id != playlists[k].id);
    }
}

/// With unique track ids, the chosen index of an id is the one index that
/// carries it.
proof fn lemma_track_index(m: CatalogModel, i: int, track_id: u64)
    requires
        m.tracks_wf(),
        0 <= i < m.tracks.len(),
        m.tracks[i].id == track_id,
    ensures
        m.has_track(track_id),
        m.track_index_of(track_id) == i,
{
    assert(m.has_track(track_id));
    let k = m.track_index_of(track_id);
    assert(0 <= k < m.tracks.len() && m.tracks[k].id == track_id);
    if k < i {
        assert(m.tracks[k].id != m.tracks[i].id);
    } else if i < k {
        assert(m.tracks[i].id != m.tracks[k].id);
    }
}

/// With unique external names, the chosen index of a name is the one index
/// that carries it.
proof fn lemma_track_named_index(m: CatalogModel, i: int, name: Seq<char>)
    requires
        m.tracks_wf(),
        0 <= i < m.tracks.len(),
        m.tracks[i].external_name == name,
    ensures
        m.has_track_named(name),
        m.track_index_named(name) == i,
{
    assert(m.has_track_named(name));
    let k = m.track_index_named(name);
    assert(0 <= k < m.tracks.len() && m.tracks[k].external_name == name);
    if k < i {
        assert(m.tracks[k].external_name != m.tracks[i].external_name);
    } else if i < k {
        assert(m.tracks[i].external_name != m.tracks[k].external_name);
    }
}

/// With unique usernames, the chosen index of a username is the one index
/// that carries it.
proof fn lemma_user_named_index(m: CatalogModel, i: int, username: Seq<char>)
    requires
        m.users_wf(),
        0 <= i < m.users.len(),
        m.users[i].username == username,
    ensures
        m.has_username(username),
        m.user_index_named(username) == i,
{
    assert(m.has_username(username));
    let k = m.user_index_named(username);
    assert(0 <= k < m.users.len() && m.users[k].username == username);
    if k < i {
        assert(m.users[k].username != m.users[i].username);
    } else if i < k {
        assert(m.users[i].username != m.users[k].username);
    }
}

/// The tracks of `tracks` that belong to the playlist with id `pid`, in
/// stored order.
pub open spec fn tracks_in_playlist(tracks: Seq<TrackModel>, pid: u64) -> Seq<TrackModel>
    decreases tracks.len(),
{
    if tracks.len() == 0 {
        Seq::empty()
    } else {
        let rest = tracks_in_playlist(tracks.drop_last(), pid);
        if tracks.last().playlist_id == Some(pid) {
            rest.push(tracks.last())
        } else {
            rest
        }
    }
}

/// The playlists of `playlists` whose creator passes the filter, in stored
/// order; `None` keeps them all.
pub open spec fn playlists_of_creator(
    playlists: Seq<PlaylistModel>,
    creator_id: Option<u64>,
) -> Seq<PlaylistModel>
    decreases playlists.len(),
{
    if playlists.len() == 0 {
        Seq::empty()
    } else {
        let rest = playlists_of_creator(playlists.drop_last(), creator_id);
        let keep = match creator_id {
            Some(c) => playlists.last().creator_id == c,
            None => true,
        };
        if keep {
            rest.push(playlists.last())
        } else {
            rest
        }
    }
}

/// The models of a borrowed track row sequence.
pub open spec fn view_of_tracks(ts: Seq<&Track>) -> Seq<TrackModel> {
    ts.map_values(|t: &Track| t@)
}

/// The models of a borrowed playlist row sequence.
pub open spec fn view_of_playlists(ps: Seq<&Playlist>) -> Seq<PlaylistModel> {
    ps.map_values(|p: &Playlist| p@)
}

/// The in-memory catalog store. Constructed empty once at process start and
/// handed to each request handler; every operation keeps the invariant
/// `self@.wf()`.
pub struct Catalog {
    tracks: Vec<Track>,
    playlists: Vec<Playlist>,
    users: Vec<User>,
    next_id: u64,
}

impl View for Catalog {
    type V = CatalogModel;

    closed spec fn view(&self) -> CatalogModel {
        CatalogModel {
            tracks: self.tracks@.map_values(|t: Track| t@),
            playlists: self.playlists@.map_values(|p: Playlist| p@),
            users: self.users@.map_values(|u: User| u@),
            next_id: self.next_id,
        }
    }
}

impl Catalog {
    /// A fresh, empty store. Generated ids start at 1.
    pub fn new() -> (c: Catalog)
        ensures
            c@.wf(),
            c@.tracks == Seq::<TrackModel>::empty(),
            c@.playlists == Seq::<PlaylistModel>::empty(),
            c@.users == Seq::<UserModel>::empty(),
            c@.next_id == 1u64,
    {
        let c = Catalog { tracks: Vec::new(), playlists: Vec::new(), users: Vec::new(), next_id: 1 };
        proof {
            assert(c@.tracks =~= Seq::<TrackModel>::empty());
            assert(c@.playlists =~= Seq::<PlaylistModel>::empty());
            assert(c@.users =~= Seq::<UserModel>::empty());
        }
        c
    }

    /// The stored tracks, oldest first.
    pub fn tracks(&self) -> (r: &Vec<Track>)
        ensures
            r@.len() == self@.tracks.len(),
            forall|i: int| 0 <= i < r@.len() ==> #[trigger] r@[i]@ == self@.tracks[i],
    {
        &self.tracks
    }

    fn find_track_by_id(&self, track_id: u64) -> (r: Option<usize>)
        ensures
            match r {
                Some(i) => i < self@.tracks.len() && self@.tracks[i as int].id == track_id,
                None => !self@.has_track(track_id),
            },
    {
        let n = self.tracks.len();
        for i in 0..n
            invariant
                n == self@.tracks.len(),
                forall|k: int| 0 <= k < i ==> #[trigger] self@.tracks[k].id != track_id,
        {
            if self.tracks[i].id == track_id {
                return Some(i);
            }
        }
        None
    }

    fn find_track_by_name(&self, external_name: &String) -> (r: Option<usize>)
        ensures
            match r {
                Some(i) => i < self@.tracks.len() && self@.tracks[i as int].external_name
                    == external_name@,
                None => !self@.has_track_named(external_name@),
            },
    {
        let n = self.tracks.len();
        for i in 0..n
            invariant
                n == self@.tracks.len(),
                forall|k: int|
                    0 <= k < i ==> #[trigger] self@.tracks[k].external_name != external_name@,
        {
            if self.tracks[i].external_name == *external_name {
                return Some(i);
            }
        }
        None
    }

    /// Inserts one track row with a fresh id, no playlist membership, and
    /// the given fields; this is the row the ingestion workflow commits.
    /// Fails exactly when the external name is already present (the store's
    /// uniqueness constraint) or the id generator is exhausted.
    pub fn create_track(
        &mut self,
        external_name: String,
        duration_seconds: u64,
        image_name: Option<String>,
    ) -> (r: Result<u64, StoreError>)
        requires
            old(self)@.wf(),
        ensures
            final(self)@.wf(),
            match r {
                Ok(id) => !old(self)@.has_track_named(external_name@)
                    && old(self)@.next_id < u64::MAX
                    && id == old(self)@.next_id
                    && final(self)@ == old(self)@.with_track_inserted(external_name@, duration_seconds, image_name.deep_view()),
                Err(StoreError::NameTaken) => old(self)@.has_track_named(external_name@)
                    && final(self)@ == old(self)@,
                Err(StoreError::IdsExhausted) => !old(self)@.has_track_named(external_name@)
                    && old(self)@.next_id == u64::MAX
                    && final(self)@ == old(self)@,
                Err(_) => false,
            },
    {
        if self.find_track_by_name(&external_name).is_some() {
            return Err(StoreError::NameTaken);
        }
        if self.next_id == u64::MAX {
            return Err(StoreError::IdsExhausted);
        }
        let ghost pre = self@;
        let id = self.next_id;
        let track = Track {
            id,
            external_name,
            duration_seconds,
            image_name,
            playlist_id: None,
        };
        let ghost tm = track@;
        self.tracks.push(track);
        self.next_id = id + 1;
        proof {
            assert(self@.tracks =~= pre.tracks.push(tm));
            assert(self@ =~= pre.with_track_inserted(
                tm.external_name,
                duration_seconds,
                tm.image_name,
            ));
            assert forall|k: int|
                0 <= k < self@.playlists.len() implies #[trigger] self@.playlists[k].track_count
                == playlist_track_count(self@.tracks, self@.playlists[k].id) by {
                lemma_count_push(pre.tracks, tm, self@.playlists[k].id);
            }
        }
        Ok(id)
    }

    fn find_playlist_by_id(&self, playlist_id: u64) -> (r: Option<usize>)
        ensures
            match r {
                Some(j) => j < self@.playlists.len() && self@.playlists[j as int].id == playlist_id,
                None => !self@.has_playlist(playlist_id),
            },
    {
        let n = self.playlists.len();
        for j in 0..n
            invariant
                n == self@.playlists.len(),
                forall|k: int| 0 <= k < j ==> #[trigger] self@.playlists[k].id != playlist_id,
        {
            if self.playlists[j].id == playlist_id {
                return Some(j);
            }
        }
        None
    }

    /// Creates a playlist with the given name and creator and a member
    /// count of zero. Fails only when the id generator is exhausted.
    pub fn create_playlist(&mut self, name: String, creator_id: u64) -> (r: Result<
        u64,
        StoreError,
    >)
        requires
            old(self)@.wf(),
        ensures
            final(self)@.wf(),
            match r {
                Ok(id) => old(self)@.next_id < u64::MAX && id == old(self)@.next_id
                    && final(self)@ == old(self)@.with_playlist_inserted(name@, creator_id),
                Err(StoreError::IdsExhausted) => old(self)@.next_id == u64::MAX
                    && final(self)@ == old(self)@,
                Err(_) => false,
            },
    {
        if self.next_id == u64::MAX {
            return Err(StoreError::IdsExhausted);
        }
        let ghost pre = self@;
        let id = self.next_id;
        let playlist = Playlist { id, name, creator_id, track_count: 0 };
        let ghost pm = playlist@;
        self.playlists.push(playlist);
        self.next_id = id + 1;
        proof {
            assert(self@.playlists =~= pre.playlists.push(pm));
            assert(self@ =~= pre.with_playlist_inserted(pm.name, creator_id));
            lemma_count_absent(self@.tracks, id);
        }
        Ok(id)
    }

    /// Looks a playlist up by id. Returns `None` exactly when no such row
    /// exists.
    pub fn get_playlist(&self, playlist_id: u64) -> (r: Option<&Playlist>)
        requires
            self@.wf(),
        ensures
            match r {
                Some(p) => self@.has_playlist(playlist_id) && p@ == self@.playlists[
                    self@.playlist_index_of(playlist_id)
                ] && p@.id == playlist_id,
                None => !self@.has_playlist(playlist_id),
            },
    {
        match self.find_playlist_by_id(playlist_id) {
            Some(j) => {
                proof {
                    lemma_seq_playlist_index(self@.playlists, j as int, playlist_id);
                }
                Some(&self.playlists[j])
            },
            None => None,
        }
    }

    /// Removes the playlist row with the given id. Deleting an id that is
    /// not present is a no-op and still a success.
    /// Tracks that pointed at the playlist keep their dangling reference.
    pub fn delete_playlist(&mut self, playlist_id: u64)
        requires
            old(self)@.wf(),
        ensures
            final(self)@.wf(),
            final(self)@ == old(self)@.with_playlist_deleted(playlist_id),
    {
        let ghost pre = self@;
        match self.find_playlist_by_id(playlist_id) {
            Some(j) => {
                proof {
                    lemma_seq_playlist_index(pre.playlists, j as int, playlist_id);
                }
                self.playlists.remove(j);
                proof {
                    assert(self@.playlists =~= pre.playlists.remove(j as int));
                    assert(self@ =~= pre.with_playlist_deleted(playlist_id));
                }
            },
            None => {
                proof {
                    assert(self@ =~= pre.with_playlist_deleted(playlist_id));
                }
            },
        }
    }

    /// Attaches a track to a playlist and raises the playlist's member
    /// count in the same step, releasing any previous membership first, so
    /// the stored counts never drift from the tracks. Fails exactly when
    /// the track or the playlist does not exist, and then changes nothing.
    pub fn attach_track_to_playlist(&mut self, track_id: u64, playlist_id: u64) -> (r: Result<
        (),
        StoreError,
    >)
        requires
            old(self)@.wf(),
        ensures
            final(self)@.wf(),
            match r {
                Ok(_) => old(self)@.has_track(track_id) && old(self)@.has_playlist(playlist_id)
                    && final(self)@ == old(self)@.with_track_attached(track_id, playlist_id),
                Err(StoreError::NoSuchTrack) => !old(self)@.has_track(track_id)
                    && final(self)@ == old(self)@,
                Err(StoreError::NoSuchPlaylist) => old(self)@.has_track(track_id)
                    && !old(self)@.has_playlist(playlist_id)
                    && final(self)@ == old(self)@,
                Err(_) => false,
            },
    {
        let ti = match self.find_track_by_id(track_id) {
            Some(i) => i,
            None => {
                return Err(StoreError::NoSuchTrack);
            },
        };
        let pi = match self.find_playlist_by_id(playlist_id) {
            Some(j) => j,
            None => {
                proof {
                    lemma_track_index(self@, ti as int, track_id);
                }
                return Err(StoreError::NoSuchPlaylist);
            },
        };
        let ghost pre = self@;
        proof {
            lemma_track_index(pre, ti as int, track_id);
            lemma_seq_playlist_index(pre.playlists, pi as int, playlist_id);
        }
        let old_fk = self.tracks[ti].playlist_id;
        if let Some(q) = old_fk {
            if let Some(qi) = self.find_playlist_by_id(q) {
                proof {
                    lemma_seq_playlist_index(pre.playlists, qi as int, q);
                    assert(pre.tracks[ti as int].playlist_id == Some(q));
                    lemma_count_positive(pre.tracks, ti as int, q);
                    assert(pre.playlists[qi as int].track_count == playlist_track_count(
                        pre.tracks,
                        q,
                    ));
                }
                let c = self.playlists[qi].track_count;
                self.playlists[qi].track_count = c - 1;
            }
        }
        let ghost released = self@.playlists;
        proof {
            assert(released =~= (match pre.tracks[ti as int].playlist_id {
                Some(q) => bump_track_count(pre.playlists, q, -1),
                None => pre.playlists,
            }));
            assert(forall|k: int|
                0 <= k < released.len() ==> #[trigger] released[k].id == pre.playlists[k].id);
        }
        self.tracks[ti].playlist_id = Some(playlist_id);
        let nt = self.tracks.len();
        let ghost tracks2 = self@.tracks;
        let ghost t2 = tracks2[ti as int];
        proof {
            assert(tracks2 =~= pre.tracks.update(
                ti as int,
                TrackModel { playlist_id: Some(playlist_id), ..pre.tracks[ti as int] },
            ));
            lemma_count_update(pre.tracks, ti as int, t2, playlist_id);
            lemma_count_le_len(tracks2, playlist_id);
            lemma_seq_playlist_index(released, pi as int, playlist_id);
        }
        let c2 = self.playlists[pi].track_count;
        proof {
            assert(nt == tracks2.len());
            assert(pre.playlists[pi as int].track_count == playlist_track_count(
                pre.tracks,
                playlist_id,
            ));
            assert(c2 == released[pi as int].track_count);
            match pre.tracks[ti as int].playlist_id {
                Some(q) => {
                    if q == playlist_id {
                        // the release step lowered the very count we raise
                        assert(released[pi as int].track_count == pre.playlists[pi as int].track_count - 1);
                    } else {
                        if seq_has_playlist(pre.playlists, q) {
                            let qj = seq_playlist_index_of(pre.playlists, q);
                            assert(0 <= qj < pre.playlists.len() && pre.playlists[qj].id == q);
                            assert(qj != pi as int);
                            assert(released[pi as int] == pre.playlists[pi as int]);
                        } else {
                            assert(released[pi as int] == pre.playlists[pi as int]);
                        }
                    }
                },
                None => {
                    assert(released[pi as int] == pre.playlists[pi as int]);
                },
            }
            // the stored value is one below the live count, which the
            // track total bounds
            assert(c2 + 1 == playlist_track_count(tracks2, playlist_id));
            assert(c2 + 1 <= nt);
        }
        self.playlists[pi].track_count = c2 + 1;
        proof {
            assert(self@.playlists =~= bump_track_count(released, playlist_id, 1));
            assert(self@ =~= pre.with_track_attached(track_id, playlist_id));
            assert forall|k: int|
                0 <= k < self@.playlists.len() implies #[trigger] self@.playlists[k].track_count
                == playlist_track_count(self@.tracks, self@.playlists[k].id) by {
                lemma_count_update(pre.tracks, ti as int, t2, self@.playlists[k].id);
            }
            assert(self@.wf());
        }
        Ok(())
    }

    /// Detaches a track from a playlist and lowers the playlist's member
    /// count in the same step. Fails exactly when the track or the
    /// playlist does not exist or the track is not attached to that
    /// playlist, and then changes nothing.
    pub fn detach_track_from_playlist(&mut self, track_id: u64, playlist_id: u64) -> (r: Result<
        (),
        StoreError,
    >)
        requires
            old(self)@.wf(),
        ensures
            final(self)@.wf(),
            match r {
                Ok(_) => old(self)@.has_track(track_id) && old(self)@.has_playlist(playlist_id)
                    && old(self)@.tracks[old(self)@.track_index_of(track_id)].playlist_id == Some(
                    playlist_id,
                ) && final(self)@ == old(self)@.with_track_detached(track_id),
                Err(StoreError::NoSuchTrack) => !old(self)@.has_track(track_id)
                    && final(self)@ == old(self)@,
                Err(StoreError::NoSuchPlaylist) => old(self)@.has_track(track_id)
                    && !old(self)@.has_playlist(playlist_id)
                    && final(self)@ == old(self)@,
                Err(StoreError::NotAttached) => old(self)@.has_track(track_id)
                    && old(self)@.has_playlist(playlist_id)
                    && old(self)@.tracks[old(self)@.track_index_of(track_id)].playlist_id != Some(
                    playlist_id,
                ) && final(self)@ == old(self)@,
                Err(_) => false,
            },
    {
        let ti = match self.find_track_by_id(track_id) {
            Some(i) => i,
            None => {
                return Err(StoreError::NoSuchTrack);
            },
        };
        let pi = match self.find_playlist_by_id(playlist_id) {
            Some(j) => j,
            None => {
                proof {
                    lemma_track_index(self@, ti as int, track_id);
                }
                return Err(StoreError::NoSuchPlaylist);
            },
        };
        let ghost pre = self@;
        proof {
            lemma_track_index(pre, ti as int, track_id);
            lemma_seq_playlist_index(pre.playlists, pi as int, playlist_id);
        }
        let attached = match self.tracks[ti].playlist_id {
            Some(q) => q == playlist_id,
            None => false,
        };
        if !attached {
            return Err(StoreError::NotAttached);
        }
        proof {
            assert(pre.tracks[ti as int].playlist_id == Some(playlist_id));
            lemma_count_positive(pre.tracks, ti as int, playlist_id);
            assert(pre.playlists[pi as int].track_count == playlist_track_count(
                pre.tracks,
                playlist_id,
            ));
        }
        let c = self.playlists[pi].track_count;
        self.playlists[pi].track_count = c - 1;
        self.tracks[ti].playlist_id = None;
        let ghost t2 = self@.tracks[ti as int];
        proof {
            assert(self@.tracks =~= pre.tracks.update(
                ti as int,
                TrackModel { playlist_id: None, ..pre.tracks[ti as int] },
            ));
            assert(self@.playlists =~= bump_track_count(pre.playlists, playlist_id, -1));
            assert(self@ =~= pre.with_track_detached(track_id));
            assert forall|k: int|
                0 <= k < self@.playlists.len() implies #[trigger] self@.playlists[k].track_count
                == playlist_track_count(self@.tracks, self@.playlists[k].id) by {
                lemma_count_update(pre.tracks, ti as int, t2, self@.playlists[k].id);
            }
            assert(self@.wf());
        }
        Ok(())
    }

    /// Removes the track row with the given external name, lowering the
    /// member count of a playlist it belonged to in the same step.
    /// Deleting a name that is not present is a no-op and still a
    /// success.
    pub fn delete_track(&mut self, external_name: &str)
        requires
            old(self)@.wf(),
        ensures
            final(self)@.wf(),
            final(self)@ == old(self)@.with_track_deleted(external_name@),
    {
        let owned: String = external_name.to_owned();
        let ghost pre = self@;
        let ti = match self.find_track_by_name(&owned) {
            Some(i) => i,
            None => {
                return ;
            },
        };
        proof {
            lemma_track_named_index(pre, ti as int, external_name@);
        }
        let old_fk = self.tracks[ti].playlist_id;
        if let Some(q) = old_fk {
            if let Some(qi) = self.find_playlist_by_id(q) {
                proof {
                    lemma_seq_playlist_index(pre.playlists, qi as int, q);
                    assert(pre.tracks[ti as int].playlist_id == Some(q));
                    lemma_count_positive(pre.tracks, ti as int, q);
                    assert(pre.playlists[qi as int].track_count == playlist_track_count(
                        pre.tracks,
                        q,
                    ));
                }
                let c = self.playlists[qi].track_count;
                self.playlists[qi].track_count = c - 1;
            }
        }
        let ghost released = self@.playlists;
        proof {
            assert(released =~= (match pre.tracks[ti as int].playlist_id {
                Some(q) => bump_track_count(pre.playlists, q, -1),
                None => pre.playlists,
            }));
            assert(forall|k: int|
                0 <= k < released.len() ==> #[trigger] released[k].id == pre.playlists[k].id);
        }
        self.tracks.remove(ti);
        proof {
            assert(self@.tracks =~= pre.tracks.remove(ti as int));
            assert(self@ =~= pre.with_track_deleted(external_name@));
            assert forall|k: int|
                0 <= k < self@.playlists.len() implies #[trigger] self@.playlists[k].track_count
                == playlist_track_count(self@.tracks, self@.playlists[k].id) by {
                lemma_count_remove(pre.tracks, ti as int, self@.playlists[k].id);
            }
            assert forall|a: int, b: int|
                0 <= a < b < self@.tracks.len() implies #[trigger] self@.tracks[a].id
                != #[trigger] self@.tracks[b].id && #[trigger] self@.tracks[a].external_name
                != #[trigger] self@.tracks[b].external_name by {
                assert(self@.tracks[a] == if a < ti as int {
                    pre.tracks[a]
                } else {
                    pre.tracks[a + 1]
                });
                assert(self@.tracks[b] == if b < ti as int {
                    pre.tracks[b]
                } else {
                    pre.tracks[b + 1]
                });
            }
            assert(self@.wf());
        }
    }

    /// Looks a track up by its public identifier. Returns `None` exactly
    /// when no such row exists; a missing name is not a fault.
    pub fn get_track_by_external_name(&self, external_name: &str) -> (r: Option<&Track>)
        requires
            self@.wf(),
        ensures
            match r {
                Some(t) => self@.has_track_named(external_name@) && t@ == self@.tracks[
                    self@.track_index_named(external_name@)
                ] && t@.external_name == external_name@,
                None => !self@.has_track_named(external_name@),
            },
    {
        let owned: String = external_name.to_owned();
        match self.find_track_by_name(&owned) {
            Some(i) => {
                let t = &self.tracks[i];
                proof {
                    lemma_track_named_index(self@, i as int, external_name@);
                }
                Some(t)
            },
            None => None,
        }
    }

    /// The tracks attached to the given playlist, in stored order, as
    /// `list_playlist_tracks` returns them.
    pub fn list_playlist_tracks(&self, playlist_id: u64) -> (r: Vec<&Track>)
        ensures
            view_of_tracks(r@) == tracks_in_playlist(self@.tracks, playlist_id),
    {
        let mut r: Vec<&Track> = Vec::new();
        let n = self.tracks.len();
        proof {
            assert(view_of_tracks(r@) =~= tracks_in_playlist(self@.tracks.take(0), playlist_id));
        }
        for i in 0..n
            invariant
                n == self@.tracks.len(),
                view_of_tracks(r@) == tracks_in_playlist(self@.tracks.take(i as int), playlist_id),
        {
            let ghost prefix = view_of_tracks(r@);
            let keep = match self.tracks[i].playlist_id {
                Some(q) => q == playlist_id,
                None => false,
            };
            if keep {
                r.push(&self.tracks[i]);
            }
            proof {
                let s = self@.tracks;
                assert(s.take(i + 1).drop_last() =~= s.take(i as int));
                assert(s.take(i + 1).last() == s[i as int]);
                if keep {
                    assert(view_of_tracks(r@) =~= prefix.push(s[i as int]));
                }
            }
        }
        proof {
            assert(self@.tracks.take(n as int) =~= self@.tracks);
        }
        r
    }

    /// The playlists whose creator passes the filter (`None` keeps all),
    /// in stored order.
    pub fn list_playlists(&self, creator_id: Option<u64>) -> (r: Vec<&Playlist>)
        ensures
            view_of_playlists(r@) == playlists_of_creator(self@.playlists, creator_id),
    {
        let mut r: Vec<&Playlist> = Vec::new();
        let n = self.playlists.len();
        proof {
            assert(view_of_playlists(r@) =~= playlists_of_creator(
                self@.playlists.take(0),
                creator_id,
            ));
        }
        for j in 0..n
            invariant
                n == self@.playlists.len(),
                view_of_playlists(r@) == playlists_of_creator(
                    self@.playlists.take(j as int),
                    creator_id,
                ),
        {
            let ghost prefix = view_of_playlists(r@);
            let keep = match creator_id {
                Some(c) => self.playlists[j].creator_id == c,
                None => true,
            };
            if keep {
                r.push(&self.playlists[j]);
            }
            proof {
                let s = self@.playlists;
                assert(s.take(j + 1).drop_last() =~= s.take(j as int));
                assert(s.take(j + 1).last() == s[j as int]);
                if keep {
                    assert(view_of_playlists(r@) =~= prefix.push(s[j as int]));
                }
            }
        }
        proof {
            assert(self@.playlists.take(n as int) =~= self@.playlists);
        }
        r
    }

    fn find_user_by_name(&self, username: &String) -> (r: Option<usize>)
        ensures
            match r {
                Some(i) => i < self@.users.len() && self@.users[i as int].username == username@,
                None => !self@.has_username(username@),
            },
    {
        let n = self.users.len();
        for i in 0..n
            invariant
                n == self@.users.len(),
                forall|k: int| 0 <= k < i ==> #[trigger] self@.users[k].username != username@,
        {
            if self.users[i].username == *username {
                return Some(i);
            }
        }
        None
    }

    /// Creates an account row. Fails exactly when the username is already
    /// present (the store's uniqueness constraint) or the id generator is
    /// exhausted. The password is stored verbatim; that is the service's
    /// stated contract, not a recommendation.
    pub fn create_user(&mut self, username: String, password: String) -> (r: Result<
        u64,
        StoreError,
    >)
        requires
            old(self)@.wf(),
        ensures
            final(self)@.wf(),
            match r {
                Ok(id) => !old(self)@.has_username(username@) && old(self)@.next_id < u64::MAX
                    && id == old(self)@.next_id
                    && final(self)@ == old(self)@.with_user_inserted(username@, password@),
                Err(StoreError::UsernameTaken) => old(self)@.has_username(username@)
                    && final(self)@ == old(self)@,
                Err(StoreError::IdsExhausted) => !old(self)@.has_username(username@)
                    && old(self)@.next_id == u64::MAX
                    && final(self)@ == old(self)@,
                Err(_) => false,
            },
    {
        if self.find_user_by_name(&username).is_some() {
            return Err(StoreError::UsernameTaken);
        }
        if self.next_id == u64::MAX {
            return Err(StoreError::IdsExhausted);
        }
        let ghost pre = self@;
        let id = self.next_id;
        let user = User { id, username, password };
        let ghost um = user@;
        self.users.push(user);
        self.next_id = id + 1;
        proof {
            assert(self@.users =~= pre.users.push(um));
            assert(self@ =~= pre.with_user_inserted(um.username, um.password));
        }
        Ok(id)
    }

    /// Checks a username/password pair against the stored accounts.
    /// Succeeds exactly when one account matches both fields verbatim; any
    /// mismatch yields `None`, which says nothing about whether the
    /// username alone exists.
    pub fn authenticate_user(&self, username: &str, password: &str) -> (r: Option<&User>)
        requires
            self@.wf(),
        ensures
            match r {
                Some(u) => self@.credentials_match(username@, password@) && u@ == self@.users[
                    self@.user_index_named(username@)
                ] && u@.username == username@ && u@.password == password@,
                None => !self@.credentials_match(username@, password@),
            },
    {
        let uname: String = username.to_owned();
        let pword: String = password.to_owned();
        let n = self.users.len();
        for i in 0..n
            invariant
                n == self@.users.len(),
                self@.users_wf(),
                uname@ == username@,
                pword@ == password@,
                forall|k: int|
                    0 <= k < i ==> !(#[trigger] self@.users[k].username == username@
                        && self@.users[k].password == password@),
        {
            if self.users[i].username == uname && self.users[i].password == pword {
                proof {
                    lemma_user_named_index(self@, i as int, username@);
                }
                return Some(&self.users[i]);
            }
        }
        None
    }
}

/// Law: attaching a track to a playlist and then detaching that same pair
/// restores the playlist's member count to its value before the attach.
/// It asks that the track not already be a member of that playlist, for
/// then the detach would remove a membership the attach did not add; the
/// bound on the member count keeps the increment within the counter's
/// machine width.
pub proof fn lemma_attach_then_detach_restores_count(
    m: CatalogModel,
    track_id: u64,
    playlist_id: u64,
)
    requires
        m.wf(),
        m.has_track(track_id),
        m.has_playlist(playlist_id),
        m.tracks[m.track_index_of(track_id)].playlist_id != Some(playlist_id),
        playlist_track_count(m.tracks, playlist_id) < u64::MAX,
    ensures
        ({
            let m1 = m.with_track_attached(track_id, playlist_id);
            let m2 = m1.with_track_detached(track_id);
            &&& m1.has_track(track_id)
            &&& m1.has_playlist(playlist_id)
            &&& m1.tracks[m1.track_index_of(track_id)].playlist_id == Some(playlist_id)
            &&& m2.playlists[m2.playlist_index_of(playlist_id)].track_count == m.playlists[
                m.playlist_index_of(playlist_id)
            ].track_count
        }),
{
    let ti = m.track_index_of(track_id);
    let pi = m.playlist_index_of(playlist_id);
    assert(0 <= ti < m.tracks.len() && m.tracks[ti].id == track_id);
    assert(0 <= pi < m.playlists.len() && m.playlists[pi].id == playlist_id);
    let m1 = m.with_track_attached(track_id, playlist_id);
    let released = match m.tracks[ti].playlist_id {
        Some(q) => bump_track_count(m.playlists, q, -1),
        None => m.playlists,
    };
    // the release step does not touch the target playlist's row
    match m.tracks[ti].playlist_id {
        Some(q) => {
            if seq_has_playlist(m.playlists, q) {
                let qj = seq_playlist_index_of(m.playlists, q);
                assert(0 <= qj < m.playlists.len() && m.playlists[qj].id == q);
                assert(qj != pi);
                assert(released[pi] == m.playlists[pi]);
            } else {
                assert(released[pi] == m.playlists[pi]);
            }
        },
        None => {},
    }
    assert(forall|k: int|
        0 <= k < released.len() ==> #[trigger] released[k].id == m.playlists[k].id);
    lemma_seq_playlist_index(released, pi, playlist_id);
    let c0 = m.playlists[pi].track_count;
    assert(c0 == playlist_track_count(m.tracks, playlist_id));
    assert(c0 < u64::MAX);
    assert(m1.playlists == bump_track_count(released, playlist_id, 1));
    assert(m1.playlists[pi].track_count == (c0 + 1) as u64);
    assert(forall|k: int|
        0 <= k < m1.playlists.len() ==> #[trigger] m1.playlists[k].id == m.playlists[k].id);
    // the attach leaves ids in place, so the same indices name the rows
    assert(forall|k: int| 0 <= k < m1.tracks.len() ==> #[trigger] m1.tracks[k].id == m.tracks[k].id);
    assert(forall|a: int, b: int|
        0 <= a < b < m1.tracks.len() ==> #[trigger] m1.tracks[a].id != #[trigger] m1.tracks[b].id);
    lemma_track_index_ids(m1, ti, track_id);
    assert(m1.tracks[ti].playlist_id == Some(playlist_id));
    let m2 = m1.with_track_detached(track_id);
    lemma_seq_playlist_index(m1.playlists, pi, playlist_id);
    assert(m2.playlists == bump_track_count(m1.playlists, playlist_id, -1));
    assert(m2.playlists[pi].track_count == ((c0 + 1) as u64 - 1) as u64);
    assert(m2.playlists[pi].track_count == c0);
    assert(forall|k: int|
        0 <= k < m2.playlists.len() ==> #[trigger] m2.playlists[k].id == m.playlists[k].id);
    lemma_seq_playlist_index(m2.playlists, pi, playlist_id);
}

/// Like `lemma_track_index`, from unique ids alone.
proof fn lemma_track_index_ids(m: CatalogModel, i: int, track_id: u64)
    requires
        forall|a: int, b: int|
            0 <= a < b < m.tracks.len() ==> #[trigger] m.tracks[a].id != #[trigger] m.tracks[b].id,
        0 <= i < m.tracks.len(),
        m.tracks[i].id == track_id,
    ensures
        m.has_track(track_id),
        m.track_index_of(track_id) == i,
{
    assert(m.has_track(track_id));
    let k = m.track_index_of(track_id);
    assert(0 <= k < m.tracks.len() && m.tracks[k].id == track_id);
    if k < i {
        assert(m.tracks[k].id != m.tracks[i].id);
    } else if i < k {
        assert(m.tracks[i].id != m.tracks[k].id);
    }
}

} // verus!
