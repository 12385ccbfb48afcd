use vstd::prelude::*;
use crate::models::{Song, SongTag, Tag};

verus! {

// ---------------------------------------------------------------------------
// The abstract model: the store as the caller sees it, by natural keys alone.
// ---------------------------------------------------------------------------

/// What the store holds, stated over natural keys: the set of song URIs, the
/// set of tag names, and the set of (URI, name) pairs that are linked.
/// Surrogate integer ids are internal and do not appear here.
#[verifier::ext_equal]
pub struct StoreModel {
    pub songs: Set<Seq<char>>,
    pub tags: Set<Seq<char>>,
    pub links: Set<(Seq<char>, Seq<char>)>,
}

pub open spec fn empty_model() -> StoreModel {
    StoreModel { songs: Set::empty(), tags: Set::empty(), links: Set::empty() }
}

/// Attaching a tag to a song creates the song and the tag if absent and
/// records the link; all three steps are create-if-absent.
pub open spec fn attach_model(m: StoreModel, uri: Seq<char>, tag: Seq<char>) -> StoreModel {
    StoreModel {
        songs: m.songs.insert(uri),
        tags: m.tags.insert(tag),
        links: m.links.insert((uri, tag)),
    }
}

/// Detaching removes the link, then removes the song row if the song is left
/// with no links at all (a song lives only as long as it has a tag).
pub open spec fn detach_model(m: StoreModel, uri: Seq<char>, tag: Seq<char>) -> StoreModel {
    let links = m.links.remove((uri, tag));
    StoreModel {
        songs: if exists|t: Seq<char>| links.contains((uri, t)) {
            m.songs
        } else {
            m.songs.remove(uri)
        },
        tags: m.tags,
        links,
    }
}

/// Creating a tag by name is idempotent: inserting an existing name is a
/// silent no-op.
pub open spec fn create_tag_model(m: StoreModel, tag: Seq<char>) -> StoreModel {
    StoreModel { songs: m.songs, tags: m.tags.insert(tag), links: m.links }
}

/// Deleting a tag removes the tag row and every link that carries it; songs
/// are left untouched (orphans are collected by a later cleanup pass).
pub open spec fn delete_tag_model(m: StoreModel, tag: Seq<char>) -> StoreModel {
    StoreModel {
        songs: m.songs,
        tags: m.tags.remove(tag),
        links: Set::new(|p: (Seq<char>, Seq<char>)| m.links.contains(p) && p.1 != tag),
    }
}

/// The cleanup pass deletes every song that no link references.
pub open spec fn cleanup_model(m: StoreModel) -> StoreModel {
    StoreModel {
        songs: Set::new(
            |u: Seq<char>| m.songs.contains(u) && exists|t: Seq<char>| m.links.contains((u, t)),
        ),
        tags: m.tags,
        links: m.links,
    }
}

/// Referential integrity at the model level: every link joins an existing
/// song to an existing tag.
pub open spec fn model_wf(m: StoreModel) -> bool {
    forall|p: (Seq<char>, Seq<char>)| #[trigger]
        m.links.contains(p) ==> m.songs.contains(p.0) && m.tags.contains(p.1)
}

// ---------------------------------------------------------------------------
// Row-level spec functions over the three tables.
// ---------------------------------------------------------------------------

pub open spec fn seq_has_song(songs: Seq<Song>, uri: Seq<char>) -> bool {
    exists|i: int| 0 <= i < songs.len() && (#[trigger] songs[i].song_uri)@ == uri
}

pub open spec fn seq_has_tag(tags: Seq<Tag>, name: Seq<char>) -> bool {
    exists|j: int| 0 <= j < tags.len() && (#[trigger] tags[j].tag_name)@ == name
}

/// Indices (i, j, k) witness that the song at i and the tag at j carry the
/// given keys and that the row at k joins them.
pub open spec fn linked_at(
    songs: Seq<Song>,
    tags: Seq<Tag>,
    rows: Seq<SongTag>,
    uri: Seq<char>,
    name: Seq<char>,
    i: int,
    j: int,
    k: int,
) -> bool {
    &&& 0 <= i < songs.len()
    &&& 0 <= j < tags.len()
    &&& 0 <= k < rows.len()
    &&& songs[i].song_uri@ == uri
    &&& tags[j].tag_name@ == name
    &&& rows[k].song_id == songs[i].song_id
    &&& rows[k].tag_id == tags[j].tag_id
}

/// The song named by `uri` and the tag named by `name` are joined by some row.
pub open spec fn seq_linked(
    songs: Seq<Song>,
    tags: Seq<Tag>,
    rows: Seq<SongTag>,
    uri: Seq<char>,
    name: Seq<char>,
) -> bool {
    exists|i: int, j: int, k: int| #[trigger] linked_at(songs, tags, rows, uri, name, i, j, k)
}

/// Some row references the song with this id.
pub open spec fn seq_has_row_for_song(rows: Seq<SongTag>, song_id: i32) -> bool {
    exists|k: int| 0 <= k < rows.len() && (#[trigger] rows[k]).song_id == song_id
}

/// The given row value occurs in the table.
pub open spec fn row_in(rows: Seq<SongTag>, r: SongTag) -> bool {
    exists|k: int| 0 <= k < rows.len() && rows[k] == r
}

/// A song row with this id and this URI occurs in the table.
pub open spec fn song_in(songs: Seq<Song>, id: i32, uri: Seq<char>) -> bool {
    exists|i: int|
        0 <= i < songs.len() && (#[trigger] songs[i]).song_id == id && songs[i].song_uri@ == uri
}

/// Song rows carry pairwise distinct URIs and pairwise distinct ids.
pub open spec fn songs_distinct(songs: Seq<Song>) -> bool {
    forall|i: int, j: int|
        0 <= i < songs.len() && 0 <= j < songs.len() && i != j
            ==> (#[trigger] songs[i]).song_uri@ != (#[trigger] songs[j]).song_uri@
                && songs[i].song_id != songs[j].song_id
}

/// Tag rows carry pairwise distinct names and pairwise distinct ids.
pub open spec fn tags_distinct(tags: Seq<Tag>) -> bool {
    forall|i: int, j: int|
        0 <= i < tags.len() && 0 <= j < tags.len() && i != j
            ==> (#[trigger] tags[i]).tag_name@ != (#[trigger] tags[j]).tag_name@
                && tags[i].tag_id != tags[j].tag_id
}

/// No two association rows join the same (song, tag) pair.
pub open spec fn rows_distinct(rows: Seq<SongTag>) -> bool {
    forall|k: int, l: int|
        0 <= k < rows.len() && 0 <= l < rows.len() && k != l
            ==> !((#[trigger] rows[k]).song_id == (#[trigger] rows[l]).song_id
                && rows[k].tag_id == rows[l].tag_id)
}

/// Some song row carries this id.
pub open spec fn some_song_has_id(songs: Seq<Song>, id: i32) -> bool {
    exists|i: int| 0 <= i < songs.len() && (#[trigger] songs[i]).song_id == id
}

/// Some tag row carries this id.
pub open spec fn some_tag_has_id(tags: Seq<Tag>, id: i32) -> bool {
    exists|j: int| 0 <= j < tags.len() && (#[trigger] tags[j]).tag_id == id
}

/// Referential integrity: every association row references an existing song
/// row and an existing tag row.
pub open spec fn rows_ref_ok(songs: Seq<Song>, tags: Seq<Tag>, rows: Seq<SongTag>) -> bool {
    forall|k: int|
        0 <= k < rows.len()
            ==> some_song_has_id(songs, (#[trigger] rows[k]).song_id) && some_tag_has_id(
                tags,
                rows[k].tag_id,
            )
}

// ---------------------------------------------------------------------------
// The concrete store.
// ---------------------------------------------------------------------------

/// An association store holding the three tables as rows, together with the
/// counters that mint fresh surrogate ids.
pub struct TagStore {
    pub songs: Vec<Song>,
    pub tags: Vec<Tag>,
    pub song_tags: Vec<SongTag>,
    pub next_song_id: i32,
    pub next_tag_id: i32,
}

impl View for TagStore {
    type V = StoreModel;

    open spec fn view(&self) -> StoreModel {
        StoreModel {
            songs: Set::new(|u: Seq<char>| seq_has_song(self.songs@, u)),
            tags: Set::new(|t: Seq<char>| seq_has_tag(self.tags@, t)),
            links: Set::new(
                |p: (Seq<char>, Seq<char>)| seq_linked(self.songs@, self.tags@, self.song_tags@, p.0, p.1),
            ),
        }
    }
}

impl TagStore {
    /// Well-formedness: natural keys and surrogate ids are unique, the
    /// association rows are a set of pairs that reference existing songs and
    /// tags, and every minted id lies below the corresponding counter.
    pub open spec fn wf(self) -> bool {
        &&& songs_distinct(self.songs@)
        &&& tags_distinct(self.tags@)
        &&& rows_distinct(self.song_tags@)
        &&& rows_ref_ok(self.songs@, self.tags@, self.song_tags@)
        &&& forall|i: int|
            0 <= i < self.songs@.len() ==> (#[trigger] self.songs@[i]).song_id < self.next_song_id
        &&& forall|j: int|
            0 <= j < self.tags@.len() ==> (#[trigger] self.tags@[j]).tag_id < self.next_tag_id
    }

    /// A fresh store: no songs, no tags, no links.
    pub fn new() -> (s: TagStore)
        ensures
            s.wf(),
            s@ == empty_model(),
            s.next_song_id == 1,
            s.next_tag_id == 1,
    {
        let s = TagStore {
            songs: Vec::new(),
            tags: Vec::new(),
            song_tags: Vec::new(),
            next_song_id: 1,
            next_tag_id: 1,
        };
        proof {
            assert(s@.songs =~= empty_model().songs);
            assert(s@.tags =~= empty_model().tags);
            assert(s@.links =~= empty_model().links);
            assert(s@ =~= empty_model());
        }
        s
    }

    /// Whether a song row with this URI exists.
    pub fn has_song(&self, uri: &str) -> (r: bool)
        ensures
            r == self@.songs.contains(uri@),
    {
        self.find_song_idx(uri).is_some()
    }

    /// Whether a tag row with this name exists.
    pub fn has_tag(&self, name: &str) -> (r: bool)
        ensures
            r == self@.tags.contains(name@),
    {
        self.find_tag_idx(name).is_some()
    }

    /// The number of song rows.
    pub fn song_count(&self) -> (n: usize)
        ensures
            n == self.songs@.len(),
    {
        self.songs.len()
    }

    /// The number of tag rows.
    pub fn tag_count(&self) -> (n: usize)
        ensures
            n == self.tags@.len(),
    {
        self.tags.len()
    }

    /// The number of association rows.
    pub fn link_count(&self) -> (n: usize)
        ensures
            n == self.song_tags@.len(),
    {
        self.song_tags.len()
    }

    pub(crate) fn find_song_idx(&self, uri: &str) -> (r: Option<usize>)
        ensures
            match r {
                Some(i) => i < self.songs@.len() && self.songs@[i as int].song_uri@ == uri@,
                None => !seq_has_song(self.songs@, uri@),
            },
    {
        let uri_owned: String = uri.to_owned();
        let n = self.songs.len();
        let mut i: usize = 0;
        while i < n
            invariant
                n == self.songs@.len(),
                i <= n,
                uri_owned@ == uri@,
                forall|k: int| 0 <= k < i ==> (#[trigger] self.songs@[k]).song_uri@ != uri@,
            decreases n - i,
        {
            if self.songs[i].song_uri == uri_owned {
                return Some(i);
            }
            i += 1;
        }
        None
    }

    pub(crate) fn find_tag_idx(&self, name: &str) -> (r: Option<usize>)
        ensures
            match r {
                Some(j) => j < self.tags@.len() && self.tags@[j as int].tag_name@ == name@,
                None => !seq_has_tag(self.tags@, name@),
            },
    {
        let name_owned: String = name.to_owned();
        let n = self.tags.len();
        let mut j: usize = 0;
        while j < n
            invariant
                n == self.tags@.len(),
                j <= n,
                name_owned@ == name@,
                forall|k: int| 0 <= k < j ==> (#[trigger] self.tags@[k]).tag_name@ != name@,
            decreases n - j,
        {
            if self.tags[j].tag_name == name_owned {
                return Some(j);
            }
            j += 1;
        }
        None
    }

    pub(crate) fn find_tag_idx_by_id(&self, tag_id: i32) -> (r: Option<usize>)
        ensures
            match r {
                Some(j) => j < self.tags@.len() && self.tags@[j as int].tag_id == tag_id,
                None => forall|k: int| 0 <= k < self.tags@.len() ==> (#[trigger] self.tags@[k]).tag_id != tag_id,
            },
    {
        let n = self.tags.len();
        let mut j: usize = 0;
        while j < n
            invariant
                n == self.tags@.len(),
                j <= n,
                forall|k: int| 0 <= k < j ==> (#[trigger] self.tags@[k]).tag_id != tag_id,
            decreases n - j,
        {
            if self.tags[j].tag_id == tag_id {
                return Some(j);
            }
            j += 1;
        }
        None
    }

    pub(crate) fn find_row_idx(&self, song_id: i32, tag_id: i32) -> (r: Option<usize>)
        ensures
            match r {
                Some(k) => k < self.song_tags@.len() && self.song_tags@[k as int].song_id == song_id
                    && self.song_tags@[k as int].tag_id == tag_id,
                None => forall|k: int|
                    0 <= k < self.song_tags@.len()
                        ==> !((#[trigger] self.song_tags@[k]).song_id == song_id
                            && self.song_tags@[k].tag_id == tag_id),
            },
    {
        let n = self.song_tags.len();
        let mut k: usize = 0;
        while k < n
            invariant
                n == self.song_tags@.len(),
                k <= n,
                forall|l: int|
                    0 <= l < k ==> !((#[trigger] self.song_tags@[l]).song_id == song_id
                        && self.song_tags@[l].tag_id == tag_id),
            decreases n - k,
        {
            if self.song_tags[k].song_id == song_id && self.song_tags[k].tag_id == tag_id {
                return Some(k);
            }
            k += 1;
        }
        None
    }

    pub(crate) fn any_row_for_song(&self, song_id: i32) -> (r: bool)
        ensures
            r == seq_has_row_for_song(self.song_tags@, song_id),
    {
        let n = self.song_tags.len();
        let mut k: usize = 0;
        while k < n
            invariant
                n == self.song_tags@.len(),
                k <= n,
                forall|l: int| 0 <= l < k ==> (#[trigger] self.song_tags@[l]).song_id != song_id,
            decreases n - k,
        {
            if self.song_tags[k].song_id == song_id {
                return true;
            }
            k += 1;
        }
        false
    }
}

// ---------------------------------------------------------------------------
// Lemmas relating table edits to the link relation.
// ---------------------------------------------------------------------------

/// Appending a song row that no association row references leaves the link
/// relation unchanged.
pub(crate) proof fn lemma_links_push_song(
    songs: Seq<Song>,
    tags: Seq<Tag>,
    rows: Seq<SongTag>,
    s: Song,
)
    requires
        forall|k: int| 0 <= k < rows.len() ==> (#[trigger] rows[k]).song_id != s.song_id,
    ensures
        forall|u: Seq<char>, t: Seq<char>|
            seq_linked(songs.push(s), tags, rows, u, t) == seq_linked(songs, tags, rows, u, t),
{
    assert forall|u: Seq<char>, t: Seq<char>|
        seq_linked(songs.push(s), tags, rows, u, t) == seq_linked(songs, tags, rows, u, t) by {
        if seq_linked(songs.push(s), tags, rows, u, t) {
            let (i, j, k): (int, int, int) = choose|i: int, j: int, k: int|
                linked_at(songs.push(s), tags, rows, u, t, i, j, k);
            if i < songs.len() {
                assert(linked_at(songs, tags, rows, u, t, i, j, k));
            } else {
                assert(rows[k].song_id == s.song_id);
                assert(false);
            }
        }
        if seq_linked(songs, tags, rows, u, t) {
            let (i, j, k): (int, int, int) = choose|i: int, j: int, k: int|
                linked_at(songs, tags, rows, u, t, i, j, k);
            assert(linked_at(songs.push(s), tags, rows, u, t, i, j, k));
        }
    }
}

/// Appending a tag row that no association row references leaves the link
/// relation unchanged.
pub(crate) proof fn lemma_links_push_tag(
    songs: Seq<Song>,
    tags: Seq<Tag>,
    rows: Seq<SongTag>,
    tg: Tag,
)
    requires
        forall|k: int| 0 <= k < rows.len() ==> (#[trigger] rows[k]).tag_id != tg.tag_id,
    ensures
        forall|u: Seq<char>, t: Seq<char>|
            seq_linked(songs, tags.push(tg), rows, u, t) == seq_linked(songs, tags, rows, u, t),
{
    assert forall|u: Seq<char>, t: Seq<char>|
        seq_linked(songs, tags.push(tg), rows, u, t) == seq_linked(songs, tags, rows, u, t) by {
        if seq_linked(songs, tags.push(tg), rows, u, t) {
            let (i, j, k): (int, int, int) = choose|i: int, j: int, k: int|
                linked_at(songs, tags.push(tg), rows, u, t, i, j, k);
            if j < tags.len() {
                assert(linked_at(songs, tags, rows, u, t, i, j, k));
            } else {
                assert(rows[k].tag_id == tg.tag_id);
                assert(false);
            }
        }
        if seq_linked(songs, tags, rows, u, t) {
            let (i, j, k): (int, int, int) = choose|i: int, j: int, k: int|
                linked_at(songs, tags, rows, u, t, i, j, k);
            assert(linked_at(songs, tags.push(tg), rows, u, t, i, j, k));
        }
    }
}

/// Appending a song row extends the set of present URIs by exactly that URI.
pub(crate) proof fn lemma_has_song_push(songs: Seq<Song>, s: Song)
    ensures
        forall|u: Seq<char>|
            seq_has_song(songs.push(s), u) == (seq_has_song(songs, u) || u == s.song_uri@),
{
    assert forall|u: Seq<char>|
        seq_has_song(songs.push(s), u) == (seq_has_song(songs, u) || u == s.song_uri@) by {
        if seq_has_song(songs.push(s), u) {
            let i = choose|i: int|
                0 <= i < songs.push(s).len() && (#[trigger] songs.push(s)[i].song_uri)@ == u;
            if i < songs.len() {
                assert(songs[i].song_uri@ == u);
            } else {
                assert(u == s.song_uri@);
            }
        }
        if seq_has_song(songs, u) {
            let i = choose|i: int| 0 <= i < songs.len() && (#[trigger] songs[i].song_uri)@ == u;
            assert(songs.push(s)[i].song_uri@ == u);
        }
        if u == s.song_uri@ {
            assert(songs.push(s)[songs.len() as int].song_uri@ == u);
        }
    }
}

/// Appending a tag row extends the set of present names by exactly that name.
pub(crate) proof fn lemma_has_tag_push(tags: Seq<Tag>, tg: Tag)
    ensures
        forall|t: Seq<char>|
            seq_has_tag(tags.push(tg), t) == (seq_has_tag(tags, t) || t == tg.tag_name@),
{
    assert forall|t: Seq<char>|
        seq_has_tag(tags.push(tg), t) == (seq_has_tag(tags, t) || t == tg.tag_name@) by {
        if seq_has_tag(tags.push(tg), t) {
            let j = choose|j: int|
                0 <= j < tags.push(tg).len() && (#[trigger] tags.push(tg)[j].tag_name)@ == t;
            if j < tags.len() {
                assert(tags[j].tag_name@ == t);
            } else {
                assert(t == tg.tag_name@);
            }
        }
        if seq_has_tag(tags, t) {
            let j = choose|j: int| 0 <= j < tags.len() && (#[trigger] tags[j].tag_name)@ == t;
            assert(tags.push(tg)[j].tag_name@ == t);
        }
        if t == tg.tag_name@ {
            assert(tags.push(tg)[tags.len() as int].tag_name@ == t);
        }
    }
}

/// Appending an association row that joins the song at `si` to the tag at
/// `tj` extends the link relation by exactly that pair.
pub(crate) proof fn lemma_links_push_row(
    songs: Seq<Song>,
    tags: Seq<Tag>,
    rows: Seq<SongTag>,
    r: SongTag,
    si: int,
    tj: int,
)
    requires
        songs_distinct(songs),
        tags_distinct(tags),
        0 <= si < songs.len(),
        0 <= tj < tags.len(),
        r.song_id == songs[si].song_id,
        r.tag_id == tags[tj].tag_id,
    ensures
        forall|u: Seq<char>, t: Seq<char>|
            seq_linked(songs, tags, rows.push(r), u, t) == (seq_linked(songs, tags, rows, u, t)
                || (u == songs[si].song_uri@ && t == tags[tj].tag_name@)),
{
    assert forall|u: Seq<char>, t: Seq<char>|
        seq_linked(songs, tags, rows.push(r), u, t) == (seq_linked(songs, tags, rows, u, t)
            || (u == songs[si].song_uri@ && t == tags[tj].tag_name@)) by {
        if seq_linked(songs, tags, rows.push(r), u, t) {
            let (i, j, k): (int, int, int) = choose|i: int, j: int, k: int|
                linked_at(songs, tags, rows.push(r), u, t, i, j, k);
            if k < rows.len() {
                assert(linked_at(songs, tags, rows, u, t, i, j, k));
            } else {
                assert(songs[i].song_id == songs[si].song_id);
                assert(i == si);
                assert(tags[j].tag_id == tags[tj].tag_id);
                assert(j == tj);
            }
        }
        if seq_linked(songs, tags, rows, u, t) {
            let (i, j, k): (int, int, int) = choose|i: int, j: int, k: int|
                linked_at(songs, tags, rows, u, t, i, j, k);
            assert(linked_at(songs, tags, rows.push(r), u, t, i, j, k));
        }
        if u == songs[si].song_uri@ && t == tags[tj].tag_name@ {
            assert(linked_at(songs, tags, rows.push(r), u, t, si, tj, rows.len() as int));
        }
    }
}

/// Removing the association row at `k0`, which joins the song at `si` to the
/// tag at `tj`, shrinks the link relation by exactly that pair.
pub(crate) proof fn lemma_links_remove_row(
    songs: Seq<Song>,
    tags: Seq<Tag>,
    rows: Seq<SongTag>,
    k0: int,
    si: int,
    tj: int,
)
    requires
        songs_distinct(songs),
        tags_distinct(tags),
        rows_distinct(rows),
        0 <= k0 < rows.len(),
        0 <= si < songs.len(),
        0 <= tj < tags.len(),
        rows[k0].song_id == songs[si].song_id,
        rows[k0].tag_id == tags[tj].tag_id,
    ensures
        forall|u: Seq<char>, t: Seq<char>|
            seq_linked(songs, tags, rows.remove(k0), u, t) == (seq_linked(songs, tags, rows, u, t)
                && !(u == songs[si].song_uri@ && t == tags[tj].tag_name@)),
{
    let rows2 = rows.remove(k0);
    assert forall|u: Seq<char>, t: Seq<char>|
        seq_linked(songs, tags, rows2, u, t) == (seq_linked(songs, tags, rows, u, t)
            && !(u == songs[si].song_uri@ && t == tags[tj].tag_name@)) by {
        if seq_linked(songs, tags, rows2, u, t) {
            let (i, j, k): (int, int, int) = choose|i: int, j: int, k: int|
                linked_at(songs, tags, rows2, u, t, i, j, k);
            let kold: int = if k < k0 { k } else { k + 1 };
            assert(rows2[k] == rows[kold]);
            assert(linked_at(songs, tags, rows, u, t, i, j, kold));
            if u == songs[si].song_uri@ && t == tags[tj].tag_name@ {
                assert(i == si);
                assert(j == tj);
                assert(rows[kold].song_id == rows[k0].song_id && rows[kold].tag_id == rows[k0].tag_id);
                assert(kold == k0);
                assert(false);
            }
        }
        if seq_linked(songs, tags, rows, u, t) && !(u == songs[si].song_uri@ && t
            == tags[tj].tag_name@) {
            let (i, j, k): (int, int, int) = choose|i: int, j: int, k: int|
                linked_at(songs, tags, rows, u, t, i, j, k);
            if k == k0 {
                assert(songs[i].song_id == songs[si].song_id);
                assert(i == si);
                assert(j == tj);
                assert(false);
            }
            let knew: int = if k < k0 { k } else { k - 1 };
            assert(rows2[knew] == rows[k]);
            assert(linked_at(songs, tags, rows2, u, t, i, j, knew));
        }
    }
}

/// Removing a song row that no association row references leaves the link
/// relation unchanged.
pub(crate) proof fn lemma_links_remove_song(
    songs: Seq<Song>,
    tags: Seq<Tag>,
    rows: Seq<SongTag>,
    i0: int,
)
    requires
        0 <= i0 < songs.len(),
        forall|k: int| 0 <= k < rows.len() ==> (#[trigger] rows[k]).song_id != songs[i0].song_id,
    ensures
        forall|u: Seq<char>, t: Seq<char>|
            seq_linked(songs.remove(i0), tags, rows, u, t) == seq_linked(songs, tags, rows, u, t),
{
    let songs2 = songs.remove(i0);
    assert forall|u: Seq<char>, t: Seq<char>|
        seq_linked(songs2, tags, rows, u, t) == seq_linked(songs, tags, rows, u, t) by {
        if seq_linked(songs2, tags, rows, u, t) {
            let (i, j, k): (int, int, int) = choose|i: int, j: int, k: int|
                linked_at(songs2, tags, rows, u, t, i, j, k);
            let iold: int = if i < i0 { i } else { i + 1 };
            assert(songs2[i] == songs[iold]);
            assert(linked_at(songs, tags, rows, u, t, iold, j, k));
        }
        if seq_linked(songs, tags, rows, u, t) {
            let (i, j, k): (int, int, int) = choose|i: int, j: int, k: int|
                linked_at(songs, tags, rows, u, t, i, j, k);
            assert(i != i0);
            let inew: int = if i < i0 { i } else { i - 1 };
            assert(songs2[inew] == songs[i]);
            assert(linked_at(songs2, tags, rows, u, t, inew, j, k));
        }
    }
}

/// Removing a song row shrinks the set of present URIs by exactly its URI.
pub(crate) proof fn lemma_has_song_remove(songs: Seq<Song>, i0: int)
    requires
        songs_distinct(songs),
        0 <= i0 < songs.len(),
    ensures
        forall|u: Seq<char>|
            seq_has_song(songs.remove(i0), u) == (seq_has_song(songs, u) && u
                != songs[i0].song_uri@),
{
    let songs2 = songs.remove(i0);
    assert forall|u: Seq<char>|
        seq_has_song(songs2, u) == (seq_has_song(songs, u) && u != songs[i0].song_uri@) by {
        if seq_has_song(songs2, u) {
            let i = choose|i: int| 0 <= i < songs2.len() && (#[trigger] songs2[i].song_uri)@ == u;
            let iold: int = if i < i0 { i } else { i + 1 };
            assert(songs2[i] == songs[iold]);
            assert(songs[iold].song_uri@ == u);
            assert(u != songs[i0].song_uri@);
        }
        if seq_has_song(songs, u) && u != songs[i0].song_uri@ {
            let i = choose|i: int| 0 <= i < songs.len() && (#[trigger] songs[i].song_uri)@ == u;
            assert(i != i0);
            let inew: int = if i < i0 { i } else { i - 1 };
            assert(songs2[inew] == songs[i]);
            assert(songs2[inew].song_uri@ == u);
        }
    }
}

/// Removing a tag row shrinks the set of present names by exactly its name.
pub(crate) proof fn lemma_has_tag_remove(tags: Seq<Tag>, j0: int)
    requires
        tags_distinct(tags),
        0 <= j0 < tags.len(),
    ensures
        forall|t: Seq<char>|
            seq_has_tag(tags.remove(j0), t) == (seq_has_tag(tags, t) && t != tags[j0].tag_name@),
{
    let tags2 = tags.remove(j0);
    assert forall|t: Seq<char>|
        seq_has_tag(tags2, t) == (seq_has_tag(tags, t) && t != tags[j0].tag_name@) by {
        if seq_has_tag(tags2, t) {
            let j = choose|j: int| 0 <= j < tags2.len() && (#[trigger] tags2[j].tag_name)@ == t;
            let jold: int = if j < j0 { j } else { j + 1 };
            assert(tags2[j] == tags[jold]);
            assert(tags[jold].tag_name@ == t);
            assert(t != tags[j0].tag_name@);
        }
        if seq_has_tag(tags, t) && t != tags[j0].tag_name@ {
            let j = choose|j: int| 0 <= j < tags.len() && (#[trigger] tags[j].tag_name)@ == t;
            assert(j != j0);
            let jnew: int = if j < j0 { j } else { j - 1 };
            assert(tags2[jnew] == tags[j]);
            assert(tags2[jnew].tag_name@ == t);
        }
    }
}

/// Removing a tag row that no association row references leaves the link
/// relation unchanged.
pub(crate) proof fn lemma_links_remove_tag(
    songs: Seq<Song>,
    tags: Seq<Tag>,
    rows: Seq<SongTag>,
    j0: int,
)
    requires
        0 <= j0 < tags.len(),
        forall|k: int| 0 <= k < rows.len() ==> (#[trigger] rows[k]).tag_id != tags[j0].tag_id,
    ensures
        forall|u: Seq<char>, t: Seq<char>|
            seq_linked(songs, tags.remove(j0), rows, u, t) == seq_linked(songs, tags, rows, u, t),
{
    let tags2 = tags.remove(j0);
    assert forall|u: Seq<char>, t: Seq<char>|
        seq_linked(songs, tags2, rows, u, t) == seq_linked(songs, tags, rows, u, t) by {
        if seq_linked(songs, tags2, rows, u, t) {
            let (i, j, k): (int, int, int) = choose|i: int, j: int, k: int|
                linked_at(songs, tags2, rows, u, t, i, j, k);
            let jold: int = if j < j0 { j } else { j + 1 };
            assert(tags2[j] == tags[jold]);
            assert(linked_at(songs, tags, rows, u, t, i, jold, k));
        }
        if seq_linked(songs, tags, rows, u, t) {
            let (i, j, k): (int, int, int) = choose|i: int, j: int, k: int|
                linked_at(songs, tags, rows, u, t, i, j, k);
            assert(j != j0);
            let jnew: int = if j < j0 { j } else { j - 1 };
            assert(tags2[jnew] == tags[j]);
            assert(linked_at(songs, tags2, rows, u, t, i, jnew, k));
        }
    }
}

/// Replacing the association table by one that keeps exactly the rows whose
/// tag id differs from the id of the tag at `j0` removes exactly the links
/// that carry that tag's name.
pub(crate) proof fn lemma_links_filter_rows(
    songs: Seq<Song>,
    tags: Seq<Tag>,
    rows: Seq<SongTag>,
    rows2: Seq<SongTag>,
    j0: int,
)
    requires
        tags_distinct(tags),
        0 <= j0 < tags.len(),
        forall|x: int|
            0 <= x < rows2.len() ==> (#[trigger] rows2[x]).tag_id != tags[j0].tag_id && row_in(
                rows,
                rows2[x],
            ),
        forall|k: int|
            0 <= k < rows.len() && (#[trigger] rows[k]).tag_id != tags[j0].tag_id ==> row_in(
                rows2,
                rows[k],
            ),
    ensures
        forall|u: Seq<char>, t: Seq<char>|
            seq_linked(songs, tags, rows2, u, t) == (seq_linked(songs, tags, rows, u, t) && t
                != tags[j0].tag_name@),
{
    assert forall|u: Seq<char>, t: Seq<char>|
        seq_linked(songs, tags, rows2, u, t) == (seq_linked(songs, tags, rows, u, t) && t
            != tags[j0].tag_name@) by {
        if seq_linked(songs, tags, rows2, u, t) {
            let (i, j, x): (int, int, int) = choose|i: int, j: int, x: int|
                linked_at(songs, tags, rows2, u, t, i, j, x);
            let k = choose|k: int| 0 <= k < rows.len() && rows[k] == rows2[x];
            assert(linked_at(songs, tags, rows, u, t, i, j, k));
            assert(tags[j].tag_id == rows2[x].tag_id);
            assert(j != j0);
            assert(t != tags[j0].tag_name@);
        }
        if seq_linked(songs, tags, rows, u, t) && t != tags[j0].tag_name@ {
            let (i, j, k): (int, int, int) = choose|i: int, j: int, k: int|
                linked_at(songs, tags, rows, u, t, i, j, k);
            assert(j != j0);
            assert(rows[k].tag_id == tags[j].tag_id);
            assert(rows[k].tag_id != tags[j0].tag_id);
            assert(row_in(rows2, rows[k]));
            let x = choose|x: int| 0 <= x < rows2.len() && rows2[x] == rows[k];
            assert(linked_at(songs, tags, rows2, u, t, i, j, x));
        }
    }
}

// ---------------------------------------------------------------------------
// Lemmas preserving well-formedness across table edits.
// ---------------------------------------------------------------------------

/// A song row with a fresh URI and a fresh id keeps the song table distinct.
pub(crate) proof fn lemma_songs_distinct_push(songs: Seq<Song>, s: Song, next: int)
    requires
        songs_distinct(songs),
        !seq_has_song(songs, s.song_uri@),
        forall|i: int| 0 <= i < songs.len() ==> (#[trigger] songs[i]).song_id < next,
        s.song_id == next,
    ensures
        songs_distinct(songs.push(s)),
{
    let songs2 = songs.push(s);
    assert forall|i: int, j: int|
        0 <= i < songs2.len() && 0 <= j < songs2.len() && i != j implies (#[trigger] songs2[i]).song_uri@
        != (#[trigger] songs2[j]).song_uri@ && songs2[i].song_id != songs2[j].song_id by {
        if i < songs.len() && j < songs.len() {
            assert(songs2[i] == songs[i] && songs2[j] == songs[j]);
        } else if i < songs.len() {
            assert(songs2[i] == songs[i] && songs2[j] == s);
            assert(songs[i].song_uri@ != s.song_uri@);
        } else {
            assert(songs2[i] == s && songs2[j] == songs[j]);
            assert(songs[j].song_uri@ != s.song_uri@);
        }
    }
}

/// A tag row with a fresh name and a fresh id keeps the tag table distinct.
pub(crate) proof fn lemma_tags_distinct_push(tags: Seq<Tag>, tg: Tag, next: int)
    requires
        tags_distinct(tags),
        !seq_has_tag(tags, tg.tag_name@),
        forall|j: int| 0 <= j < tags.len() ==> (#[trigger] tags[j]).tag_id < next,
        tg.tag_id == next,
    ensures
        tags_distinct(tags.push(tg)),
{
    let tags2 = tags.push(tg);
    assert forall|i: int, j: int|
        0 <= i < tags2.len() && 0 <= j < tags2.len() && i != j implies (#[trigger] tags2[i]).tag_name@
        != (#[trigger] tags2[j]).tag_name@ && tags2[i].tag_id != tags2[j].tag_id by {
        if i < tags.len() && j < tags.len() {
            assert(tags2[i] == tags[i] && tags2[j] == tags[j]);
        } else if i < tags.len() {
            assert(tags2[i] == tags[i] && tags2[j] == tg);
            assert(tags[i].tag_name@ != tg.tag_name@);
        } else {
            assert(tags2[i] == tg && tags2[j] == tags[j]);
            assert(tags[j].tag_name@ != tg.tag_name@);
        }
    }
}

/// Appending a row for a pair not yet present keeps the rows pairwise
/// distinct.
pub(crate) proof fn lemma_rows_distinct_push(rows: Seq<SongTag>, r: SongTag)
    requires
        rows_distinct(rows),
        forall|k: int|
            0 <= k < rows.len() ==> !((#[trigger] rows[k]).song_id == r.song_id && rows[k].tag_id
                == r.tag_id),
    ensures
        rows_distinct(rows.push(r)),
{
    let rows2 = rows.push(r);
    assert forall|k: int, l: int|
        0 <= k < rows2.len() && 0 <= l < rows2.len() && k != l implies !((#[trigger] rows2[k]).song_id
        == (#[trigger] rows2[l]).song_id && rows2[k].tag_id == rows2[l].tag_id) by {
        if k < rows.len() && l < rows.len() {
            assert(rows2[k] == rows[k] && rows2[l] == rows[l]);
        } else if k < rows.len() {
            assert(rows2[k] == rows[k] && rows2[l] == r);
        } else {
            assert(rows2[k] == r && rows2[l] == rows[l]);
        }
    }
}

/// Removing one song row keeps the song table distinct.
pub(crate) proof fn lemma_songs_distinct_remove(songs: Seq<Song>, i0: int)
    requires
        songs_distinct(songs),
        0 <= i0 < songs.len(),
    ensures
        songs_distinct(songs.remove(i0)),
{
    let songs2 = songs.remove(i0);
    assert forall|i: int, j: int|
        0 <= i < songs2.len() && 0 <= j < songs2.len() && i != j implies (#[trigger] songs2[i]).song_uri@
        != (#[trigger] songs2[j]).song_uri@ && songs2[i].song_id != songs2[j].song_id by {
        let iold: int = if i < i0 { i } else { i + 1 };
        let jold: int = if j < i0 { j } else { j + 1 };
        assert(songs2[i] == songs[iold] && songs2[j] == songs[jold]);
    }
}

/// Removing one tag row keeps the tag table distinct.
pub(crate) proof fn lemma_tags_distinct_remove(tags: Seq<Tag>, j0: int)
    requires
        tags_distinct(tags),
        0 <= j0 < tags.len(),
    ensures
        tags_distinct(tags.remove(j0)),
{
    let tags2 = tags.remove(j0);
    assert forall|i: int, j: int|
        0 <= i < tags2.len() && 0 <= j < tags2.len() && i != j implies (#[trigger] tags2[i]).tag_name@
        != (#[trigger] tags2[j]).tag_name@ && tags2[i].tag_id != tags2[j].tag_id by {
        let iold: int = if i < j0 { i } else { i + 1 };
        let jold: int = if j < j0 { j } else { j + 1 };
        assert(tags2[i] == tags[iold] && tags2[j] == tags[jold]);
    }
}

/// Removing one association row keeps the rows pairwise distinct.
pub(crate) proof fn lemma_rows_distinct_remove(rows: Seq<SongTag>, k0: int)
    requires
        rows_distinct(rows),
        0 <= k0 < rows.len(),
    ensures
        rows_distinct(rows.remove(k0)),
{
    let rows2 = rows.remove(k0);
    assert forall|k: int, l: int|
        0 <= k < rows2.len() && 0 <= l < rows2.len() && k != l implies !((#[trigger] rows2[k]).song_id
        == (#[trigger] rows2[l]).song_id && rows2[k].tag_id == rows2[l].tag_id) by {
        let kold: int = if k < k0 { k } else { k + 1 };
        let lold: int = if l < k0 { l } else { l + 1 };
        assert(rows2[k] == rows[kold] && rows2[l] == rows[lold]);
    }
}

/// Referential integrity survives growing the song table.
pub(crate) proof fn lemma_ref_ok_push_song(
    songs: Seq<Song>,
    tags: Seq<Tag>,
    rows: Seq<SongTag>,
    s: Song,
)
    requires
        rows_ref_ok(songs, tags, rows),
    ensures
        rows_ref_ok(songs.push(s), tags, rows),
{
    let songs2 = songs.push(s);
    assert forall|k: int| 0 <= k < rows.len() implies some_song_has_id(
        songs2,
        (#[trigger] rows[k]).song_id,
    ) && some_tag_has_id(tags, rows[k].tag_id) by {
        assert(some_song_has_id(songs, rows[k].song_id));
        let i = choose|i: int|
            0 <= i < songs.len() && (#[trigger] songs[i]).song_id == rows[k].song_id;
        assert(songs2[i].song_id == rows[k].song_id);
    }
}

/// Referential integrity survives growing the tag table.
pub(crate) proof fn lemma_ref_ok_push_tag(
    songs: Seq<Song>,
    tags: Seq<Tag>,
    rows: Seq<SongTag>,
    tg: Tag,
)
    requires
        rows_ref_ok(songs, tags, rows),
    ensures
        rows_ref_ok(songs, tags.push(tg), rows),
{
    let tags2 = tags.push(tg);
    assert forall|k: int| 0 <= k < rows.len() implies some_song_has_id(
        songs,
        (#[trigger] rows[k]).song_id,
    ) && some_tag_has_id(tags2, rows[k].tag_id) by {
        assert(some_tag_has_id(tags, rows[k].tag_id));
        let j = choose|j: int| 0 <= j < tags.len() && (#[trigger] tags[j]).tag_id == rows[k].tag_id;
        assert(tags2[j].tag_id == rows[k].tag_id);
    }
}

/// Referential integrity survives appending a row that references the song
/// at `si` and the tag at `tj`.
pub(crate) proof fn lemma_ref_ok_push_row(
    songs: Seq<Song>,
    tags: Seq<Tag>,
    rows: Seq<SongTag>,
    r: SongTag,
    si: int,
    tj: int,
)
    requires
        rows_ref_ok(songs, tags, rows),
        0 <= si < songs.len(),
        0 <= tj < tags.len(),
        r.song_id == songs[si].song_id,
        r.tag_id == tags[tj].tag_id,
    ensures
        rows_ref_ok(songs, tags, rows.push(r)),
{
    let rows2 = rows.push(r);
    assert forall|k: int| 0 <= k < rows2.len() implies some_song_has_id(
        songs,
        (#[trigger] rows2[k]).song_id,
    ) && some_tag_has_id(tags, rows2[k].tag_id) by {
        if k < rows.len() {
            assert(rows2[k] == rows[k]);
            assert(some_song_has_id(songs, rows[k].song_id));
            assert(some_tag_has_id(tags, rows[k].tag_id));
        } else {
            assert(rows2[k] == r);
            assert(songs[si].song_id == rows2[k].song_id);
            assert(tags[tj].tag_id == rows2[k].tag_id);
        }
    }
}

/// Referential integrity survives removing an association row.
pub(crate) proof fn lemma_ref_ok_remove_row(
    songs: Seq<Song>,
    tags: Seq<Tag>,
    rows: Seq<SongTag>,
    k0: int,
)
    requires
        rows_ref_ok(songs, tags, rows),
        0 <= k0 < rows.len(),
    ensures
        rows_ref_ok(songs, tags, rows.remove(k0)),
{
    let rows2 = rows.remove(k0);
    assert forall|k: int| 0 <= k < rows2.len() implies some_song_has_id(
        songs,
        (#[trigger] rows2[k]).song_id,
    ) && some_tag_has_id(tags, rows2[k].tag_id) by {
        let kold: int = if k < k0 { k } else { k + 1 };
        assert(rows2[k] == rows[kold]);
        assert(some_song_has_id(songs, rows[kold].song_id));
        assert(some_tag_has_id(tags, rows[kold].tag_id));
    }
}

/// Referential integrity survives removing a song row no remaining row
/// references.
pub(crate) proof fn lemma_ref_ok_remove_song(
    songs: Seq<Song>,
    tags: Seq<Tag>,
    rows: Seq<SongTag>,
    i0: int,
)
    requires
        rows_ref_ok(songs, tags, rows),
        0 <= i0 < songs.len(),
        forall|k: int| 0 <= k < rows.len() ==> (#[trigger] rows[k]).song_id != songs[i0].song_id,
    ensures
        rows_ref_ok(songs.remove(i0), tags, rows),
{
    let songs2 = songs.remove(i0);
    assert forall|k: int| 0 <= k < rows.len() implies some_song_has_id(
        songs2,
        (#[trigger] rows[k]).song_id,
    ) && some_tag_has_id(tags, rows[k].tag_id) by {
        assert(some_song_has_id(songs, rows[k].song_id));
        let i = choose|i: int|
            0 <= i < songs.len() && (#[trigger] songs[i]).song_id == rows[k].song_id;
        assert(i != i0);
        let inew: int = if i < i0 { i } else { i - 1 };
        assert(songs2[inew] == songs[i]);
        assert(songs2[inew].song_id == rows[k].song_id);
    }
}

/// Referential integrity survives removing a tag row no remaining row
/// references.
pub(crate) proof fn lemma_ref_ok_remove_tag(
    songs: Seq<Song>,
    tags: Seq<Tag>,
    rows: Seq<SongTag>,
    j0: int,
)
    requires
        rows_ref_ok(songs, tags, rows),
        0 <= j0 < tags.len(),
        forall|k: int| 0 <= k < rows.len() ==> (#[trigger] rows[k]).tag_id != tags[j0].tag_id,
    ensures
        rows_ref_ok(songs, tags.remove(j0), rows),
{
    let tags2 = tags.remove(j0);
    assert forall|k: int| 0 <= k < rows.len() implies some_song_has_id(
        songs,
        (#[trigger] rows[k]).song_id,
    ) && some_tag_has_id(tags2, rows[k].tag_id) by {
        assert(some_tag_has_id(tags, rows[k].tag_id));
        let j = choose|j: int| 0 <= j < tags.len() && (#[trigger] tags[j]).tag_id == rows[k].tag_id;
        assert(j != j0);
        let jnew: int = if j < j0 { j } else { j - 1 };
        assert(tags2[jnew] == tags[j]);
        assert(tags2[jnew].tag_id == rows[k].tag_id);
    }
}

/// Referential integrity survives restriction to a subset of the rows.
pub(crate) proof fn lemma_ref_ok_subset(
    songs: Seq<Song>,
    tags: Seq<Tag>,
    rows: Seq<SongTag>,
    rows2: Seq<SongTag>,
)
    requires
        rows_ref_ok(songs, tags, rows),
        forall|x: int| 0 <= x < rows2.len() ==> row_in(rows, #[trigger] rows2[x]),
    ensures
        rows_ref_ok(songs, tags, rows2),
{
    assert forall|x: int| 0 <= x < rows2.len() implies some_song_has_id(
        songs,
        (#[trigger] rows2[x]).song_id,
    ) && some_tag_has_id(tags, rows2[x].tag_id) by {
        let k = choose|k: int| 0 <= k < rows.len() && rows[k] == rows2[x];
        assert(some_song_has_id(songs, rows[k].song_id));
        assert(some_tag_has_id(tags, rows[k].tag_id));
    }
}

/// No association row references a song id at or above the id counter.
pub(crate) proof fn lemma_no_row_for_fresh_song_id(
    songs: Seq<Song>,
    tags: Seq<Tag>,
    rows: Seq<SongTag>,
    id: i32,
)
    requires
        rows_ref_ok(songs, tags, rows),
        forall|i: int| 0 <= i < songs.len() ==> (#[trigger] songs[i]).song_id < id,
    ensures
        forall|k: int| 0 <= k < rows.len() ==> (#[trigger] rows[k]).song_id != id,
{
    assert forall|k: int| 0 <= k < rows.len() implies (#[trigger] rows[k]).song_id != id by {
        assert(some_song_has_id(songs, rows[k].song_id));
        let i = choose|i: int|
            0 <= i < songs.len() && (#[trigger] songs[i]).song_id == rows[k].song_id;
    }
}

/// No association row references a tag id at or above the id counter.
pub(crate) proof fn lemma_no_row_for_fresh_tag_id(
    songs: Seq<Song>,
    tags: Seq<Tag>,
    rows: Seq<SongTag>,
    id: i32,
)
    requires
        rows_ref_ok(songs, tags, rows),
        forall|j: int| 0 <= j < tags.len() ==> (#[trigger] tags[j]).tag_id < id,
    ensures
        forall|k: int| 0 <= k < rows.len() ==> (#[trigger] rows[k]).tag_id != id,
{
    assert forall|k: int| 0 <= k < rows.len() implies (#[trigger] rows[k]).tag_id != id by {
        assert(some_tag_has_id(tags, rows[k].tag_id));
        let j = choose|j: int| 0 <= j < tags.len() && (#[trigger] tags[j]).tag_id == rows[k].tag_id;
    }
}

} // verus!
