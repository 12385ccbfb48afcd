use vstd::prelude::*;

verus! {

/// A row of the song table: a song is identified by its URI; the integer id
/// is an internal surrogate key.
pub struct Song {
    pub song_id: i32,
    pub song_uri: String,
}

/// A row of the tag table: a tag is identified by its name; the integer id
/// is an internal surrogate key.
pub struct Tag {
    pub tag_id: i32,
    pub tag_name: String,
}

/// A row of the association table: one row per (song, tag) pair.
#[derive(Clone, Copy)]
pub struct SongTag {
    pub song_id: i32,
    pub tag_id: i32,
}

} // verus!
