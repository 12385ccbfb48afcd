use song_tags::db::{
    add_new_tag, add_tag_for_song_uri, cleanup_songs, delete_tag, get_all_tags,
    query_tags_for_song_uri, remove_tag_from_song_uri,
};
use song_tags::store::TagStore;

#[test]
fn attach_creates_song_tag_and_link() {
    let mut s = TagStore::new();
    add_tag_for_song_uri(&mut s, "song://x", "rock");
    assert_eq!(s.song_count(), 1);
    assert_eq!(s.tag_count(), 1);
    assert_eq!(s.link_count(), 1);
    assert!(s.has_song("song://x"));
    assert!(s.has_tag("rock"));
    assert_eq!(query_tags_for_song_uri(&s, "song://x"), vec!["rock".to_string()]);
}

#[test]
fn attach_twice_is_idempotent() {
    let mut s = TagStore::new();
    add_tag_for_song_uri(&mut s, "song://x", "rock");
    add_tag_for_song_uri(&mut s, "song://x", "rock");
    assert_eq!(s.song_count(), 1);
    assert_eq!(s.tag_count(), 1);
    assert_eq!(s.link_count(), 1);
    assert_eq!(query_tags_for_song_uri(&s, "song://x"), vec!["rock".to_string()]);
}

#[test]
fn detach_removes_orphan_song() {
    let mut s = TagStore::new();
    add_tag_for_song_uri(&mut s, "song://x", "rock");
    remove_tag_from_song_uri(&mut s, "song://x", "rock");
    assert!(!s.has_song("song://x"));
    assert_eq!(s.link_count(), 0);
    assert!(query_tags_for_song_uri(&s, "song://x").is_empty());
    // detaching removes the association and the orphaned song, not the tag
    assert!(s.has_tag("rock"));
}

#[test]
fn detach_keeps_song_with_other_tags() {
    let mut s = TagStore::new();
    add_tag_for_song_uri(&mut s, "song://x", "rock");
    add_tag_for_song_uri(&mut s, "song://x", "pop");
    remove_tag_from_song_uri(&mut s, "song://x", "rock");
    assert!(s.has_song("song://x"));
    assert_eq!(query_tags_for_song_uri(&s, "song://x"), vec!["pop".to_string()]);
}

#[test]
fn delete_tag_cascades_and_keeps_song() {
    let mut s = TagStore::new();
    add_tag_for_song_uri(&mut s, "song://y", "rock");
    add_tag_for_song_uri(&mut s, "song://y", "pop");
    delete_tag(&mut s, "rock");
    assert!(!s.has_tag("rock"));
    assert!(s.has_song("song://y"));
    assert_eq!(query_tags_for_song_uri(&s, "song://y"), vec!["pop".to_string()]);
    assert_eq!(s.link_count(), 1);
}

#[test]
fn delete_then_cleanup_removes_orphan() {
    let mut s = TagStore::new();
    add_tag_for_song_uri(&mut s, "song://z", "jazz");
    delete_tag(&mut s, "jazz");
    // the song is an orphan until the cleanup pass runs
    assert!(s.has_song("song://z"));
    assert_eq!(s.link_count(), 0);
    let removed = cleanup_songs(&mut s);
    assert_eq!(removed, 1);
    assert!(!s.has_song("song://z"));
    assert_eq!(s.song_count(), 0);
}

#[test]
fn create_tag_round_trip() {
    let mut s = TagStore::new();
    add_new_tag(&mut s, "ambient");
    add_new_tag(&mut s, "ambient");
    let all = get_all_tags(&s);
    assert_eq!(all.iter().filter(|t| t.as_str() == "ambient").count(), 1);
    assert_eq!(s.tag_count(), 1);
}

#[test]
fn detach_unknown_pair_is_noop() {
    let mut s = TagStore::new();
    add_tag_for_song_uri(&mut s, "song://a", "rock");
    remove_tag_from_song_uri(&mut s, "song://b", "rock");
    remove_tag_from_song_uri(&mut s, "song://a", "nope");
    assert_eq!(s.song_count(), 1);
    assert_eq!(s.tag_count(), 1);
    assert_eq!(s.link_count(), 1);
    assert_eq!(query_tags_for_song_uri(&s, "song://a"), vec!["rock".to_string()]);
}

#[test]
fn delete_unknown_tag_is_noop() {
    let mut s = TagStore::new();
    add_tag_for_song_uri(&mut s, "song://a", "rock");
    delete_tag(&mut s, "nope");
    assert_eq!(s.song_count(), 1);
    assert_eq!(s.tag_count(), 1);
    assert_eq!(s.link_count(), 1);
    assert!(s.has_tag("rock"));
}

#[test]
fn query_unknown_song_is_empty() {
    let s = TagStore::new();
    assert!(query_tags_for_song_uri(&s, "song://missing").is_empty());
}

#[test]
fn empty_strings_are_plain_keys() {
    let mut s = TagStore::new();
    add_tag_for_song_uri(&mut s, "", "");
    assert!(s.has_song(""));
    assert!(s.has_tag(""));
    assert_eq!(query_tags_for_song_uri(&s, ""), vec![String::new()]);
}

#[test]
fn get_all_tags_in_insertion_order() {
    let mut s = TagStore::new();
    add_new_tag(&mut s, "a");
    add_new_tag(&mut s, "b");
    add_new_tag(&mut s, "c");
    assert_eq!(
        get_all_tags(&s),
        vec!["a".to_string(), "b".to_string(), "c".to_string()]
    );
}

#[test]
fn detach_collects_orphan_even_for_unknown_tag() {
    let mut s = TagStore::new();
    add_tag_for_song_uri(&mut s, "song://z", "jazz");
    delete_tag(&mut s, "jazz");
    assert!(s.has_song("song://z"));
    // detaching any tag from an orphaned song deletes its row
    remove_tag_from_song_uri(&mut s, "song://z", "nope");
    assert!(!s.has_song("song://z"));
}

#[test]
fn cleanup_on_clean_store_removes_nothing() {
    let mut s = TagStore::new();
    add_tag_for_song_uri(&mut s, "song://x", "rock");
    assert_eq!(cleanup_songs(&mut s), 0);
    assert!(s.has_song("song://x"));
}

#[test]
fn one_song_many_tags() {
    let mut s = TagStore::new();
    add_tag_for_song_uri(&mut s, "song://x", "rock");
    add_tag_for_song_uri(&mut s, "song://x", "pop");
    assert_eq!(s.song_count(), 1);
    assert_eq!(s.tag_count(), 2);
    assert_eq!(s.link_count(), 2);
    assert_eq!(
        query_tags_for_song_uri(&s, "song://x"),
        vec!["rock".to_string(), "pop".to_string()]
    );
}

#[test]
fn shared_tag_across_songs() {
    let mut s = TagStore::new();
    add_tag_for_song_uri(&mut s, "song://a", "shared");
    add_tag_for_song_uri(&mut s, "song://b", "shared");
    assert_eq!(s.song_count(), 2);
    assert_eq!(s.tag_count(), 1);
    assert_eq!(s.link_count(), 2);
    delete_tag(&mut s, "shared");
    assert_eq!(s.link_count(), 0);
    let removed = cleanup_songs(&mut s);
    assert_eq!(removed, 2);
    assert_eq!(s.song_count(), 0);
}

#[test]
fn explicit_tag_then_attach_reuses_row() {
    let mut s = TagStore::new();
    add_new_tag(&mut s, "rock");
    add_tag_for_song_uri(&mut s, "song://x", "rock");
    assert_eq!(s.tag_count(), 1);
    assert_eq!(s.link_count(), 1);
}
