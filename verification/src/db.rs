use vstd::prelude::*;
use crate::models::{Song, SongTag, Tag};
use crate::store::{
    TagStore, attach_model, create_tag_model, delete_tag_model, detach_model,
    cleanup_model, seq_has_song, seq_has_tag, seq_linked, linked_at,
    seq_has_row_for_song, row_in, songs_distinct, rows_distinct,
    some_song_has_id, some_tag_has_id, lemma_links_push_song, lemma_links_push_tag,
    lemma_links_push_row, lemma_links_remove_row, lemma_links_remove_song, lemma_links_remove_tag,
    lemma_links_filter_rows, lemma_has_song_push, lemma_has_tag_push, lemma_has_song_remove,
    lemma_has_tag_remove, lemma_songs_distinct_push, lemma_tags_distinct_push,
    lemma_rows_distinct_push, lemma_songs_distinct_remove, lemma_tags_distinct_remove,
    lemma_rows_distinct_remove, lemma_ref_ok_push_song, lemma_ref_ok_push_tag,
    lemma_ref_ok_push_row, lemma_ref_ok_remove_row, lemma_ref_ok_remove_song,
    lemma_ref_ok_remove_tag, lemma_no_row_for_fresh_song_id, lemma_no_row_for_fresh_tag_id,
    song_in, lemma_ref_ok_subset,
};

verus! {

/// A name in the result vector.
pub open spec fn vec_has_name(r: Seq<String>, t: Seq<char>) -> bool {
    exists|x: int| 0 <= x < r.len() && (#[trigger] r[x])@ == t
}

/// Among the first `kmax` association rows, some row references the song
/// with id `sid` and a tag whose name is `t`.
pub open spec fn row_names_tag(
    tags: Seq<Tag>,
    rows: Seq<SongTag>,
    sid: i32,
    kmax: int,
    t: Seq<char>,
) -> bool {
    exists|k: int, j: int|
        0 <= k < kmax && 0 <= j < tags.len() && (#[trigger] rows[k]).song_id == sid
            && (#[trigger] tags[j]).tag_id == rows[k].tag_id && tags[j].tag_name@ == t
}

#[verifier::spinoff_prover]
proof fn lemma_vec_has_name_push(r: Seq<String>, s: String)
    ensures
        forall|t: Seq<char>| vec_has_name(r.push(s), t) == (vec_has_name(r, t) || t == s@),
{
    assert forall|t: Seq<char>|
        vec_has_name(r.push(s), t) == (vec_has_name(r, t) || t == s@) by {
        if vec_has_name(r.push(s), t) {
            let x = choose|x: int| 0 <= x < r.push(s).len() && (#[trigger] r.push(s)[x])@ == t;
            if x < r.len() {
                assert(r[x]@ == t);
            } else {
                assert(t == s@);
            }
        }
        if vec_has_name(r, t) {
            let x = choose|x: int| 0 <= x < r.len() && (#[trigger] r[x])@ == t;
            assert(r.push(s)[x]@ == t);
        }
        if t == s@ {
            assert(r.push(s)[r.len() as int]@ == t);
        }
    }
}

/// Returns the names of all tags attached to the song with this URI, in the
/// order of the association rows; an unknown URI yields the empty vector,
/// not an error.
pub fn query_tags_for_song_uri(store: &TagStore, uri: &str) -> (r: Vec<String>)
    requires
        store.wf(),
    ensures
        forall|t: Seq<char>|
            #[trigger] store@.links.contains((uri@, t)) == vec_has_name(r@, t),
        forall|x: int, y: int| 0 <= x < y < r@.len() ==> r@[x]@ != r@[y]@,
{
    let mut r: Vec<String> = Vec::new();
    let si = match store.find_song_idx(uri) {
        Some(i) => i,
        None => {
            proof {
                assert forall|t: Seq<char>| !(#[trigger] store@.links.contains((uri@, t))) by {
                    if store@.links.contains((uri@, t)) {
                        let (i, j, k): (int, int, int) = choose|i: int, j: int, k: int|
                            linked_at(store.songs@, store.tags@, store.song_tags@, uri@, t, i, j, k);
                        assert(seq_has_song(store.songs@, uri@));
                    }
                }
                assert forall|t: Seq<char>| !vec_has_name(r@, t) by {}
            }
            return r;
        },
    };
    let sid = store.songs[si].song_id;
    let n = store.song_tags.len();
    let mut k: usize = 0;
    while k < n
        invariant
            store.wf(),
            n == store.song_tags@.len(),
            k <= n,
            si < store.songs@.len(),
            store.songs@[si as int].song_uri@ == uri@,
            sid == store.songs@[si as int].song_id,
            forall|t: Seq<char>|
                #[trigger] vec_has_name(r@, t) == row_names_tag(
                    store.tags@,
                    store.song_tags@,
                    sid,
                    k as int,
                    t,
                ),
            forall|x: int, y: int| 0 <= x < y < r@.len() ==> r@[x]@ != r@[y]@,
        decreases n - k,
    {
        let ghost r_old = r@;
        if store.song_tags[k].song_id == sid {
            let tid = store.song_tags[k].tag_id;
            let tj = match store.find_tag_idx_by_id(tid) {
                Some(j) => j,
                None => {
                    // cannot happen: the store is well formed, so the row
                    // references an existing tag
                    proof {
                        assert(some_tag_has_id(store.tags@, tid));
                        let j = choose|j: int|
                            0 <= j < store.tags@.len() && (#[trigger] store.tags@[j]).tag_id == tid;
                        assert(false);
                    }
                    return r;
                },
            };
            let name = store.tags[tj].tag_name.clone();
            proof {
                // the name is new in r: an earlier occurrence would need an
                // earlier row for the same (song, tag) pair
                assert(name@ == store.tags@[tj as int].tag_name@);
                if vec_has_name(r@, name@) {
                    let (k2, j2): (int, int) = choose|k2: int, j2: int|
                        0 <= k2 < k as int && 0 <= j2 < store.tags@.len()
                            && (#[trigger] store.song_tags@[k2]).song_id == sid
                            && (#[trigger] store.tags@[j2]).tag_id == store.song_tags@[k2].tag_id
                            && store.tags@[j2].tag_name@ == name@;
                    assert(j2 == tj as int);
                    assert(store.song_tags@[k2].song_id == store.song_tags@[k as int].song_id
                        && store.song_tags@[k2].tag_id == store.song_tags@[k as int].tag_id);
                    assert(k2 == k as int);
                    assert(false);
                }
                lemma_vec_has_name_push(r@, name);
            }
            r.push(name);
            proof {
                assert forall|t: Seq<char>|
                    #[trigger] vec_has_name(r@, t) == row_names_tag(
                        store.tags@,
                        store.song_tags@,
                        sid,
                        k as int + 1,
                        t,
                    ) by {
                    if vec_has_name(r@, t) {
                        if vec_has_name(r_old, t) {
                            let (k2, j2): (int, int) = choose|k2: int, j2: int|
                                0 <= k2 < k as int && 0 <= j2 < store.tags@.len()
                                    && (#[trigger] store.song_tags@[k2]).song_id == sid
                                    && (#[trigger] store.tags@[j2]).tag_id
                                        == store.song_tags@[k2].tag_id
                                    && store.tags@[j2].tag_name@ == t;
                            assert(row_names_tag(store.tags@, store.song_tags@, sid, k as int + 1, t));
                        } else {
                            assert(t == store.tags@[tj as int].tag_name@);
                            assert((0 <= k as int && (k as int) < k as int + 1) && (0 <= tj as int
                                && (tj as int) < store.tags@.len())
                                && store.song_tags@[k as int].song_id == sid
                                && store.tags@[tj as int].tag_id == store.song_tags@[k as int].tag_id
                                && store.tags@[tj as int].tag_name@ == t);
                        }
                    }
                    if row_names_tag(store.tags@, store.song_tags@, sid, k as int + 1, t) {
                        let (k2, j2): (int, int) = choose|k2: int, j2: int|
                            0 <= k2 < k as int + 1 && 0 <= j2 < store.tags@.len()
                                && (#[trigger] store.song_tags@[k2]).song_id == sid
                                && (#[trigger] store.tags@[j2]).tag_id == store.song_tags@[k2].tag_id
                                && store.tags@[j2].tag_name@ == t;
                        if k2 < k as int {
                            assert(row_names_tag(store.tags@, store.song_tags@, sid, k as int, t));
                            assert(vec_has_name(r_old, t));
                        } else {
                            assert(j2 == tj as int);
                            assert(t == name@);
                        }
                        assert(vec_has_name(r@, t));
                    }
                }
            }
        } else {
            proof {
                assert forall|t: Seq<char>|
                    #[trigger] vec_has_name(r@, t) == row_names_tag(
                        store.tags@,
                        store.song_tags@,
                        sid,
                        k as int + 1,
                        t,
                    ) by {
                    if row_names_tag(store.tags@, store.song_tags@, sid, k as int + 1, t) {
                        let (k2, j2): (int, int) = choose|k2: int, j2: int|
                            0 <= k2 < k as int + 1 && 0 <= j2 < store.tags@.len()
                                && (#[trigger] store.song_tags@[k2]).song_id == sid
                                && (#[trigger] store.tags@[j2]).tag_id == store.song_tags@[k2].tag_id
                                && store.tags@[j2].tag_name@ == t;
                        assert(k2 != k as int);
                        assert(row_names_tag(store.tags@, store.song_tags@, sid, k as int, t));
                    }
                    if vec_has_name(r@, t) {
                        let (k2, j2): (int, int) = choose|k2: int, j2: int|
                            0 <= k2 < k as int && 0 <= j2 < store.tags@.len()
                                && (#[trigger] store.song_tags@[k2]).song_id == sid
                                && (#[trigger] store.tags@[j2]).tag_id == store.song_tags@[k2].tag_id
                                && store.tags@[j2].tag_name@ == t;
                        assert(row_names_tag(store.tags@, store.song_tags@, sid, k as int + 1, t));
                    }
                }
            }
        }
        k += 1;
    }
    proof {
        assert forall|t: Seq<char>|
            #[trigger] store@.links.contains((uri@, t)) == vec_has_name(r@, t) by {
            if store@.links.contains((uri@, t)) {
                let (i, j, k2): (int, int, int) = choose|i: int, j: int, k2: int|
                    linked_at(store.songs@, store.tags@, store.song_tags@, uri@, t, i, j, k2);
                assert(i == si as int);
                assert(store.song_tags@[k2].song_id == sid);
                assert(row_names_tag(store.tags@, store.song_tags@, sid, n as int, t));
            }
            if vec_has_name(r@, t) {
                let (k2, j2): (int, int) = choose|k2: int, j2: int|
                    0 <= k2 < n as int && 0 <= j2 < store.tags@.len()
                        && (#[trigger] store.song_tags@[k2]).song_id == sid
                        && (#[trigger] store.tags@[j2]).tag_id == store.song_tags@[k2].tag_id
                        && store.tags@[j2].tag_name@ == t;
                assert(linked_at(
                    store.songs@,
                    store.tags@,
                    store.song_tags@,
                    uri@,
                    t,
                    si as int,
                    j2,
                    k2,
                ));
            }
        }
    }
    r
}

/// Returns the names of all tags, one per tag row, in table order.
pub fn get_all_tags(store: &TagStore) -> (r: Vec<String>)
    requires
        store.wf(),
    ensures
        r@.len() == store.tags@.len(),
        forall|x: int| 0 <= x < r@.len() ==> (#[trigger] r@[x])@ == store.tags@[x].tag_name@,
        forall|x: int, y: int| 0 <= x < y < r@.len() ==> r@[x]@ != r@[y]@,
{
    let n = store.tags.len();
    let mut r: Vec<String> = Vec::new();
    let mut j: usize = 0;
    while j < n
        invariant
            store.wf(),
            n == store.tags@.len(),
            j <= n,
            r@.len() == j,
            forall|x: int| 0 <= x < j ==> (#[trigger] r@[x])@ == store.tags@[x].tag_name@,
        decreases n - j,
    {
        r.push(store.tags[j].tag_name.clone());
        j += 1;
    }
    r
}

/// Inserts a tag row with this name unless one already exists; inserting a
/// duplicate name is a silent no-op, not an error.
pub fn add_new_tag(store: &mut TagStore, tag: &str)
    requires
        old(store).wf(),
        old(store).next_tag_id < i32::MAX,
    ensures
        final(store).wf(),
        final(store)@ == create_tag_model(old(store)@, tag@),
{
    let ghost m0 = store@;
    match store.find_tag_idx(tag) {
        Some(_) => {
            proof {
                assert(m0.tags.contains(tag@));
                assert(store@.tags =~= create_tag_model(m0, tag@).tags);
                assert(store@ =~= create_tag_model(m0, tag@));
            }
        },
        None => {
            let tg = Tag { tag_id: store.next_tag_id, tag_name: tag.to_owned() };
            let ghost tgv = tg;
            proof {
                lemma_tags_distinct_push(store.tags@, tgv, store.next_tag_id as int);
                lemma_ref_ok_push_tag(store.songs@, store.tags@, store.song_tags@, tgv);
                assert forall|k: int|
                    0 <= k < store.song_tags@.len() implies (#[trigger] store.song_tags@[k]).tag_id
                    != tgv.tag_id by {
                    assert(some_tag_has_id(store.tags@, store.song_tags@[k].tag_id));
                    let j = choose|j: int|
                        0 <= j < store.tags@.len() && (#[trigger] store.tags@[j]).tag_id
                            == store.song_tags@[k].tag_id;
                }
                lemma_links_push_tag(store.songs@, store.tags@, store.song_tags@, tgv);
                lemma_has_tag_push(store.tags@, tgv);
            }
            store.tags.push(tg);
            store.next_tag_id = store.next_tag_id + 1;
            proof {
                assert forall|j: int|
                    0 <= j < store.tags@.len() implies (#[trigger] store.tags@[j]).tag_id
                    < store.next_tag_id by {
                    if j < store.tags@.len() - 1 {
                        assert(store.tags@[j] == old(store).tags@[j]);
                    }
                }
                assert(store@.songs =~= create_tag_model(m0, tag@).songs);
                assert forall|t: Seq<char>|
                    store@.tags.contains(t) == create_tag_model(m0, tag@).tags.contains(t) by {
                    assert(seq_has_tag(old(store).tags@.push(tgv), t) == (seq_has_tag(
                        old(store).tags@,
                        t,
                    ) || t == tgv.tag_name@));
                }
                assert(store@.tags =~= create_tag_model(m0, tag@).tags);
                assert forall|p: (Seq<char>, Seq<char>)|
                    store@.links.contains(p) == create_tag_model(m0, tag@).links.contains(p) by {
                    assert(seq_linked(
                        old(store).songs@,
                        old(store).tags@.push(tgv),
                        old(store).song_tags@,
                        p.0,
                        p.1,
                    ) == seq_linked(
                        old(store).songs@,
                        old(store).tags@,
                        old(store).song_tags@,
                        p.0,
                        p.1,
                    ));
                }
                assert(store@.links =~= create_tag_model(m0, tag@).links);
                assert(store@ =~= create_tag_model(m0, tag@));
            }
        },
    }
}

/// Attaches the named tag to the song with this URI, creating the song row
/// and the tag row first if either is absent; attaching an already attached
/// tag is a no-op, so the call is idempotent.
pub fn add_tag_for_song_uri(store: &mut TagStore, uri: &str, tag_name: &str)
    requires
        old(store).wf(),
        old(store).next_song_id < i32::MAX,
        old(store).next_tag_id < i32::MAX,
    ensures
        final(store).wf(),
        final(store)@ == attach_model(old(store)@, uri@, tag_name@),
{
    let ghost m0 = store@;

    // create song if needed
    let si: usize;
    match store.find_song_idx(uri) {
        Some(i) => {
            si = i;
            proof {
                assert(m0.songs.contains(uri@));
                assert(store@.songs =~= m0.songs.insert(uri@));
            }
        },
        None => {
            let s = Song { song_id: store.next_song_id, song_uri: uri.to_owned() };
            let ghost sv = s;
            proof {
                lemma_songs_distinct_push(store.songs@, sv, store.next_song_id as int);
                lemma_ref_ok_push_song(store.songs@, store.tags@, store.song_tags@, sv);
                lemma_no_row_for_fresh_song_id(
                    store.songs@,
                    store.tags@,
                    store.song_tags@,
                    sv.song_id,
                );
                lemma_links_push_song(store.songs@, store.tags@, store.song_tags@, sv);
                lemma_has_song_push(store.songs@, sv);
            }
            si = store.songs.len();
            store.songs.push(s);
            store.next_song_id = store.next_song_id + 1;
            proof {
                assert forall|i: int|
                    0 <= i < store.songs@.len() implies (#[trigger] store.songs@[i]).song_id
                    < store.next_song_id by {
                    if i < store.songs@.len() - 1 {
                        assert(store.songs@[i] == old(store).songs@[i]);
                    }
                }
                assert forall|u: Seq<char>|
                    store@.songs.contains(u) == m0.songs.insert(uri@).contains(u) by {
                    assert(seq_has_song(old(store).songs@.push(sv), u) == (seq_has_song(
                        old(store).songs@,
                        u,
                    ) || u == sv.song_uri@));
                }
                assert(store@.songs =~= m0.songs.insert(uri@));
                assert forall|p: (Seq<char>, Seq<char>)|
                    store@.links.contains(p) == m0.links.contains(p) by {
                    assert(seq_linked(
                        old(store).songs@.push(sv),
                        old(store).tags@,
                        old(store).song_tags@,
                        p.0,
                        p.1,
                    ) == seq_linked(
                        old(store).songs@,
                        old(store).tags@,
                        old(store).song_tags@,
                        p.0,
                        p.1,
                    ));
                }
                assert(store@.links =~= m0.links);
            }
        },
    }
    let sid = store.songs[si].song_id;
    let ghost m1 = store@;
    let ghost songs1 = store.songs@;
    proof {
        assert(m1.songs == m0.songs.insert(uri@));
        assert(store@.tags =~= m0.tags);
        assert(m1.links == m0.links);
        assert(store.wf());
    }

    // create tag if needed
    let tj: usize;
    match store.find_tag_idx(tag_name) {
        Some(j) => {
            tj = j;
            proof {
                assert(m1.tags.contains(tag_name@));
                assert(store@.tags =~= m1.tags.insert(tag_name@));
            }
        },
        None => {
            let tg = Tag { tag_id: store.next_tag_id, tag_name: tag_name.to_owned() };
            let ghost tgv = tg;
            proof {
                lemma_tags_distinct_push(store.tags@, tgv, store.next_tag_id as int);
                lemma_ref_ok_push_tag(store.songs@, store.tags@, store.song_tags@, tgv);
                lemma_no_row_for_fresh_tag_id(
                    store.songs@,
                    store.tags@,
                    store.song_tags@,
                    tgv.tag_id,
                );
                lemma_links_push_tag(store.songs@, store.tags@, store.song_tags@, tgv);
                lemma_has_tag_push(store.tags@, tgv);
            }
            tj = store.tags.len();
            store.tags.push(tg);
            store.next_tag_id = store.next_tag_id + 1;
            proof {
                assert forall|j: int|
                    0 <= j < store.tags@.len() implies (#[trigger] store.tags@[j]).tag_id
                    < store.next_tag_id by {
                    if j < store.tags@.len() - 1 {
                        assert(store.tags@[j] == old(store).tags@[j]);
                    }
                }
                assert forall|t: Seq<char>|
                    store@.tags.contains(t) == m1.tags.insert(tag_name@).contains(t) by {
                    assert(seq_has_tag(old(store).tags@.push(tgv), t) == (seq_has_tag(
                        old(store).tags@,
                        t,
                    ) || t == tgv.tag_name@));
                }
                assert(store@.tags =~= m1.tags.insert(tag_name@));
                assert forall|p: (Seq<char>, Seq<char>)|
                    store@.links.contains(p) == m1.links.contains(p) by {
                    assert(seq_linked(
                        store.songs@,
                        old(store).tags@.push(tgv),
                        store.song_tags@,
                        p.0,
                        p.1,
                    ) == seq_linked(
                        store.songs@,
                        old(store).tags@,
                        store.song_tags@,
                        p.0,
                        p.1,
                    ));
                }
                assert(store@.links =~= m1.links);
            }
        },
    }
    let tid = store.tags[tj].tag_id;
    let ghost m2 = store@;
    proof {
        assert(store.songs@ == songs1);
        assert(m2.songs == m1.songs);
        assert(m2.tags == m1.tags.insert(tag_name@));
        assert(m2.links == m1.links);
        assert(store.wf());
    }

    // create link if needed
    match store.find_row_idx(sid, tid) {
        Some(_k) => {
            proof {
                assert(linked_at(
                    store.songs@,
                    store.tags@,
                    store.song_tags@,
                    uri@,
                    tag_name@,
                    si as int,
                    tj as int,
                    _k as int,
                ));
                assert(m2.links.contains((uri@, tag_name@)));
                assert(store@.links =~= m2.links.insert((uri@, tag_name@)));
                assert(store@ =~= attach_model(m0, uri@, tag_name@));
            }
        },
        None => {
            let row = SongTag { song_id: sid, tag_id: tid };
            proof {
                lemma_rows_distinct_push(store.song_tags@, row);
                lemma_ref_ok_push_row(
                    store.songs@,
                    store.tags@,
                    store.song_tags@,
                    row,
                    si as int,
                    tj as int,
                );
                lemma_links_push_row(
                    store.songs@,
                    store.tags@,
                    store.song_tags@,
                    row,
                    si as int,
                    tj as int,
                );
            }
            store.song_tags.push(row);
            proof {
                assert forall|p: (Seq<char>, Seq<char>)|
                    store@.links.contains(p) == m2.links.insert((uri@, tag_name@)).contains(p) by {
                    assert(seq_linked(
                        store.songs@,
                        store.tags@,
                        old(store).song_tags@.push(row),
                        p.0,
                        p.1,
                    ) == (seq_linked(store.songs@, store.tags@, old(store).song_tags@, p.0, p.1) || (
                    p.0 == store.songs@[si as int].song_uri@ && p.1
                        == store.tags@[tj as int].tag_name@)));
                }
                assert(store@.links =~= m2.links.insert((uri@, tag_name@)));
                assert(store@.songs =~= m2.songs);
                assert(store@.tags =~= m2.tags);
                assert(store@ =~= attach_model(m0, uri@, tag_name@));
            }
        },
    }
}

/// Removes the association between this URI and this tag name, then deletes
/// the song row if the song is left with no tags at all; a pair with no
/// existing association is a no-op on the association table.
pub fn remove_tag_from_song_uri(store: &mut TagStore, uri: &str, tag_name: &str)
    requires
        old(store).wf(),
    ensures
        final(store).wf(),
        final(store)@ == detach_model(old(store)@, uri@, tag_name@),
{
    let ghost m0 = store@;
    let si_opt = store.find_song_idx(uri);
    let tj_opt = store.find_tag_idx(tag_name);

    // delete the association row, if both sides and the row exist
    match (si_opt, tj_opt) {
        (Some(si), Some(tj)) => {
            let sid = store.songs[si].song_id;
            let tid = store.tags[tj].tag_id;
            match store.find_row_idx(sid, tid) {
                Some(k0) => {
                    proof {
                        lemma_links_remove_row(
                            store.songs@,
                            store.tags@,
                            store.song_tags@,
                            k0 as int,
                            si as int,
                            tj as int,
                        );
                        lemma_rows_distinct_remove(store.song_tags@, k0 as int);
                        lemma_ref_ok_remove_row(
                            store.songs@,
                            store.tags@,
                            store.song_tags@,
                            k0 as int,
                        );
                    }
                    store.song_tags.remove(k0);
                    proof {
                        assert forall|p: (Seq<char>, Seq<char>)|
                            store@.links.contains(p) == m0.links.remove(
                                (uri@, tag_name@),
                            ).contains(p) by {
                            assert(seq_linked(
                                store.songs@,
                                store.tags@,
                                old(store).song_tags@.remove(k0 as int),
                                p.0,
                                p.1,
                            ) == (seq_linked(
                                store.songs@,
                                store.tags@,
                                old(store).song_tags@,
                                p.0,
                                p.1,
                            ) && !(p.0 == store.songs@[si as int].song_uri@ && p.1
                                == store.tags@[tj as int].tag_name@)));
                        }
                        assert(store@.links =~= m0.links.remove((uri@, tag_name@)));
                    }
                },
                None => {
                    proof {
                        if m0.links.contains((uri@, tag_name@)) {
                            let (i, j, k): (int, int, int) = choose|i: int, j: int, k: int|
                                linked_at(
                                    store.songs@,
                                    store.tags@,
                                    store.song_tags@,
                                    uri@,
                                    tag_name@,
                                    i,
                                    j,
                                    k,
                                );
                            assert(i == si as int);
                            assert(j == tj as int);
                            assert(store.song_tags@[k].song_id == sid
                                && store.song_tags@[k].tag_id == tid);
                            assert(false);
                        }
                        assert(store@.links =~= m0.links.remove((uri@, tag_name@)));
                    }
                },
            }
        },
        _ => {
            proof {
                if m0.links.contains((uri@, tag_name@)) {
                    let (i, j, k): (int, int, int) = choose|i: int, j: int, k: int|
                        linked_at(
                            store.songs@,
                            store.tags@,
                            store.song_tags@,
                            uri@,
                            tag_name@,
                            i,
                            j,
                            k,
                        );
                    assert(seq_has_song(store.songs@, uri@));
                    assert(seq_has_tag(store.tags@, tag_name@));
                    assert(false);
                }
                assert(store@.links =~= m0.links.remove((uri@, tag_name@)));
            }
        },
    }
    let ghost m1 = store@;
    proof {
        assert(m1.links == m0.links.remove((uri@, tag_name@)));
        assert(store@.songs =~= m0.songs);
        assert(store@.tags =~= m0.tags);
        assert(m1.songs == m0.songs);
        assert(m1.tags == m0.tags);
        assert(store.wf());
        assert(store.songs@ == old(store).songs@);
        assert(store.tags@ == old(store).tags@);
    }

    // if the song is now left with no tags, delete its row
    match si_opt {
        Some(si) => {
            let sid = store.songs[si].song_id;
            if !store.any_row_for_song(sid) {
                proof {
                    lemma_links_remove_song(store.songs@, store.tags@, store.song_tags@, si as int);
                    lemma_has_song_remove(store.songs@, si as int);
                    lemma_songs_distinct_remove(store.songs@, si as int);
                    lemma_ref_ok_remove_song(store.songs@, store.tags@, store.song_tags@, si as int);
                    // no link can mention this URI any more
                    assert forall|t2: Seq<char>| !(#[trigger] m1.links.contains((uri@, t2))) by {
                        if m1.links.contains((uri@, t2)) {
                            let (i, j, k): (int, int, int) = choose|i: int, j: int, k: int|
                                linked_at(
                                    store.songs@,
                                    store.tags@,
                                    store.song_tags@,
                                    uri@,
                                    t2,
                                    i,
                                    j,
                                    k,
                                );
                            assert(i == si as int);
                            assert(store.song_tags@[k].song_id == sid);
                            assert(false);
                        }
                    }
                }
                let ghost songs_before = store.songs@;
                store.songs.remove(si);
                proof {
                    assert forall|i: int|
                        0 <= i < store.songs@.len() implies (#[trigger] store.songs@[i]).song_id
                        < store.next_song_id by {
                        let iold: int = if i < si as int {
                            i
                        } else {
                            i + 1
                        };
                        assert(store.songs@[i] == songs_before[iold]);
                    }
                    assert forall|u: Seq<char>|
                        store@.songs.contains(u) == m1.songs.remove(uri@).contains(u) by {
                        assert(seq_has_song(songs_before.remove(si as int), u) == (seq_has_song(
                            songs_before,
                            u,
                        ) && u != songs_before[si as int].song_uri@));
                    }
                    assert(store@.songs =~= m1.songs.remove(uri@));
                    assert forall|p: (Seq<char>, Seq<char>)|
                        store@.links.contains(p) == m1.links.contains(p) by {
                        assert(seq_linked(
                            songs_before.remove(si as int),
                            store.tags@,
                            store.song_tags@,
                            p.0,
                            p.1,
                        ) == seq_linked(songs_before, store.tags@, store.song_tags@, p.0, p.1));
                    }
                    assert(store@.links =~= m1.links);
                    assert(store@.tags =~= m1.tags);
                    assert(store@ =~= detach_model(m0, uri@, tag_name@));
                }
            } else {
                proof {
                    // some association for this song remains, so some link
                    // with this URI remains, and the song row stays
                    let k = choose|k: int|
                        0 <= k < store.song_tags@.len() && (#[trigger] store.song_tags@[k]).song_id
                            == sid;
                    assert(some_tag_has_id(store.tags@, store.song_tags@[k].tag_id));
                    let j = choose|j: int|
                        0 <= j < store.tags@.len() && (#[trigger] store.tags@[j]).tag_id
                            == store.song_tags@[k].tag_id;
                    assert(linked_at(
                        store.songs@,
                        store.tags@,
                        store.song_tags@,
                        uri@,
                        store.tags@[j].tag_name@,
                        si as int,
                        j,
                        k,
                    ));
                    assert(m1.links.contains((uri@, store.tags@[j].tag_name@)));
                    assert(store@ =~= detach_model(m0, uri@, tag_name@));
                }
            }
        },
        None => {
            proof {
                // the song does not exist: no link mentions the URI and
                // removing its row from the model is a no-op
                assert forall|t2: Seq<char>| !(#[trigger] m1.links.contains((uri@, t2))) by {
                    if m1.links.contains((uri@, t2)) {
                        let (i, j, k): (int, int, int) = choose|i: int, j: int, k: int|
                            linked_at(store.songs@, store.tags@, store.song_tags@, uri@, t2, i, j, k);
                        assert(seq_has_song(store.songs@, uri@));
                        assert(false);
                    }
                }
                assert(!m1.songs.contains(uri@));
                assert(store@.songs =~= m1.songs.remove(uri@));
                assert(store@ =~= detach_model(m0, uri@, tag_name@));
            }
        },
    }
}

/// Deletes the tag row with this name together with every association row
/// that carries it; songs are left untouched, so songs whose last tag this
/// was remain as orphans until a cleanup pass runs. Deleting an unknown name
/// is a silent no-op.
pub fn delete_tag(store: &mut TagStore, tag: &str)
    requires
        old(store).wf(),
    ensures
        final(store).wf(),
        final(store)@ == delete_tag_model(old(store)@, tag@),
{
    let ghost m0 = store@;

    // find the tag row for this name
    let tj = match store.find_tag_idx(tag) {
        Some(j) => j,
        None => {
            proof {
                assert(!m0.tags.contains(tag@));
                assert(store@.tags =~= m0.tags.remove(tag@));
                assert forall|p: (Seq<char>, Seq<char>)|
                    store@.links.contains(p) == delete_tag_model(m0, tag@).links.contains(p) by {
                    if store@.links.contains(p) && p.1 == tag@ {
                        let (i, j, k): (int, int, int) = choose|i: int, j: int, k: int|
                            linked_at(store.songs@, store.tags@, store.song_tags@, p.0, p.1, i, j, k);
                        assert(seq_has_tag(store.tags@, tag@));
                        assert(false);
                    }
                }
                assert(store@.links =~= delete_tag_model(m0, tag@).links);
                assert(store@ =~= delete_tag_model(m0, tag@));
            }
            return ;
        },
    };
    let tid = store.tags[tj].tag_id;

    // delete this tag's rows from the association table
    let n = store.song_tags.len();
    let mut kept: Vec<SongTag> = Vec::new();
    let mut k: usize = 0;
    while k < n
        invariant
            store.wf(),
            n == store.song_tags@.len(),
            k <= n,
            (tj as int) < store.tags@.len(),
            tid == store.tags@[tj as int].tag_id,
            forall|x: int|
                0 <= x < kept@.len() ==> (#[trigger] kept@[x]).tag_id != tid && exists|k2: int|
                    0 <= k2 < k && (#[trigger] store.song_tags@[k2]) == kept@[x],
            forall|k2: int|
                0 <= k2 < k && (#[trigger] store.song_tags@[k2]).tag_id != tid ==> row_in(
                    kept@,
                    store.song_tags@[k2],
                ),
            rows_distinct(kept@),
        decreases n - k,
    {
        let ghost kept_old = kept@;
        let row = store.song_tags[k];
        if row.tag_id != tid {
            proof {
                assert forall|x: int|
                    0 <= x < kept_old.len() implies !((#[trigger] kept_old[x]).song_id
                    == row.song_id && kept_old[x].tag_id == row.tag_id) by {
                    let k2 = choose|k2: int|
                        0 <= k2 < k as int && (#[trigger] store.song_tags@[k2]) == kept_old[x];
                    assert(k2 != k as int);
                }
                lemma_rows_distinct_push(kept_old, row);
            }
            kept.push(row);
            proof {
                assert forall|x: int|
                    0 <= x < kept@.len() implies (#[trigger] kept@[x]).tag_id != tid
                    && exists|k2: int|
                        0 <= k2 < (k as int) + 1 && (#[trigger] store.song_tags@[k2]) == kept@[x] by {
                    if x < kept_old.len() {
                        assert(kept@[x] == kept_old[x]);
                        let k2 = choose|k2: int|
                            0 <= k2 < k as int && (#[trigger] store.song_tags@[k2]) == kept_old[x];
                        assert(store.song_tags@[k2] == kept@[x]);
                    } else {
                        assert(kept@[x] == row);
                        assert(store.song_tags@[k as int] == kept@[x]);
                    }
                }
                assert forall|k2: int|
                    0 <= k2 < (k as int) + 1 && (#[trigger] store.song_tags@[k2]).tag_id != tid
                    implies row_in(kept@, store.song_tags@[k2]) by {
                    if k2 < k as int {
                        assert(row_in(kept_old, store.song_tags@[k2]));
                        let x = choose|x: int|
                            0 <= x < kept_old.len() && kept_old[x] == store.song_tags@[k2];
                        assert(kept@[x] == store.song_tags@[k2]);
                    } else {
                        assert(kept@[kept_old.len() as int] == store.song_tags@[k2]);
                    }
                }
            }
        } else {
            proof {
                assert forall|x: int|
                    0 <= x < kept@.len() implies (#[trigger] kept@[x]).tag_id != tid
                    && exists|k2: int|
                        0 <= k2 < (k as int) + 1 && (#[trigger] store.song_tags@[k2]) == kept@[x] by {
                    let k2 = choose|k2: int|
                        0 <= k2 < k as int && (#[trigger] store.song_tags@[k2]) == kept@[x];
                    assert(0 <= k2 < (k as int) + 1 && store.song_tags@[k2] == kept@[x]);
                }
            }
        }
        k += 1;
    }
    let ghost rows_old = store.song_tags@;
    let ghost keptv = kept@;
    proof {
        assert forall|x: int|
            0 <= x < keptv.len() implies (#[trigger] keptv[x]).tag_id != tid
            && row_in(rows_old, keptv[x]) by {
            let k2 = choose|k2: int|
                0 <= k2 < n as int && (#[trigger] store.song_tags@[k2]) == keptv[x];
            assert(rows_old[k2] == keptv[x]);
        }
        lemma_links_filter_rows(store.songs@, store.tags@, rows_old, keptv, tj as int);
        lemma_ref_ok_subset(store.songs@, store.tags@, rows_old, keptv);
    }
    store.song_tags = kept;
    proof {
        assert(store.song_tags@ == keptv);
        assert forall|p: (Seq<char>, Seq<char>)|
            store@.links.contains(p) == (m0.links.contains(p) && p.1 != tag@) by {
            assert(seq_linked(store.songs@, store.tags@, keptv, p.0, p.1) == (seq_linked(
                store.songs@,
                store.tags@,
                rows_old,
                p.0,
                p.1,
            ) && p.1 != store.tags@[tj as int].tag_name@));
        }
        assert(store.wf());
    }
    let ghost m1 = store@;

    // delete the tag row itself
    let ghost tags_before = store.tags@;
    proof {
        assert forall|k2: int|
            0 <= k2 < store.song_tags@.len() implies (#[trigger] store.song_tags@[k2]).tag_id
            != tags_before[tj as int].tag_id by {}
        lemma_links_remove_tag(store.songs@, store.tags@, store.song_tags@, tj as int);
        lemma_has_tag_remove(store.tags@, tj as int);
        lemma_tags_distinct_remove(store.tags@, tj as int);
        lemma_ref_ok_remove_tag(store.songs@, store.tags@, store.song_tags@, tj as int);
    }
    store.tags.remove(tj);
    proof {
        assert forall|j: int|
            0 <= j < store.tags@.len() implies (#[trigger] store.tags@[j]).tag_id
            < store.next_tag_id by {
            let jold: int = if j < tj as int {
                j
            } else {
                j + 1
            };
            assert(store.tags@[j] == tags_before[jold]);
        }
        assert forall|t: Seq<char>|
            store@.tags.contains(t) == m0.tags.remove(tag@).contains(t) by {
            assert(seq_has_tag(tags_before.remove(tj as int), t) == (seq_has_tag(tags_before, t)
                && t != tags_before[tj as int].tag_name@));
        }
        assert(store@.tags =~= m0.tags.remove(tag@));
        assert forall|p: (Seq<char>, Seq<char>)|
            store@.links.contains(p) == delete_tag_model(m0, tag@).links.contains(p) by {
            assert(seq_linked(
                store.songs@,
                tags_before.remove(tj as int),
                store.song_tags@,
                p.0,
                p.1,
            ) == seq_linked(store.songs@, tags_before, store.song_tags@, p.0, p.1));
            assert(m1.links.contains(p) == (m0.links.contains(p) && p.1 != tag@));
        }
        assert(store@.links =~= delete_tag_model(m0, tag@).links);
        assert(store@.songs =~= m0.songs);
        assert(store@ =~= delete_tag_model(m0, tag@));
    }
}

/// Deletes every song row that no association row references and returns how
/// many were deleted; run after a tag deletion to restore the rule that a
/// song lives only as long as it has a tag.
pub fn cleanup_songs(store: &mut TagStore) -> (removed: usize)
    requires
        old(store).wf(),
    ensures
        final(store).wf(),
        final(store)@ == cleanup_model(old(store)@),
        removed + final(store).songs@.len() == old(store).songs@.len(),
{
    let ghost m0 = store@;
    let n = store.songs.len();
    let mut kept: Vec<Song> = Vec::new();
    let mut removed: usize = 0;
    let mut i: usize = 0;
    while i < n
        invariant
            store.wf(),
            n == store.songs@.len(),
            i <= n,
            kept@.len() + removed == i,
            forall|x: int|
                0 <= x < kept@.len() ==> seq_has_row_for_song(
                    store.song_tags@,
                    (#[trigger] kept@[x]).song_id,
                ) && exists|i2: int|
                    0 <= i2 < i && (#[trigger] store.songs@[i2]).song_id == kept@[x].song_id
                        && store.songs@[i2].song_uri@ == kept@[x].song_uri@,
            forall|i2: int|
                0 <= i2 < i && seq_has_row_for_song(
                    store.song_tags@,
                    (#[trigger] store.songs@[i2]).song_id,
                ) ==> song_in(kept@, store.songs@[i2].song_id, store.songs@[i2].song_uri@),
            songs_distinct(kept@),
            forall|x: int|
                0 <= x < kept@.len() ==> (#[trigger] kept@[x]).song_id < store.next_song_id,
        decreases n - i,
    {
        let ghost kept_old = kept@;
        let sid = store.songs[i].song_id;
        if store.any_row_for_song(sid) {
            let song = Song { song_id: sid, song_uri: store.songs[i].song_uri.clone() };
            let ghost sv = song;
            proof {
                assert(sv.song_id == store.songs@[i as int].song_id);
                assert(sv.song_uri@ == store.songs@[i as int].song_uri@);
            }
            kept.push(song);
            proof {
                assert forall|x: int|
                    0 <= x < kept@.len() implies seq_has_row_for_song(
                    store.song_tags@,
                    (#[trigger] kept@[x]).song_id,
                ) && exists|i2: int|
                    0 <= i2 < (i as int) + 1 && (#[trigger] store.songs@[i2]).song_id
                        == kept@[x].song_id && store.songs@[i2].song_uri@ == kept@[x].song_uri@ by {
                    if x < kept_old.len() {
                        assert(kept@[x] == kept_old[x]);
                        let i2 = choose|i2: int|
                            0 <= i2 < i as int && (#[trigger] store.songs@[i2]).song_id
                                == kept_old[x].song_id && store.songs@[i2].song_uri@
                                == kept_old[x].song_uri@;
                        assert(0 <= i2 < (i as int) + 1 && store.songs@[i2].song_id
                            == kept@[x].song_id && store.songs@[i2].song_uri@
                            == kept@[x].song_uri@);
                    } else {
                        assert(kept@[x] == sv);
                        assert(store.songs@[i as int].song_id == kept@[x].song_id
                            && store.songs@[i as int].song_uri@ == kept@[x].song_uri@);
                    }
                }
                assert forall|i2: int|
                    0 <= i2 < (i as int) + 1 && seq_has_row_for_song(
                    store.song_tags@,
                    (#[trigger] store.songs@[i2]).song_id,
                ) implies song_in(kept@, store.songs@[i2].song_id, store.songs@[i2].song_uri@) by {
                    if i2 < i as int {
                        assert(song_in(
                            kept_old,
                            store.songs@[i2].song_id,
                            store.songs@[i2].song_uri@,
                        ));
                        let x = choose|x: int|
                            0 <= x < kept_old.len() && (#[trigger] kept_old[x]).song_id
                                == store.songs@[i2].song_id && kept_old[x].song_uri@
                                == store.songs@[i2].song_uri@;
                        assert(kept@[x] == kept_old[x]);
                        assert(kept@[x].song_id == store.songs@[i2].song_id && kept@[x].song_uri@
                            == store.songs@[i2].song_uri@);
                    } else {
                        assert(kept@[kept_old.len() as int] == sv);
                        assert(kept@[kept_old.len() as int].song_id == store.songs@[i2].song_id
                            && kept@[kept_old.len() as int].song_uri@
                            == store.songs@[i2].song_uri@);
                    }
                }
                assert forall|x: int, y: int|
                    0 <= x < kept@.len() && 0 <= y < kept@.len() && x != y implies (
                #[trigger] kept@[x]).song_uri@ != (#[trigger] kept@[y]).song_uri@ && kept@[x].song_id
                    != kept@[y].song_id by {
                    if x < kept_old.len() && y < kept_old.len() {
                        assert(kept@[x] == kept_old[x] && kept@[y] == kept_old[y]);
                    } else if x < kept_old.len() {
                        assert(kept@[x] == kept_old[x] && kept@[y] == sv);
                        let i2 = choose|i2: int|
                            0 <= i2 < i as int && (#[trigger] store.songs@[i2]).song_id
                                == kept_old[x].song_id && store.songs@[i2].song_uri@
                                == kept_old[x].song_uri@;
                        assert(i2 != i as int);
                    } else {
                        assert(kept@[x] == sv && kept@[y] == kept_old[y]);
                        let i2 = choose|i2: int|
                            0 <= i2 < i as int && (#[trigger] store.songs@[i2]).song_id
                                == kept_old[y].song_id && store.songs@[i2].song_uri@
                                == kept_old[y].song_uri@;
                        assert(i2 != i as int);
                    }
                }
            }
        } else {
            removed = removed + 1;
            proof {
                assert forall|x: int|
                    0 <= x < kept@.len() implies seq_has_row_for_song(
                    store.song_tags@,
                    (#[trigger] kept@[x]).song_id,
                ) && exists|i2: int|
                    0 <= i2 < (i as int) + 1 && (#[trigger] store.songs@[i2]).song_id
                        == kept@[x].song_id && store.songs@[i2].song_uri@ == kept@[x].song_uri@ by {
                    let i2 = choose|i2: int|
                        0 <= i2 < i as int && (#[trigger] store.songs@[i2]).song_id
                            == kept@[x].song_id && store.songs@[i2].song_uri@
                            == kept@[x].song_uri@;
                    assert(0 <= i2 < (i as int) + 1 && store.songs@[i2].song_id == kept@[x].song_id
                        && store.songs@[i2].song_uri@ == kept@[x].song_uri@);
                }
            }
        }
        i += 1;
    }
    let ghost songs_old = store.songs@;
    let ghost keptv = kept@;
    proof {
        // the link relation is untouched: every kept song mirrors an original
        // row, and every song a row references was kept
        assert forall|u: Seq<char>, t: Seq<char>|
            seq_linked(keptv, store.tags@, store.song_tags@, u, t) == seq_linked(
                songs_old,
                store.tags@,
                store.song_tags@,
                u,
                t,
            ) by {
            if seq_linked(keptv, store.tags@, store.song_tags@, u, t) {
                let (x, j, k): (int, int, int) = choose|x: int, j: int, k: int|
                    linked_at(keptv, store.tags@, store.song_tags@, u, t, x, j, k);
                let i2 = choose|i2: int|
                    0 <= i2 < n as int && (#[trigger] songs_old[i2]).song_id == keptv[x].song_id
                        && songs_old[i2].song_uri@ == keptv[x].song_uri@;
                assert(linked_at(songs_old, store.tags@, store.song_tags@, u, t, i2, j, k));
            }
            if seq_linked(songs_old, store.tags@, store.song_tags@, u, t) {
                let (i2, j, k): (int, int, int) = choose|i2: int, j: int, k: int|
                    linked_at(songs_old, store.tags@, store.song_tags@, u, t, i2, j, k);
                assert(store.song_tags@[k].song_id == songs_old[i2].song_id);
                assert(seq_has_row_for_song(store.song_tags@, songs_old[i2].song_id));
                assert(song_in(keptv, songs_old[i2].song_id, songs_old[i2].song_uri@));
                let x = choose|x: int|
                    0 <= x < keptv.len() && (#[trigger] keptv[x]).song_id == songs_old[i2].song_id
                        && keptv[x].song_uri@ == songs_old[i2].song_uri@;
                assert(linked_at(keptv, store.tags@, store.song_tags@, u, t, x, j, k));
            }
        }
        // referential integrity against the kept songs
        assert forall|k: int| 0 <= k < store.song_tags@.len() implies some_song_has_id(
            keptv,
            (#[trigger] store.song_tags@[k]).song_id,
        ) && some_tag_has_id(store.tags@, store.song_tags@[k].tag_id) by {
            assert(some_song_has_id(songs_old, store.song_tags@[k].song_id));
            let i2 = choose|i2: int|
                0 <= i2 < songs_old.len() && (#[trigger] songs_old[i2]).song_id
                    == store.song_tags@[k].song_id;
            assert(seq_has_row_for_song(store.song_tags@, songs_old[i2].song_id));
            assert(song_in(keptv, songs_old[i2].song_id, songs_old[i2].song_uri@));
            let x = choose|x: int|
                0 <= x < keptv.len() && (#[trigger] keptv[x]).song_id == songs_old[i2].song_id
                    && keptv[x].song_uri@ == songs_old[i2].song_uri@;
            assert(keptv[x].song_id == store.song_tags@[k].song_id);
            assert(some_tag_has_id(store.tags@, store.song_tags@[k].tag_id));
        }
    }
    store.songs = kept;
    proof {
        assert(store.songs@ == keptv);
        assert forall|u: Seq<char>|
            store@.songs.contains(u) == cleanup_model(m0).songs.contains(u) by {
            if seq_has_song(keptv, u) {
                let x = choose|x: int|
                    0 <= x < keptv.len() && (#[trigger] keptv[x].song_uri)@ == u;
                let i2 = choose|i2: int|
                    0 <= i2 < n as int && (#[trigger] songs_old[i2]).song_id == keptv[x].song_id
                        && songs_old[i2].song_uri@ == keptv[x].song_uri@;
                assert(seq_has_song(songs_old, u));
                let k = choose|k: int|
                    0 <= k < store.song_tags@.len() && (#[trigger] store.song_tags@[k]).song_id
                        == keptv[x].song_id;
                assert(some_tag_has_id(store.tags@, store.song_tags@[k].tag_id));
                let j = choose|j: int|
                    0 <= j < store.tags@.len() && (#[trigger] store.tags@[j]).tag_id
                        == store.song_tags@[k].tag_id;
                assert(linked_at(
                    songs_old,
                    store.tags@,
                    store.song_tags@,
                    u,
                    store.tags@[j].tag_name@,
                    i2,
                    j,
                    k,
                ));
                assert(m0.links.contains((u, store.tags@[j].tag_name@)));
            }
            if m0.songs.contains(u) && (exists|t: Seq<char>| m0.links.contains((u, t))) {
                let t = choose|t: Seq<char>| m0.links.contains((u, t));
                let (i2, j, k): (int, int, int) = choose|i2: int, j: int, k: int|
                    linked_at(songs_old, store.tags@, store.song_tags@, u, t, i2, j, k);
                assert(store.song_tags@[k].song_id == songs_old[i2].song_id);
                assert(seq_has_row_for_song(store.song_tags@, songs_old[i2].song_id));
                assert(song_in(keptv, songs_old[i2].song_id, songs_old[i2].song_uri@));
                let x = choose|x: int|
                    0 <= x < keptv.len() && (#[trigger] keptv[x]).song_id == songs_old[i2].song_id
                        && keptv[x].song_uri@ == songs_old[i2].song_uri@;
                assert(keptv[x].song_uri@ == u);
                assert(seq_has_song(keptv, u));
            }
        }
        assert(store@.songs =~= cleanup_model(m0).songs);
        assert forall|p: (Seq<char>, Seq<char>)|
            store@.links.contains(p) == m0.links.contains(p) by {
            assert(seq_linked(keptv, store.tags@, store.song_tags@, p.0, p.1) == seq_linked(
                songs_old,
                store.tags@,
                store.song_tags@,
                p.0,
                p.1,
            ));
        }
        assert(store@.links =~= cleanup_model(m0).links);
        assert(store@.tags =~= cleanup_model(m0).tags);
        assert(store@ =~= cleanup_model(m0));
    }
    removed
}

} // verus!
