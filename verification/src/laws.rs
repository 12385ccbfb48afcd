use vstd::prelude::*;
use crate::store::{
    TagStore, StoreModel, attach_model, create_tag_model, delete_tag_model, detach_model,
    cleanup_model, model_wf, seq_has_song, seq_has_tag, linked_at,
};

verus! {

/// Indices (i, j) witness that the row at `k` joins the song named `uri` to
/// the tag named `tag`.
pub open spec fn pair_row_at(s: TagStore, k: int, uri: Seq<char>, tag: Seq<char>) -> bool {
    exists|i: int, j: int| #[trigger] linked_at(s.songs@, s.tags@, s.song_tags@, uri, tag, i, j, k)
}

/// A well-formed store satisfies referential integrity at the model level:
/// every link joins an existing song to an existing tag.
pub proof fn lemma_view_model_wf(s: TagStore)
    requires
        s.wf(),
    ensures
        model_wf(s@),
{
    assert forall|p: (Seq<char>, Seq<char>)| #[trigger] s@.links.contains(p) implies s@.songs.contains(
        p.0,
    ) && s@.tags.contains(p.1) by {
        let (i, j, k): (int, int, int) = choose|i: int, j: int, k: int|
            linked_at(s.songs@, s.tags@, s.song_tags@, p.0, p.1, i, j, k);
        assert(seq_has_song(s.songs@, p.0));
        assert(seq_has_tag(s.tags@, p.1));
    }
}

/// Attaching a tag to a song twice leaves the store exactly as one attach
/// does: the second call is a no-op.
pub proof fn lemma_attach_idempotent(m: StoreModel, uri: Seq<char>, tag: Seq<char>)
    ensures
        attach_model(attach_model(m, uri, tag), uri, tag) == attach_model(m, uri, tag),
{
    let m1 = attach_model(m, uri, tag);
    assert(m1.songs.insert(uri) =~= m1.songs);
    assert(m1.tags.insert(tag) =~= m1.tags);
    assert(m1.links.insert((uri, tag)) =~= m1.links);
    assert(attach_model(m1, uri, tag) =~= m1);
}

/// In a well-formed store, a linked (song, tag) pair is joined by exactly
/// one association row: one row exists, and any two rows for the pair are
/// the same row.
pub proof fn lemma_one_row_per_link(s: TagStore, uri: Seq<char>, tag: Seq<char>)
    requires
        s.wf(),
        s@.links.contains((uri, tag)),
    ensures
        exists|k: int| #[trigger] pair_row_at(s, k, uri, tag),
        forall|k1: int, k2: int|
            #[trigger] pair_row_at(s, k1, uri, tag) && #[trigger] pair_row_at(s, k2, uri, tag)
                ==> k1 == k2,
{
    let (i, j, k): (int, int, int) = choose|i: int, j: int, k: int|
        linked_at(s.songs@, s.tags@, s.song_tags@, uri, tag, i, j, k);
    assert(pair_row_at(s, k, uri, tag));
    assert forall|k1: int, k2: int|
        #[trigger] pair_row_at(s, k1, uri, tag) && #[trigger] pair_row_at(s, k2, uri, tag) implies k1
        == k2 by {
        let (i1, j1): (int, int) = choose|i1: int, j1: int| #[trigger]
            linked_at(s.songs@, s.tags@, s.song_tags@, uri, tag, i1, j1, k1);
        let (i2, j2): (int, int) = choose|i2: int, j2: int| #[trigger]
            linked_at(s.songs@, s.tags@, s.song_tags@, uri, tag, i2, j2, k2);
        assert(i1 == i2);
        assert(j1 == j2);
        assert(s.song_tags@[k1].song_id == s.song_tags@[k2].song_id && s.song_tags@[k1].tag_id
            == s.song_tags@[k2].tag_id);
    }
}

/// Attaching a tag and then detaching it again removes the song row, when
/// the song carried no other tag beforehand; the tag row itself stays.
pub proof fn lemma_attach_detach_orphan(m: StoreModel, uri: Seq<char>, tag: Seq<char>)
    requires
        forall|t: Seq<char>| #[trigger] m.links.contains((uri, t)) ==> t == tag,
    ensures
        detach_model(attach_model(m, uri, tag), uri, tag).songs == m.songs.remove(uri),
        detach_model(attach_model(m, uri, tag), uri, tag).links == m.links.remove((uri, tag)),
        detach_model(attach_model(m, uri, tag), uri, tag).tags == m.tags.insert(tag),
{
    let m1 = attach_model(m, uri, tag);
    let links2 = m1.links.remove((uri, tag));
    assert(links2 =~= m.links.remove((uri, tag)));
    assert forall|t: Seq<char>| !(#[trigger] links2.contains((uri, t))) by {
        if links2.contains((uri, t)) {
            assert(m.links.contains((uri, t)));
            assert(t == tag);
            assert(false);
        }
    }
    assert(detach_model(m1, uri, tag).songs == m1.songs.remove(uri));
    assert(m1.songs.remove(uri) =~= m.songs.remove(uri));
}

/// Deleting a tag cascades over its associations and nothing else: every
/// link carrying the tag is gone, links carrying any other tag survive, and
/// no song row is touched.
pub proof fn lemma_delete_tag_cascade(
    m: StoreModel,
    tag: Seq<char>,
    uri: Seq<char>,
    other: Seq<char>,
)
    requires
        m.links.contains((uri, other)),
        other != tag,
    ensures
        delete_tag_model(m, tag).links.contains((uri, other)),
        !delete_tag_model(m, tag).tags.contains(tag),
        delete_tag_model(m, tag).songs == m.songs,
        forall|u: Seq<char>| !(#[trigger] delete_tag_model(m, tag).links.contains((u, tag))),
{
}

/// A song whose only tag was the deleted one is gone once the cleanup pass
/// has run after the deletion.
pub proof fn lemma_delete_then_cleanup(m: StoreModel, tag: Seq<char>, uri: Seq<char>)
    requires
        forall|t: Seq<char>| #[trigger] m.links.contains((uri, t)) ==> t == tag,
    ensures
        !cleanup_model(delete_tag_model(m, tag)).songs.contains(uri),
{
    let m1 = delete_tag_model(m, tag);
    assert forall|t: Seq<char>| !(#[trigger] m1.links.contains((uri, t))) by {
        if m1.links.contains((uri, t)) {
            assert(m.links.contains((uri, t)));
            assert(t == tag);
            assert(false);
        }
    }
}

/// Creating a tag by name twice leaves the store exactly as one creation
/// does: the duplicate insert is a silent no-op.
pub proof fn lemma_create_tag_idempotent(m: StoreModel, tag: Seq<char>)
    ensures
        create_tag_model(create_tag_model(m, tag), tag) == create_tag_model(m, tag),
{
    let m1 = create_tag_model(m, tag);
    assert(m1.tags.insert(tag) =~= m1.tags);
    assert(create_tag_model(m1, tag) =~= m1);
}

/// Detaching a pair with no existing association changes nothing, provided
/// the song row is not an orphan awaiting cleanup (detaching any tag from an
/// orphan deletes its row).
pub proof fn lemma_detach_unknown_noop(m: StoreModel, uri: Seq<char>, tag: Seq<char>)
    requires
        !m.links.contains((uri, tag)),
        m.songs.contains(uri) ==> exists|t: Seq<char>| m.links.contains((uri, t)),
    ensures
        detach_model(m, uri, tag) == m,
{
    let links2 = m.links.remove((uri, tag));
    assert(links2 =~= m.links);
    if m.songs.contains(uri) {
        let t = choose|t: Seq<char>| m.links.contains((uri, t));
        assert(links2.contains((uri, t)));
        assert(detach_model(m, uri, tag).songs == m.songs);
    } else {
        if exists|t: Seq<char>| links2.contains((uri, t)) {
            assert(detach_model(m, uri, tag).songs == m.songs);
        } else {
            assert(m.songs.remove(uri) =~= m.songs);
        }
    }
    assert(detach_model(m, uri, tag) =~= m);
}

/// Deleting an unknown tag name changes nothing in a store with referential
/// integrity: no tag row matches and no link can carry the name.
pub proof fn lemma_delete_unknown_noop(m: StoreModel, tag: Seq<char>)
    requires
        !m.tags.contains(tag),
        model_wf(m),
    ensures
        delete_tag_model(m, tag) == m,
{
    assert(m.tags.remove(tag) =~= m.tags);
    assert forall|p: (Seq<char>, Seq<char>)| #[trigger] m.links.contains(p) implies p.1 != tag by {
        assert(m.tags.contains(p.1));
    }
    assert(delete_tag_model(m, tag).links =~= m.links);
    assert(delete_tag_model(m, tag) =~= m);
}

} // verus!
