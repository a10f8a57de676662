//! The playlist store: the snapshot of the selected playlists as one
//! JSON document, and its two modes — refresh from freshly fetched
//! records, and load from the document text.
//!
//! The document is a pretty-printed JSON array of playlist objects,
//! sorted ascending by identifier. Its text is a pure function of the
//! collection, so a refresh over an unchanged remote dataset writes the
//! identical text again; and the parser is proved to invert the
//! renderer, so a load after a refresh yields the identical collection.

use vstd::prelude::*;

use crate::domain::{Playlist, PlaylistView};
use crate::json::{
    chars_to_string, dec_digits, expect_lit, is_dec, lemma_lit_step, lemma_parse_number_inverts,
    lemma_parse_string_inverts, parse_number, parse_number_at, parse_string, parse_string_at,
    push_lit, push_quoted, push_u32, quoted, starts_with,
};
use crate::mapper::{
    all_playlists_present, map_playlists, spec_map_playlists,
};
use crate::raw::{RawPlaylist, RawPlaylistView};
use crate::select::{select_recipe_playlists, sorted_strict, spec_select};
use crate::PipelineError;

verus! {

/// The text of one playlist object inside the snapshot array.
pub open spec fn render_playlist(p: PlaylistView) -> Seq<char> {
    "  {\n    \"id\": "@ + quoted(p.id) + ",\n    \"title\": "@ + quoted(p.title)
        + ",\n    \"published_at\": "@ + quoted(p.published_at) + ",\n    \"item_count\": "@
        + dec_digits(p.item_count as int) + ",\n    \"etag\": "@ + quoted(p.etag) + "\n  }"@
}

/// The text of the array's elements, joined by the separator.
pub open spec fn render_items(ps: Seq<PlaylistView>) -> Seq<char>
    decreases ps.len(),
{
    if ps.len() == 0 {
        Seq::empty()
    } else if ps.len() == 1 {
        render_playlist(ps[0])
    } else {
        render_items(ps.drop_last()) + ",\n"@ + render_playlist(ps.last())
    }
}

/// The whole snapshot document for a playlist collection.
pub open spec fn render_playlists(ps: Seq<PlaylistView>) -> Seq<char> {
    if ps.len() == 0 {
        "[]"@
    } else {
        "[\n"@ + render_items(ps) + "\n]"@
    }
}

/// Reads one playlist object, giving the playlist and the text after it.
pub open spec fn parse_playlist(t: Seq<char>) -> Option<(PlaylistView, Seq<char>)> {
    if !starts_with(t, "  {\n    \"id\": "@) {
        None
    } else {
        match parse_string(t.skip("  {\n    \"id\": "@.len() as int)) {
            None => None,
            Some((id, t1)) => if !starts_with(t1, ",\n    \"title\": "@) {
                None
            } else {
                match parse_string(t1.skip(",\n    \"title\": "@.len() as int)) {
                    None => None,
                    Some((title, t2)) => if !starts_with(t2, ",\n    \"published_at\": "@) {
                        None
                    } else {
                        match parse_string(t2.skip(",\n    \"published_at\": "@.len() as int)) {
                            None => None,
                            Some((published_at, t3)) => if !starts_with(
                                t3,
                                ",\n    \"item_count\": "@,
                            ) {
                                None
                            } else {
                                match parse_number(t3.skip(",\n    \"item_count\": "@.len() as int)) {
                                    None => None,
                                    Some((n, t4)) => if !(0 <= n && n <= u32::MAX) {
                                        None
                                    } else if !starts_with(t4, ",\n    \"etag\": "@) {
                                        None
                                    } else {
                                        match parse_string(t4.skip(",\n    \"etag\": "@.len() as int)) {
                                            None => None,
                                            Some((etag, t5)) => if !starts_with(t5, "\n  }"@) {
                                                None
                                            } else {
                                                Some(
                                                    (
                                                        PlaylistView {
                                                            id,
                                                            title,
                                                            published_at,
                                                            item_count: n as u32,
                                                            etag,
                                                        },
                                                        t5.skip("\n  }"@.len() as int),
                                                    ),
                                                )
                                            },
                                        }
                                    },
                                }
                            },
                        }
                    },
                }
            },
        }
    }
}

/// Reads the elements of a non-empty snapshot array up to and over the
/// closing bracket, which must end the text.
pub open spec fn parse_items_rec(t: Seq<char>) -> Option<Seq<PlaylistView>>
    decreases t.len(),
{
    match parse_playlist(t) {
        None => None,
        Some((p, r)) => {
            if r == "\n]"@ {
                Some(seq![p])
            } else if starts_with(r, ",\n"@) && r.len() < t.len() {
                match parse_items_rec(r.skip(",\n"@.len() as int)) {
                    None => None,
                    Some(ps) => Some(seq![p] + ps),
                }
            } else {
                None
            }
        },
    }
}

/// Reads a whole snapshot document.
pub open spec fn parse_playlists(t: Seq<char>) -> Option<Seq<PlaylistView>> {
    if t == "[]"@ {
        Some(Seq::empty())
    } else if starts_with(t, "[\n"@) {
        parse_items_rec(t.skip("[\n"@.len() as int))
    } else {
        None
    }
}

#[verifier::rlimit(100)]
proof fn lemma_parse_playlist_inverts(p: PlaylistView, rest: Seq<char>)
    ensures
        parse_playlist(render_playlist(p) + rest) == Some((p, rest)),
{
    let l1 = "  {\n    \"id\": "@;
    let l2 = ",\n    \"title\": "@;
    let l3 = ",\n    \"published_at\": "@;
    let l4 = ",\n    \"item_count\": "@;
    let l5 = ",\n    \"etag\": "@;
    let l6 = "\n  }"@;
    let t5 = l6 + rest;
    let q5 = quoted(p.etag) + t5;
    let t4 = l5 + q5;
    let q4 = dec_digits(p.item_count as int) + t4;
    let t3 = l4 + q4;
    let q3 = quoted(p.published_at) + t3;
    let t2 = l3 + q3;
    let q2 = quoted(p.title) + t2;
    let t1 = l2 + q2;
    let q1 = quoted(p.id) + t1;
    let t0 = l1 + q1;
    assert(render_playlist(p) + rest =~= t0);
    lemma_lit_step(l1, q1);
    lemma_parse_string_inverts(p.id, t1);
    lemma_lit_step(l2, q2);
    lemma_parse_string_inverts(p.title, t2);
    lemma_lit_step(l3, q3);
    lemma_parse_string_inverts(p.published_at, t3);
    lemma_lit_step(l4, q4);
    reveal_strlit(",\n    \"etag\": ");
    assert(t4.first() == ',');
    assert(!is_dec(','));
    lemma_parse_number_inverts(p.item_count as int, t4);
    lemma_lit_step(l5, q5);
    lemma_parse_string_inverts(p.etag, t5);
    lemma_lit_step(l6, rest);
    assert((PlaylistView {
        id: p.id,
        title: p.title,
        published_at: p.published_at,
        item_count: (p.item_count as int) as u32,
        etag: p.etag,
    }) == p);
}

proof fn lemma_render_items_front(ps: Seq<PlaylistView>)
    requires
        ps.len() >= 2,
    ensures
        render_items(ps) == render_playlist(ps[0]) + ",\n"@ + render_items(ps.drop_first()),
    decreases ps.len(),
{
    if ps.len() == 2 {
        assert(ps.drop_last() =~= seq![ps[0]]);
        assert(ps.drop_first() =~= seq![ps[1]]);
        assert(ps.last() == ps[1]);
        assert(seq![ps[0]][0] == ps[0]);
        assert(seq![ps[1]][0] == ps[1]);
        assert(render_items(ps) == render_items(seq![ps[0]]) + ",\n"@ + render_playlist(ps[1]));
        assert(render_items(seq![ps[0]]) == render_playlist(ps[0]));
        assert(render_items(ps.drop_first()) == render_playlist(ps[1]));
    } else {
        lemma_render_items_front(ps.drop_last());
        assert(render_items(ps) == render_items(ps.drop_last()) + ",\n"@ + render_playlist(
            ps.last(),
        ));
        assert(render_items(ps.drop_first()) == render_items(ps.drop_first().drop_last()) + ",\n"@
            + render_playlist(ps.drop_first().last()));
        assert(ps.drop_last()[0] == ps[0]);
        assert(ps.drop_last().drop_first() =~= ps.drop_first().drop_last());
        assert(ps.drop_first().last() == ps.last());
        assert(ps.drop_first().len() >= 2);
        assert((render_playlist(ps[0]) + ",\n"@ + render_items(ps.drop_first().drop_last()))
            + ",\n"@ + render_playlist(ps.last()) =~= render_playlist(ps[0]) + ",\n"@ + (
        render_items(ps.drop_first().drop_last()) + ",\n"@ + render_playlist(
            ps.drop_first().last(),
        )));
    }
}

#[verifier::rlimit(100)]
proof fn lemma_parse_items_inverts(ps: Seq<PlaylistView>)
    requires
        ps.len() >= 1,
    ensures
        parse_items_rec(render_items(ps) + "\n]"@) == Some(ps),
    decreases ps.len(),
{
    reveal_strlit(",\n");
    reveal_strlit("\n]");
    if ps.len() == 1 {
        assert(render_items(ps) == render_playlist(ps[0]));
        lemma_parse_playlist_inverts(ps[0], "\n]"@);
        assert(seq![ps[0]] =~= ps);
    } else {
        lemma_render_items_front(ps);
        let tailtext = render_items(ps.drop_first()) + "\n]"@;
        let r = ",\n"@ + tailtext;
        assert(render_items(ps) + "\n]"@ =~= render_playlist(ps[0]) + r);
        lemma_parse_playlist_inverts(ps[0], r);
        assert(r.len() >= 4);
        assert(r != "\n]"@);
        lemma_lit_step(",\n"@, tailtext);
        assert(quoted(ps[0].id).len() >= 2);
        assert(render_playlist(ps[0]).len() >= 1);
        assert(r.len() < (render_playlist(ps[0]) + r).len());
        lemma_parse_items_inverts(ps.drop_first());
        assert(seq![ps[0]] + ps.drop_first() =~= ps);
    }
}

/// The snapshot parser inverts the snapshot renderer: loading the text a
/// refresh wrote yields the identical collection, in order and in every
/// field.
pub proof fn lemma_snapshot_round_trip(ps: Seq<PlaylistView>)
    ensures
        parse_playlists(render_playlists(ps)) == Some(ps),
{
    reveal_strlit("[]");
    reveal_strlit("[\n");
    reveal_strlit("\n]");
    if ps.len() == 0 {
        assert(render_playlists(ps) == "[]"@);
        assert(ps =~= Seq::<PlaylistView>::empty());
    } else {
        let body = render_items(ps) + "\n]"@;
        let t = "[\n"@ + body;
        assert(render_playlists(ps) =~= t);
        assert(t.len() >= 4);
        assert(t != "[]"@);
        lemma_lit_step("[\n"@, body);
        lemma_parse_items_inverts(ps);
    }
}

/// Refresh then load agree: the collection a refresh computes for a
/// fetched dataset is exactly what a load of the text it wrote yields.
pub proof fn lemma_refresh_load_agree(raws: Seq<RawPlaylistView>)
    requires
        all_playlists_present(raws),
    ensures
        parse_playlists(render_playlists(spec_select(spec_map_playlists(raws)))) == Some(
            spec_select(spec_map_playlists(raws)),
        ),
{
    lemma_snapshot_round_trip(spec_select(spec_map_playlists(raws)));
}

/// The snapshot text is a function of the collection alone: two refreshes
/// over equal collections write byte-identical documents.
pub proof fn lemma_snapshot_deterministic(a: Seq<PlaylistView>, b: Seq<PlaylistView>)
    requires
        a == b,
    ensures
        render_playlists(a) == render_playlists(b),
{
}

/// Appends the snapshot text of one playlist.
fn push_playlist(out: &mut Vec<char>, p: &Playlist)
    ensures
        final(out)@ == old(out)@ + render_playlist(p@),
{
    push_lit(out, "  {\n    \"id\": ");
    push_quoted(out, p.id.as_str());
    push_lit(out, ",\n    \"title\": ");
    push_quoted(out, p.title.as_str());
    push_lit(out, ",\n    \"published_at\": ");
    push_quoted(out, p.published_at.as_str());
    push_lit(out, ",\n    \"item_count\": ");
    push_u32(out, p.item_count);
    push_lit(out, ",\n    \"etag\": ");
    push_quoted(out, p.etag.as_str());
    push_lit(out, "\n  }");
    proof {
        assert(out@ =~= old(out)@ + render_playlist(p@));
    }
}

/// Renders the snapshot document of a playlist collection.
pub fn render_playlists_text(ps: &Vec<Playlist>) -> (r: Vec<char>)
    ensures
        r@ == render_playlists(ps.deep_view()),
{
    let mut out: Vec<char> = Vec::new();
    let n = ps.len();
    if n == 0 {
        push_lit(&mut out, "[]");
        proof {
            assert(out@ =~= "[]"@);
        }
        return out;
    }
    push_lit(&mut out, "[\n");
    let mut i: usize = 0;
    #[verifier::loop_isolation(false)]
    while i < n
        invariant
            i <= n,
            n == ps@.len(),
            i == 0 ==> out@ =~= "[\n"@,
            i >= 1 ==> out@ =~= "[\n"@ + render_items(ps.deep_view().take(i as int)),
        decreases n - i,
    {
        let ghost dv = ps.deep_view();
        let ghost out0 = out@;
        if i > 0 {
            push_lit(&mut out, ",\n");
        }
        push_playlist(&mut out, &ps[i]);
        proof {
            assert(dv[i as int] == ps@[i as int].deep_view());
            if i == 0 {
                assert(dv.take(1)[0] == dv[0]);
                assert(render_items(dv.take(1)) == render_playlist(dv[0]));
                assert(out@ =~= "[\n"@ + render_items(dv.take(1)));
            } else {
                assert(dv.take(i + 1).drop_last() =~= dv.take(i as int));
                assert(dv.take(i + 1).last() == dv[i as int]);
                assert(render_items(dv.take(i + 1)) == render_items(dv.take(i as int)) + ",\n"@
                    + render_playlist(dv[i as int]));
                assert(out@ =~= "[\n"@ + render_items(dv.take(i + 1)));
            }
        }
        i = i + 1;
    }
    push_lit(&mut out, "\n]");
    proof {
        assert(ps.deep_view().take(n as int) =~= ps.deep_view());
        assert(out@ =~= render_playlists(ps.deep_view()));
    }
    out
}

/// Reads one playlist object at `pos`.
fn parse_playlist_at(text: &Vec<char>, pos: usize) -> (r: Option<(Playlist, usize)>)
    requires
        pos <= text@.len(),
    ensures
        r matches Some(v) ==> pos < v.1 <= text@.len() && parse_playlist(text@.skip(pos as int))
            == Some((v.0.deep_view(), text@.skip(v.1 as int))),
        r is None ==> parse_playlist(text@.skip(pos as int)) is None,
{
    let ghost t = text@.skip(pos as int);
    let p1 = match expect_lit(text, pos, "  {\n    \"id\": ") {
        Some(p) => p,
        None => {
            return None;
        },
    };
    proof {
        reveal_strlit("  {\n    \"id\": ");
        assert(pos < p1);
        assert(text@.skip(p1 as int) =~= t.skip("  {\n    \"id\": "@.len() as int));
    }
    let (id, p2) = match parse_string_at(text, p1) {
        Some(v) => v,
        None => {
            return None;
        },
    };
    let p3 = match expect_lit(text, p2, ",\n    \"title\": ") {
        Some(p) => p,
        None => {
            return None;
        },
    };
    proof {
        assert(text@.skip(p3 as int) =~= text@.skip(p2 as int).skip(
            ",\n    \"title\": "@.len() as int,
        ));
    }
    let (title, p4) = match parse_string_at(text, p3) {
        Some(v) => v,
        None => {
            return None;
        },
    };
    let p5 = match expect_lit(text, p4, ",\n    \"published_at\": ") {
        Some(p) => p,
        None => {
            return None;
        },
    };
    proof {
        assert(text@.skip(p5 as int) =~= text@.skip(p4 as int).skip(
            ",\n    \"published_at\": "@.len() as int,
        ));
    }
    let (published_at, p6) = match parse_string_at(text, p5) {
        Some(v) => v,
        None => {
            return None;
        },
    };
    let p7 = match expect_lit(text, p6, ",\n    \"item_count\": ") {
        Some(p) => p,
        None => {
            return None;
        },
    };
    proof {
        assert(text@.skip(p7 as int) =~= text@.skip(p6 as int).skip(
            ",\n    \"item_count\": "@.len() as int,
        ));
    }
    let (item_count, p8) = match parse_number_at(text, p7) {
        Some(v) => v,
        None => {
            return None;
        },
    };
    let p9 = match expect_lit(text, p8, ",\n    \"etag\": ") {
        Some(p) => p,
        None => {
            return None;
        },
    };
    proof {
        assert(text@.skip(p9 as int) =~= text@.skip(p8 as int).skip(
            ",\n    \"etag\": "@.len() as int,
        ));
    }
    let (etag, p10) = match parse_string_at(text, p9) {
        Some(v) => v,
        None => {
            return None;
        },
    };
    let p11 = match expect_lit(text, p10, "\n  }") {
        Some(p) => p,
        None => {
            return None;
        },
    };
    proof {
        assert(text@.skip(p11 as int) =~= text@.skip(p10 as int).skip("\n  }"@.len() as int));
    }
    let p = Playlist {
        id: chars_to_string(id),
        title: chars_to_string(title),
        published_at: chars_to_string(published_at),
        item_count,
        etag: chars_to_string(etag),
    };
    Some((p, p11))
}

/// Reads a whole snapshot document; any text the grammar refuses is a
/// corrupt snapshot.
pub fn decode_playlists(text: &Vec<char>) -> (r: Result<Vec<Playlist>, PipelineError>)
    ensures
        r matches Ok(ps) ==> parse_playlists(text@) == Some(ps.deep_view()),
        r matches Err(e) ==> e == PipelineError::CorruptSnapshot && parse_playlists(text@)
            is None,
{
    proof {
        reveal_strlit("[]");
        reveal_strlit("[\n");
        reveal_strlit(",\n");
        reveal_strlit("\n]");
    }
    if text.len() == 2 && text[0] == '[' && text[1] == ']' {
        proof {
            assert(text@ =~= "[]"@);
        }
        let out: Vec<Playlist> = Vec::new();
        proof {
            assert(out.deep_view() =~= Seq::<PlaylistView>::empty());
        }
        return Ok(out);
    }
    proof {
        assert(text@ != "[]"@) by {
            if text@ == "[]"@ {
                assert(text@.len() == 2);
                assert(text@[0] == '[' && text@[1] == ']');
            }
        }
    }
    let start = match expect_lit(text, 0, "[\n") {
        Some(p) => p,
        None => {
            proof {
                assert(text@.skip(0) =~= text@);
            }
            return Err(PipelineError::CorruptSnapshot);
        },
    };
    proof {
        assert(text@.skip(0) =~= text@);
        assert(text@.skip("[\n"@.len() as int) == text@.skip(start as int));
    }
    let mut out: Vec<Playlist> = Vec::new();
    let mut pos: usize = start;
    proof {
        assert(out.deep_view() =~= Seq::<PlaylistView>::empty());
    }
    #[verifier::loop_isolation(false)]
    loop
        invariant
            start <= pos <= text@.len(),
            ({
                let full = parse_items_rec(text@.skip(start as int));
                match parse_items_rec(text@.skip(pos as int)) {
                    Some(ps) => full == Some(out.deep_view() + ps),
                    None => full is None,
                }
            }),
        decreases text@.len() - pos,
    {
        let ghost t = text@.skip(pos as int);
        let (p, p2) = match parse_playlist_at(text, pos) {
            Some(v) => v,
            None => {
                return Err(PipelineError::CorruptSnapshot);
            },
        };
        let ghost rsuf = text@.skip(p2 as int);
        let fin = expect_lit(text, p2, "\n]");
        let is_end = match fin {
            Some(e) => e == text.len(),
            None => false,
        };
        if is_end {
            let ghost out0 = out.deep_view();
            out.push(p);
            proof {
                assert(rsuf =~= "\n]"@);
                assert(parse_items_rec(t) == Some(seq![p.deep_view()]));
                assert(forall|i: int|
                    0 <= i < out0.len() ==> #[trigger] out.deep_view()[i] == out0[i]);
                assert(out.deep_view()[out0.len() as int] == p.deep_view());
                assert(out.deep_view() =~= out0 + seq![p.deep_view()]);
            }
            return Ok(out);
        }
        proof {
            assert(rsuf != "\n]"@) by {
                if rsuf == "\n]"@ {
                    assert(starts_with(rsuf, "\n]"@)) by {
                        assert(rsuf.take(2) =~= rsuf);
                    }
                    assert(p2 + 2 == text@.len());
                    match fin {
                        Some(e) => {
                            assert(e == p2 + 2);
                        },
                        None => {},
                    }
                }
            }
        }
        let sep = match expect_lit(text, p2, ",\n") {
            Some(e) => e,
            None => {
                return Err(PipelineError::CorruptSnapshot);
            },
        };
        let ghost out0 = out.deep_view();
        out.push(p);
        pos = sep;
        proof {
            assert(text@.skip(sep as int) =~= rsuf.skip(",\n"@.len() as int));
            assert(rsuf.len() < t.len());
            assert(forall|i: int|
                0 <= i < out0.len() ==> #[trigger] out.deep_view()[i] == out0[i]);
            assert(out.deep_view()[out0.len() as int] == p.deep_view());
            assert(out.deep_view() =~= out0 + seq![p.deep_view()]);
            match parse_items_rec(text@.skip(sep as int)) {
                Some(ps2) => {
                    assert(parse_items_rec(t) == Some(seq![p.deep_view()] + ps2));
                    assert(out0 + (seq![p.deep_view()] + ps2) =~= out.deep_view() + ps2);
                },
                None => {
                    assert(parse_items_rec(t) is None);
                },
            }
        }
    }
}

/// The refresh mode of the playlist store, after the fetch: maps every
/// raw record, selects and orders the archive's playlists, and renders
/// the snapshot text to be written. Both results are functions of the
/// fetched records alone.
pub fn refresh_playlists(raws: Vec<RawPlaylist>) -> (r: Result<
    (Vec<Playlist>, Vec<char>),
    PipelineError,
>)
    ensures
        all_playlists_present(raws.deep_view()) ==> (r matches Ok(pr) && pr.0.deep_view()
            == spec_select(spec_map_playlists(raws.deep_view())) && pr.1@ == render_playlists(
            spec_select(spec_map_playlists(raws.deep_view())),
        ) && sorted_strict(pr.0.deep_view())),
        !all_playlists_present(raws.deep_view()) ==> (r matches Err(e) && e
            == PipelineError::MalformedRecord),
{
    let mapped = match map_playlists(raws) {
        Ok(ps) => ps,
        Err(e) => {
            return Err(e);
        },
    };
    let selected = select_recipe_playlists(mapped);
    let rendered = render_playlists_text(&selected);
    Ok((selected, rendered))
}

/// The cached-read mode of the playlist store, after the file read: no
/// file is a missing snapshot, text the grammar refuses is a corrupt
/// one, and accepted text yields the collection it renders.
pub fn load_playlists(text: Option<&Vec<char>>) -> (r: Result<Vec<Playlist>, PipelineError>)
    ensures
        text is None ==> (r matches Err(e) && e == PipelineError::MissingSnapshot),
        text is Some && parse_playlists(text->0@) is Some ==> (r matches Ok(ps) && Some(
            ps.deep_view(),
        ) == parse_playlists(text->0@)),
        text is Some && parse_playlists(text->0@) is None ==> (r matches Err(e) && e
            == PipelineError::CorruptSnapshot),
{
    match text {
        None => Err(PipelineError::MissingSnapshot),
        Some(t) => decode_playlists(t),
    }
}

} // verus!
