//! The video store: one JSON document per video, named by the video's
//! stable identifier, and its two modes — refresh from freshly fetched
//! playlist items, and load from the documents' text.
//!
//! A video appearing in several playlists is written once per
//! encounter under the same name, so the last write wins; the store
//! plans the final set of files, one per identifier. Each document's
//! text is a pure function of the video, and the parser inverts the
//! renderer.

use vstd::prelude::*;

use crate::domain::{Thumbnail, ThumbnailView, Thumbnails, ThumbnailsView, Video, VideoView};
use crate::mapper::{all_items_mappable, map_playlist_items, spec_map_items};
use crate::raw::{RawPlaylistItem, RawPlaylistItemView};
use crate::json::{
    chars_to_string, dec_digits, expect_lit, is_dec, lemma_lit_step, lemma_parse_number_inverts,
    lemma_parse_string_inverts, parse_number, parse_number_at, parse_string, parse_string_at,
    push_lit, push_quoted, push_u32, quoted, starts_with,
};
use crate::PipelineError;

verus! {

// ---------------------------------------------------------------------
// Rendering.
// ---------------------------------------------------------------------
/// The text of an optional string field: absent is `null`.
pub open spec fn render_opt_str(o: Option<Seq<char>>) -> Seq<char> {
    match o {
        None => "null"@,
        Some(s) => quoted(s),
    }
}

/// The text of one thumbnail object.
pub open spec fn render_thumbnail(t: ThumbnailView) -> Seq<char> {
    "{\n      \"height\": "@ + dec_digits(t.height as int) + ",\n      \"url\": "@ + quoted(t.url)
        + ",\n      \"width\": "@ + dec_digits(t.width as int) + "\n    }"@
}

/// The text of a best-effort thumbnail slot: absent is `null`.
pub open spec fn render_opt_thumbnail(o: Option<ThumbnailView>) -> Seq<char> {
    match o {
        None => "null"@,
        Some(t) => render_thumbnail(t),
    }
}

/// The text of the thumbnail set object.
pub open spec fn render_thumbnails(ts: ThumbnailsView) -> Seq<char> {
    "{\n    \"default\": "@ + render_thumbnail(ts.default) + ",\n    \"medium\": "@
        + render_thumbnail(ts.medium) + ",\n    \"high\": "@ + render_thumbnail(ts.high)
        + ",\n    \"standard\": "@ + render_opt_thumbnail(ts.standard) + ",\n    \"maxres\": "@
        + render_opt_thumbnail(ts.maxres) + "\n  }"@
}

/// The second half of a video document: from the `video_id` field over
/// the thumbnail set to the closing brace.
pub open spec fn render_video_tail(v: VideoView) -> Seq<char> {
    ",\n  \"video_id\": "@ + quoted(v.video_id) + ",\n  \"published_at\": "@ + quoted(
        v.published_at,
    ) + ",\n  \"description\": "@ + quoted(v.description) + ",\n  \"thumbnails\": "@
        + render_thumbnails(v.thumbnails) + "\n}"@
}

/// The whole document of one video.
pub open spec fn render_video(v: VideoView) -> Seq<char> {
    "{\n  \"title\": "@ + quoted(v.title) + ",\n  \"video_published_at\": "@ + render_opt_str(
        v.video_published_at,
    ) + ",\n  \"start_at\": "@ + render_opt_str(v.start_at) + ",\n  \"end_at\": "@
        + render_opt_str(v.end_at) + render_video_tail(v)
}

// ---------------------------------------------------------------------
// Parsing.
// ---------------------------------------------------------------------
/// Reads an optional string field: `null` or a quoted string.
pub open spec fn parse_opt_str(t: Seq<char>) -> Option<(Option<Seq<char>>, Seq<char>)> {
    if starts_with(t, "null"@) {
        Some((None, t.skip("null"@.len() as int)))
    } else {
        match parse_string(t) {
            None => None,
            Some((s, r)) => Some((Some(s), r)),
        }
    }
}

/// Reads one thumbnail object.
pub open spec fn parse_thumbnail(t: Seq<char>) -> Option<(ThumbnailView, Seq<char>)> {
    if !starts_with(t, "{\n      \"height\": "@) {
        None
    } else {
        match parse_number(t.skip("{\n      \"height\": "@.len() as int)) {
            None => None,
            Some((h, t1)) => if !(0 <= h && h <= u32::MAX) {
                None
            } else if !starts_with(t1, ",\n      \"url\": "@) {
                None
            } else {
                match parse_string(t1.skip(",\n      \"url\": "@.len() as int)) {
                    None => None,
                    Some((url, t2)) => if !starts_with(t2, ",\n      \"width\": "@) {
                        None
                    } else {
                        match parse_number(t2.skip(",\n      \"width\": "@.len() as int)) {
                            None => None,
                            Some((w, t3)) => if !(0 <= w && w <= u32::MAX) {
                                None
                            } else if !starts_with(t3, "\n    }"@) {
                                None
                            } else {
                                Some(
                                    (
                                        ThumbnailView {
                                            height: h as u32,
                                            url,
                                            width: w as u32,
                                        },
                                        t3.skip("\n    }"@.len() as int),
                                    ),
                                )
                            },
                        }
                    },
                }
            },
        }
    }
}

/// Reads a best-effort thumbnail slot: `null` or a thumbnail object.
pub open spec fn parse_opt_thumbnail(t: Seq<char>) -> Option<(Option<ThumbnailView>, Seq<char>)> {
    if starts_with(t, "null"@) {
        Some((None, t.skip("null"@.len() as int)))
    } else {
        match parse_thumbnail(t) {
            None => None,
            Some((tv, r)) => Some((Some(tv), r)),
        }
    }
}

/// Reads the thumbnail set object.
pub open spec fn parse_thumbnails(t: Seq<char>) -> Option<(ThumbnailsView, Seq<char>)> {
    if !starts_with(t, "{\n    \"default\": "@) {
        None
    } else {
        match parse_thumbnail(t.skip("{\n    \"default\": "@.len() as int)) {
            None => None,
            Some((default, t1)) => if !starts_with(t1, ",\n    \"medium\": "@) {
                None
            } else {
                match parse_thumbnail(t1.skip(",\n    \"medium\": "@.len() as int)) {
                    None => None,
                    Some((medium, t2)) => if !starts_with(t2, ",\n    \"high\": "@) {
                        None
                    } else {
                        match parse_thumbnail(t2.skip(",\n    \"high\": "@.len() as int)) {
                            None => None,
                            Some((high, t3)) => if !starts_with(t3, ",\n    \"standard\": "@) {
                                None
                            } else {
                                match parse_opt_thumbnail(
                                    t3.skip(",\n    \"standard\": "@.len() as int),
                                ) {
                                    None => None,
                                    Some((standard, t4)) => if !starts_with(
                                        t4,
                                        ",\n    \"maxres\": "@,
                                    ) {
                                        None
                                    } else {
                                        match parse_opt_thumbnail(
                                            t4.skip(",\n    \"maxres\": "@.len() as int),
                                        ) {
                                            None => None,
                                            Some((maxres, t5)) => if !starts_with(t5, "\n  }"@) {
                                                None
                                            } else {
                                                Some(
                                                    (
                                                        ThumbnailsView {
                                                            default,
                                                            medium,
                                                            high,
                                                            standard,
                                                            maxres,
                                                        },
                                                        t5.skip("\n  }"@.len() as int),
                                                    ),
                                                )
                                            },
                                        }
                                    },
                                }
                            },
                        }
                    },
                }
            },
        }
    }
}

/// Reads the second half of a video document: from the `video_id` field
/// over the thumbnail set to the closing brace, which must end the text.
pub open spec fn parse_video_tail(t: Seq<char>) -> Option<
    (Seq<char>, Seq<char>, Seq<char>, ThumbnailsView),
> {
    if !starts_with(t, ",\n  \"video_id\": "@) {
        None
    } else {
        match parse_string(t.skip(",\n  \"video_id\": "@.len() as int)) {
            None => None,
            Some((video_id, t5)) => if !starts_with(t5, ",\n  \"published_at\": "@) {
                None
            } else {
                match parse_string(t5.skip(",\n  \"published_at\": "@.len() as int)) {
                    None => None,
                    Some((published_at, t6)) => if !starts_with(t6, ",\n  \"description\": "@) {
                        None
                    } else {
                        match parse_string(t6.skip(",\n  \"description\": "@.len() as int)) {
                            None => None,
                            Some((description, t7)) => if !starts_with(
                                t7,
                                ",\n  \"thumbnails\": "@,
                            ) {
                                None
                            } else {
                                match parse_thumbnails(
                                    t7.skip(",\n  \"thumbnails\": "@.len() as int),
                                ) {
                                    None => None,
                                    Some((thumbnails, t8)) => if t8 != "\n}"@ {
                                        None
                                    } else {
                                        Some((video_id, published_at, description, thumbnails))
                                    },
                                }
                            },
                        }
                    },
                }
            },
        }
    }
}

/// Reads one whole video document; nothing may follow it.
pub open spec fn parse_video_doc(t: Seq<char>) -> Option<VideoView> {
    if !starts_with(t, "{\n  \"title\": "@) {
        None
    } else {
        match parse_string(t.skip("{\n  \"title\": "@.len() as int)) {
            None => None,
            Some((title, t1)) => if !starts_with(t1, ",\n  \"video_published_at\": "@) {
                None
            } else {
                match parse_opt_str(t1.skip(",\n  \"video_published_at\": "@.len() as int)) {
                    None => None,
                    Some((video_published_at, t2)) => if !starts_with(t2, ",\n  \"start_at\": "@) {
                        None
                    } else {
                        match parse_opt_str(t2.skip(",\n  \"start_at\": "@.len() as int)) {
                            None => None,
                            Some((start_at, t3)) => if !starts_with(t3, ",\n  \"end_at\": "@) {
                                None
                            } else {
                                match parse_opt_str(t3.skip(",\n  \"end_at\": "@.len() as int)) {
                                    None => None,
                                    Some((end_at, t4)) => match parse_video_tail(t4) {
                                        None => None,
                                        Some((video_id, published_at, description, thumbnails)) => {
                                            Some(
                                                VideoView {
                                                    title,
                                                    video_published_at,
                                                    start_at,
                                                    end_at,
                                                    video_id,
                                                    published_at,
                                                    description,
                                                    thumbnails,
                                                },
                                            )
                                        },
                                    },
                                }
                            },
                        }
                    },
                }
            },
        }
    }
}

// ---------------------------------------------------------------------
// The parsers invert the renderers.
// ---------------------------------------------------------------------
proof fn lemma_parse_opt_str_inverts(o: Option<Seq<char>>, rest: Seq<char>)
    ensures
        parse_opt_str(render_opt_str(o) + rest) == Some((o, rest)),
{
    reveal_strlit("null");
    match o {
        None => {
            lemma_lit_step("null"@, rest);
        },
        Some(s) => {
            let t = quoted(s) + rest;
            assert(t.first() == '"');
            assert(!starts_with(t, "null"@)) by {
                if starts_with(t, "null"@) {
                    assert(t.take(4)[0] == t[0]);
                }
            }
            lemma_parse_string_inverts(s, rest);
        },
    }
}

#[verifier::rlimit(100)]
proof fn lemma_parse_thumbnail_inverts(tv: ThumbnailView, rest: Seq<char>)
    ensures
        parse_thumbnail(render_thumbnail(tv) + rest) == Some((tv, rest)),
{
    let l1 = "{\n      \"height\": "@;
    let l2 = ",\n      \"url\": "@;
    let l3 = ",\n      \"width\": "@;
    let l4 = "\n    }"@;
    let t3 = l4 + rest;
    let q3 = dec_digits(tv.width as int) + t3;
    let t2 = l3 + q3;
    let q2 = quoted(tv.url) + t2;
    let t1 = l2 + q2;
    let q1 = dec_digits(tv.height as int) + t1;
    let t0 = l1 + q1;
    assert(render_thumbnail(tv) + rest =~= t0);
    lemma_lit_step(l1, q1);
    reveal_strlit(",\n      \"url\": ");
    assert(t1.first() == ',');
    assert(!is_dec(','));
    lemma_parse_number_inverts(tv.height as int, t1);
    lemma_lit_step(l2, q2);
    lemma_parse_string_inverts(tv.url, t2);
    lemma_lit_step(l3, q3);
    reveal_strlit("\n    }");
    assert(t3.first() == '\n');
    assert(!is_dec('\n'));
    lemma_parse_number_inverts(tv.width as int, t3);
    lemma_lit_step(l4, rest);
    assert((ThumbnailView {
        height: (tv.height as int) as u32,
        url: tv.url,
        width: (tv.width as int) as u32,
    }) == tv);
}

proof fn lemma_parse_opt_thumbnail_inverts(o: Option<ThumbnailView>, rest: Seq<char>)
    ensures
        parse_opt_thumbnail(render_opt_thumbnail(o) + rest) == Some((o, rest)),
{
    reveal_strlit("null");
    reveal_strlit("{\n    \"default\": ");
    match o {
        None => {
            lemma_lit_step("null"@, rest);
        },
        Some(tv) => {
            let t = render_thumbnail(tv) + rest;
            reveal_strlit("{\n      \"height\": ");
            assert(t.first() == '{');
            assert(!starts_with(t, "null"@)) by {
                if starts_with(t, "null"@) {
                    assert(t.take(4)[0] == t[0]);
                }
            }
            lemma_parse_thumbnail_inverts(tv, rest);
        },
    }
}

#[verifier::rlimit(100)]
proof fn lemma_parse_thumbnails_inverts(ts: ThumbnailsView, rest: Seq<char>)
    ensures
        parse_thumbnails(render_thumbnails(ts) + rest) == Some((ts, rest)),
{
    let l1 = "{\n    \"default\": "@;
    let l2 = ",\n    \"medium\": "@;
    let l3 = ",\n    \"high\": "@;
    let l4 = ",\n    \"standard\": "@;
    let l5 = ",\n    \"maxres\": "@;
    let l6 = "\n  }"@;
    let t5 = l6 + rest;
    let q5 = render_opt_thumbnail(ts.maxres) + t5;
    let t4 = l5 + q5;
    let q4 = render_opt_thumbnail(ts.standard) + t4;
    let t3 = l4 + q4;
    let q3 = render_thumbnail(ts.high) + t3;
    let t2 = l3 + q3;
    let q2 = render_thumbnail(ts.medium) + t2;
    let t1 = l2 + q2;
    let q1 = render_thumbnail(ts.default) + t1;
    let t0 = l1 + q1;
    assert(render_thumbnails(ts) + rest =~= t0);
    lemma_lit_step(l1, q1);
    lemma_parse_thumbnail_inverts(ts.default, t1);
    lemma_lit_step(l2, q2);
    lemma_parse_thumbnail_inverts(ts.medium, t2);
    lemma_lit_step(l3, q3);
    lemma_parse_thumbnail_inverts(ts.high, t3);
    lemma_lit_step(l4, q4);
    lemma_parse_opt_thumbnail_inverts(ts.standard, t4);
    lemma_lit_step(l5, q5);
    lemma_parse_opt_thumbnail_inverts(ts.maxres, t5);
    lemma_lit_step(l6, rest);
    assert((ThumbnailsView {
        default: ts.default,
        medium: ts.medium,
        high: ts.high,
        standard: ts.standard,
        maxres: ts.maxres,
    }) == ts);
}

#[verifier::rlimit(100)]
proof fn lemma_parse_video_tail_inverts(v: VideoView)
    ensures
        parse_video_tail(render_video_tail(v)) == Some(
            (v.video_id, v.published_at, v.description, v.thumbnails),
        ),
{
    let l5 = ",\n  \"video_id\": "@;
    let l6 = ",\n  \"published_at\": "@;
    let l7 = ",\n  \"description\": "@;
    let l8 = ",\n  \"thumbnails\": "@;
    let l9 = "\n}"@;
    let t8 = l9;
    let q8 = render_thumbnails(v.thumbnails) + t8;
    let t7 = l8 + q8;
    let q7 = quoted(v.description) + t7;
    let t6 = l7 + q7;
    let q6 = quoted(v.published_at) + t6;
    let t5 = l6 + q6;
    let q5 = quoted(v.video_id) + t5;
    let t4 = l5 + q5;
    assert(render_video_tail(v) =~= t4);
    lemma_lit_step(l5, q5);
    lemma_parse_string_inverts(v.video_id, t5);
    lemma_lit_step(l6, q6);
    lemma_parse_string_inverts(v.published_at, t6);
    lemma_lit_step(l7, q7);
    lemma_parse_string_inverts(v.description, t7);
    lemma_lit_step(l8, q8);
    lemma_parse_thumbnails_inverts(v.thumbnails, t8);
}

/// The document parser inverts the document renderer: loading the text a
/// refresh wrote for a video yields the identical video.
#[verifier::rlimit(100)]
pub proof fn lemma_video_round_trip(v: VideoView)
    ensures
        parse_video_doc(render_video(v)) == Some(v),
{
    let l1 = "{\n  \"title\": "@;
    let l2 = ",\n  \"video_published_at\": "@;
    let l3 = ",\n  \"start_at\": "@;
    let l4 = ",\n  \"end_at\": "@;
    let t4 = render_video_tail(v);
    let q4 = render_opt_str(v.end_at) + t4;
    let t3 = l4 + q4;
    let q3 = render_opt_str(v.start_at) + t3;
    let t2 = l3 + q3;
    let q2 = render_opt_str(v.video_published_at) + t2;
    let t1 = l2 + q2;
    let q1 = quoted(v.title) + t1;
    let t0 = l1 + q1;
    assert(render_video(v) =~= t0);
    lemma_lit_step(l1, q1);
    lemma_parse_string_inverts(v.title, t1);
    lemma_lit_step(l2, q2);
    lemma_parse_opt_str_inverts(v.video_published_at, t2);
    lemma_lit_step(l3, q3);
    lemma_parse_opt_str_inverts(v.start_at, t3);
    lemma_lit_step(l4, q4);
    lemma_parse_opt_str_inverts(v.end_at, t4);
    lemma_parse_video_tail_inverts(v);
    assert((VideoView {
        title: v.title,
        video_published_at: v.video_published_at,
        start_at: v.start_at,
        end_at: v.end_at,
        video_id: v.video_id,
        published_at: v.published_at,
        description: v.description,
        thumbnails: v.thumbnails,
    }) == v);
}

// ---------------------------------------------------------------------
// Executable rendering.
// ---------------------------------------------------------------------
/// Appends an optional string field.
fn push_opt_str(out: &mut Vec<char>, o: &Option<String>)
    ensures
        final(out)@ == old(out)@ + render_opt_str(o.deep_view()),
{
    match o {
        None => {
            push_lit(out, "null");
        },
        Some(v) => {
            push_quoted(out, v.as_str());
        },
    }
}

/// Appends one thumbnail object.
fn push_thumbnail(out: &mut Vec<char>, t: &Thumbnail)
    ensures
        final(out)@ == old(out)@ + render_thumbnail(t@),
{
    push_lit(out, "{\n      \"height\": ");
    push_u32(out, t.height);
    push_lit(out, ",\n      \"url\": ");
    push_quoted(out, t.url.as_str());
    push_lit(out, ",\n      \"width\": ");
    push_u32(out, t.width);
    push_lit(out, "\n    }");
    proof {
        assert(out@ =~= old(out)@ + render_thumbnail(t@));
    }
}

/// Appends a best-effort thumbnail slot.
fn push_opt_thumbnail(out: &mut Vec<char>, o: &Option<Thumbnail>)
    ensures
        final(out)@ == old(out)@ + render_opt_thumbnail(o.deep_view()),
{
    match o {
        None => {
            push_lit(out, "null");
        },
        Some(t) => {
            push_thumbnail(out, t);
        },
    }
}

/// Appends the thumbnail set object.
fn push_thumbnails(out: &mut Vec<char>, ts: &Thumbnails)
    ensures
        final(out)@ == old(out)@ + render_thumbnails(ts@),
{
    push_lit(out, "{\n    \"default\": ");
    push_thumbnail(out, &ts.default);
    push_lit(out, ",\n    \"medium\": ");
    push_thumbnail(out, &ts.medium);
    push_lit(out, ",\n    \"high\": ");
    push_thumbnail(out, &ts.high);
    push_lit(out, ",\n    \"standard\": ");
    push_opt_thumbnail(out, &ts.standard);
    push_lit(out, ",\n    \"maxres\": ");
    push_opt_thumbnail(out, &ts.maxres);
    push_lit(out, "\n  }");
    proof {
        assert(ts@.standard == ts.standard.deep_view());
        assert(ts@.maxres == ts.maxres.deep_view());
        assert(out@ =~= old(out)@ + render_thumbnails(ts@));
    }
}

/// Renders the document of one video.
pub fn render_video_text(v: &Video) -> (r: Vec<char>)
    ensures
        r@ == render_video(v@),
{
    let mut out: Vec<char> = Vec::new();
    push_lit(&mut out, "{\n  \"title\": ");
    push_quoted(&mut out, v.title.as_str());
    push_lit(&mut out, ",\n  \"video_published_at\": ");
    push_opt_str(&mut out, &v.video_published_at);
    push_lit(&mut out, ",\n  \"start_at\": ");
    push_opt_str(&mut out, &v.start_at);
    push_lit(&mut out, ",\n  \"end_at\": ");
    push_opt_str(&mut out, &v.end_at);
    push_lit(&mut out, ",\n  \"video_id\": ");
    push_quoted(&mut out, v.video_id.as_str());
    push_lit(&mut out, ",\n  \"published_at\": ");
    push_quoted(&mut out, v.published_at.as_str());
    push_lit(&mut out, ",\n  \"description\": ");
    push_quoted(&mut out, v.description.as_str());
    push_lit(&mut out, ",\n  \"thumbnails\": ");
    push_thumbnails(&mut out, &v.thumbnails);
    push_lit(&mut out, "\n}");
    proof {
        assert(v@.video_published_at == v.video_published_at.deep_view());
        assert(v@.start_at == v.start_at.deep_view());
        assert(v@.end_at == v.end_at.deep_view());
        assert(out@ =~= "{\n  \"title\": "@ + quoted(v@.title) + ",\n  \"video_published_at\": "@
            + render_opt_str(v@.video_published_at) + ",\n  \"start_at\": "@ + render_opt_str(
            v@.start_at,
        ) + ",\n  \"end_at\": "@ + render_opt_str(v@.end_at) + render_video_tail(v@));
    }
    out
}

// ---------------------------------------------------------------------
// Executable parsing.
// ---------------------------------------------------------------------
/// Reads one thumbnail object at `pos`.
fn parse_thumbnail_at(text: &Vec<char>, pos: usize) -> (r: Option<(Thumbnail, usize)>)
    requires
        pos <= text@.len(),
    ensures
        r matches Some(v) ==> pos < v.1 <= text@.len() && parse_thumbnail(text@.skip(pos as int))
            == Some((v.0.deep_view(), text@.skip(v.1 as int))),
        r is None ==> parse_thumbnail(text@.skip(pos as int)) is None,
{
    let ghost t = text@.skip(pos as int);
    let p1 = match expect_lit(text, pos, "{\n      \"height\": ") {
        Some(p) => p,
        None => {
            return None;
        },
    };
    proof {
        reveal_strlit("{\n      \"height\": ");
        assert(pos < p1);
        assert(text@.skip(p1 as int) =~= t.skip("{\n      \"height\": "@.len() as int));
    }
    let (height, p2) = match parse_number_at(text, p1) {
        Some(v) => v,
        None => {
            return None;
        },
    };
    let p3 = match expect_lit(text, p2, ",\n      \"url\": ") {
        Some(p) => p,
        None => {
            return None;
        },
    };
    proof {
        assert(text@.skip(p3 as int) =~= text@.skip(p2 as int).skip(
            ",\n      \"url\": "@.len() as int,
        ));
    }
    let (url, p4) = match parse_string_at(text, p3) {
        Some(v) => v,
        None => {
            return None;
        },
    };
    let p5 = match expect_lit(text, p4, ",\n      \"width\": ") {
        Some(p) => p,
        None => {
            return None;
        },
    };
    proof {
        assert(text@.skip(p5 as int) =~= text@.skip(p4 as int).skip(
            ",\n      \"width\": "@.len() as int,
        ));
    }
    let (width, p6) = match parse_number_at(text, p5) {
        Some(v) => v,
        None => {
            return None;
        },
    };
    let p7 = match expect_lit(text, p6, "\n    }") {
        Some(p) => p,
        None => {
            return None;
        },
    };
    proof {
        assert(text@.skip(p7 as int) =~= text@.skip(p6 as int).skip("\n    }"@.len() as int));
    }
    Some((Thumbnail { height, url: chars_to_string(url), width }, p7))
}

/// Reads a best-effort thumbnail slot at `pos`.
fn parse_opt_thumbnail_at(text: &Vec<char>, pos: usize) -> (r: Option<(Option<Thumbnail>, usize)>)
    requires
        pos <= text@.len(),
    ensures
        r matches Some(v) ==> pos < v.1 <= text@.len() && parse_opt_thumbnail(
            text@.skip(pos as int),
        ) == Some((v.0.deep_view(), text@.skip(v.1 as int))),
        r is None ==> parse_opt_thumbnail(text@.skip(pos as int)) is None,
{
    match expect_lit(text, pos, "null") {
        Some(p) => {
            proof {
                reveal_strlit("null");
                assert(text@.skip(p as int) =~= text@.skip(pos as int).skip(
                    "null"@.len() as int,
                ));
            }
            Some((None, p))
        },
        None => {
            match parse_thumbnail_at(text, pos) {
                Some((t, p)) => Some((Some(t), p)),
                None => None,
            }
        },
    }
}

/// Reads an optional string field at `pos`.
fn parse_opt_str_at(text: &Vec<char>, pos: usize) -> (r: Option<(Option<String>, usize)>)
    requires
        pos <= text@.len(),
    ensures
        r matches Some(v) ==> pos < v.1 <= text@.len() && parse_opt_str(text@.skip(pos as int))
            == Some((v.0.deep_view(), text@.skip(v.1 as int))),
        r is None ==> parse_opt_str(text@.skip(pos as int)) is None,
{
    match expect_lit(text, pos, "null") {
        Some(p) => {
            proof {
                reveal_strlit("null");
                assert(text@.skip(p as int) =~= text@.skip(pos as int).skip(
                    "null"@.len() as int,
                ));
            }
            Some((None, p))
        },
        None => {
            match parse_string_at(text, pos) {
                Some((s, p)) => Some((Some(chars_to_string(s)), p)),
                None => None,
            }
        },
    }
}

/// Reads the thumbnail set object at `pos`.
fn parse_thumbnails_at(text: &Vec<char>, pos: usize) -> (r: Option<(Thumbnails, usize)>)
    requires
        pos <= text@.len(),
    ensures
        r matches Some(v) ==> pos < v.1 <= text@.len() && parse_thumbnails(text@.skip(pos as int))
            == Some((v.0.deep_view(), text@.skip(v.1 as int))),
        r is None ==> parse_thumbnails(text@.skip(pos as int)) is None,
{
    let ghost t = text@.skip(pos as int);
    let p1 = match expect_lit(text, pos, "{\n    \"default\": ") {
        Some(p) => p,
        None => {
            return None;
        },
    };
    proof {
        reveal_strlit("{\n    \"default\": ");
        assert(pos < p1);
        assert(text@.skip(p1 as int) =~= t.skip("{\n    \"default\": "@.len() as int));
    }
    let (default, p2) = match parse_thumbnail_at(text, p1) {
        Some(v) => v,
        None => {
            return None;
        },
    };
    let p3 = match expect_lit(text, p2, ",\n    \"medium\": ") {
        Some(p) => p,
        None => {
            return None;
        },
    };
    proof {
        assert(text@.skip(p3 as int) =~= text@.skip(p2 as int).skip(
            ",\n    \"medium\": "@.len() as int,
        ));
    }
    let (medium, p4) = match parse_thumbnail_at(text, p3) {
        Some(v) => v,
        None => {
            return None;
        },
    };
    let p5 = match expect_lit(text, p4, ",\n    \"high\": ") {
        Some(p) => p,
        None => {
            return None;
        },
    };
    proof {
        assert(text@.skip(p5 as int) =~= text@.skip(p4 as int).skip(
            ",\n    \"high\": "@.len() as int,
        ));
    }
    let (high, p6) = match parse_thumbnail_at(text, p5) {
        Some(v) => v,
        None => {
            return None;
        },
    };
    let p7 = match expect_lit(text, p6, ",\n    \"standard\": ") {
        Some(p) => p,
        None => {
            return None;
        },
    };
    proof {
        assert(text@.skip(p7 as int) =~= text@.skip(p6 as int).skip(
            ",\n    \"standard\": "@.len() as int,
        ));
    }
    let (standard, p8) = match parse_opt_thumbnail_at(text, p7) {
        Some(v) => v,
        None => {
            return None;
        },
    };
    let p9 = match expect_lit(text, p8, ",\n    \"maxres\": ") {
        Some(p) => p,
        None => {
            return None;
        },
    };
    proof {
        assert(text@.skip(p9 as int) =~= text@.skip(p8 as int).skip(
            ",\n    \"maxres\": "@.len() as int,
        ));
    }
    let (maxres, p10) = match parse_opt_thumbnail_at(text, p9) {
        Some(v) => v,
        None => {
            return None;
        },
    };
    let p11 = match expect_lit(text, p10, "\n  }") {
        Some(p) => p,
        None => {
            return None;
        },
    };
    proof {
        assert(text@.skip(p11 as int) =~= text@.skip(p10 as int).skip("\n  }"@.len() as int));
    }
    let ts = Thumbnails { default, medium, high, standard, maxres };
    proof {
        assert(ts@.standard == standard.deep_view());
        assert(ts@.maxres == maxres.deep_view());
    }
    Some((ts, p11))
}

/// Reads one whole video document; text the grammar refuses, or text
/// going on past the document, is a corrupt snapshot.
#[verifier::rlimit(100)]
pub fn decode_video(text: &Vec<char>) -> (r: Result<Video, PipelineError>)
    ensures
        r matches Ok(v) ==> parse_video_doc(text@) == Some(v.deep_view()),
        r matches Err(e) ==> e == PipelineError::CorruptSnapshot && parse_video_doc(text@)
            is None,
{
    let ghost t = text@;
    proof {
        assert(text@.skip(0) =~= text@);
    }
    let p1 = match expect_lit(text, 0, "{\n  \"title\": ") {
        Some(p) => p,
        None => {
            return Err(PipelineError::CorruptSnapshot);
        },
    };
    proof {
        assert(text@.skip(p1 as int) =~= t.skip("{\n  \"title\": "@.len() as int));
    }
    let (title, p2) = match parse_string_at(text, p1) {
        Some(v) => v,
        None => {
            return Err(PipelineError::CorruptSnapshot);
        },
    };
    let p3 = match expect_lit(text, p2, ",\n  \"video_published_at\": ") {
        Some(p) => p,
        None => {
            return Err(PipelineError::CorruptSnapshot);
        },
    };
    proof {
        assert(text@.skip(p3 as int) =~= text@.skip(p2 as int).skip(
            ",\n  \"video_published_at\": "@.len() as int,
        ));
    }
    let (video_published_at, p4) = match parse_opt_str_at(text, p3) {
        Some(v) => v,
        None => {
            return Err(PipelineError::CorruptSnapshot);
        },
    };
    let p5 = match expect_lit(text, p4, ",\n  \"start_at\": ") {
        Some(p) => p,
        None => {
            return Err(PipelineError::CorruptSnapshot);
        },
    };
    proof {
        assert(text@.skip(p5 as int) =~= text@.skip(p4 as int).skip(
            ",\n  \"start_at\": "@.len() as int,
        ));
    }
    let (start_at, p6) = match parse_opt_str_at(text, p5) {
        Some(v) => v,
        None => {
            return Err(PipelineError::CorruptSnapshot);
        },
    };
    let p7 = match expect_lit(text, p6, ",\n  \"end_at\": ") {
        Some(p) => p,
        None => {
            return Err(PipelineError::CorruptSnapshot);
        },
    };
    proof {
        assert(text@.skip(p7 as int) =~= text@.skip(p6 as int).skip(
            ",\n  \"end_at\": "@.len() as int,
        ));
    }
    let (end_at, p8) = match parse_opt_str_at(text, p7) {
        Some(v) => v,
        None => {
            return Err(PipelineError::CorruptSnapshot);
        },
    };
    let p9 = match expect_lit(text, p8, ",\n  \"video_id\": ") {
        Some(p) => p,
        None => {
            return Err(PipelineError::CorruptSnapshot);
        },
    };
    proof {
        assert(text@.skip(p9 as int) =~= text@.skip(p8 as int).skip(
            ",\n  \"video_id\": "@.len() as int,
        ));
    }
    let (video_id, p10) = match parse_string_at(text, p9) {
        Some(v) => v,
        None => {
            return Err(PipelineError::CorruptSnapshot);
        },
    };
    let p11 = match expect_lit(text, p10, ",\n  \"published_at\": ") {
        Some(p) => p,
        None => {
            return Err(PipelineError::CorruptSnapshot);
        },
    };
    proof {
        assert(text@.skip(p11 as int) =~= text@.skip(p10 as int).skip(
            ",\n  \"published_at\": "@.len() as int,
        ));
    }
    let (published_at, p12) = match parse_string_at(text, p11) {
        Some(v) => v,
        None => {
            return Err(PipelineError::CorruptSnapshot);
        },
    };
    let p13 = match expect_lit(text, p12, ",\n  \"description\": ") {
        Some(p) => p,
        None => {
            return Err(PipelineError::CorruptSnapshot);
        },
    };
    proof {
        assert(text@.skip(p13 as int) =~= text@.skip(p12 as int).skip(
            ",\n  \"description\": "@.len() as int,
        ));
    }
    let (description, p14) = match parse_string_at(text, p13) {
        Some(v) => v,
        None => {
            return Err(PipelineError::CorruptSnapshot);
        },
    };
    let p15 = match expect_lit(text, p14, ",\n  \"thumbnails\": ") {
        Some(p) => p,
        None => {
            return Err(PipelineError::CorruptSnapshot);
        },
    };
    proof {
        assert(text@.skip(p15 as int) =~= text@.skip(p14 as int).skip(
            ",\n  \"thumbnails\": "@.len() as int,
        ));
    }
    let (thumbnails, p16) = match parse_thumbnails_at(text, p15) {
        Some(v) => v,
        None => {
            return Err(PipelineError::CorruptSnapshot);
        },
    };
    let ghost rsuf = text@.skip(p16 as int);
    let fin = expect_lit(text, p16, "\n}");
    let is_end = match fin {
        Some(e) => e == text.len(),
        None => false,
    };
    if !is_end {
        proof {
            reveal_strlit("\n}");
            assert(rsuf != "\n}"@) by {
                if rsuf == "\n}"@ {
                    assert(starts_with(rsuf, "\n}"@)) by {
                        assert(rsuf.take(2) =~= rsuf);
                    }
                    assert(p16 + 2 == text@.len());
                    match fin {
                        Some(e) => {
                            assert(e == p16 + 2);
                        },
                        None => {},
                    }
                }
            }
        }
        return Err(PipelineError::CorruptSnapshot);
    }
    proof {
        reveal_strlit("\n}");
        assert(rsuf =~= "\n}"@);
    }
    let v = Video {
        title: chars_to_string(title),
        video_published_at,
        start_at,
        end_at,
        video_id: chars_to_string(video_id),
        published_at: chars_to_string(published_at),
        description: chars_to_string(description),
        thumbnails,
    };
    proof {
        assert(v@.video_published_at == video_published_at.deep_view());
        assert(v@.start_at == start_at.deep_view());
        assert(v@.end_at == end_at.deep_view());
    }
    Ok(v)
}

// ---------------------------------------------------------------------
// Planning the files of a refresh.
// ---------------------------------------------------------------------
/// One file the store will write: its name and its text.
pub struct VideoFile {
    pub name: String,
    pub content: Vec<char>,
}

/// The mathematical view of a [`VideoFile`].
pub struct VideoFileView {
    pub name: Seq<char>,
    pub content: Seq<char>,
}

impl View for VideoFile {
    type V = VideoFileView;

    open spec fn view(&self) -> VideoFileView {
        VideoFileView { name: self.name@, content: self.content@ }
    }
}

impl DeepView for VideoFile {
    type V = VideoFileView;

    open spec fn deep_view(&self) -> VideoFileView {
        self.view()
    }
}

/// The file name a video is stored under.
pub open spec fn spec_file_name(id: Seq<char>) -> Seq<char> {
    id + ".json"@
}

/// Computes the file name of a video.
pub fn video_file_name(v: &Video) -> (r: String)
    ensures
        r@ == spec_file_name(v@.video_id),
{
    v.video_id.clone().concat(".json")
}

/// The index of the first file named `name`, or minus one.
pub open spec fn find_name(acc: Seq<VideoFileView>, name: Seq<char>) -> int
    decreases acc.len(),
{
    if acc.len() == 0 {
        -1
    } else if acc.first().name == name {
        0
    } else {
        let r = find_name(acc.drop_first(), name);
        if r == -1 {
            -1
        } else {
            1 + r
        }
    }
}

/// One write of a refresh: a new name is appended, a name already
/// planned is overwritten in place — the last write wins.
pub open spec fn plan_step(acc: Seq<VideoFileView>, v: VideoView) -> Seq<VideoFileView> {
    let f = VideoFileView { name: spec_file_name(v.video_id), content: render_video(v) };
    let k = find_name(acc, f.name);
    if k == -1 {
        acc.push(f)
    } else {
        acc.update(k, f)
    }
}

/// The writes of a refresh folded over the videos, in encounter order.
pub open spec fn spec_plan_from(acc: Seq<VideoFileView>, s: Seq<VideoView>) -> Seq<VideoFileView>
    decreases s.len(),
{
    if s.len() == 0 {
        acc
    } else {
        spec_plan_from(plan_step(acc, s.first()), s.drop_first())
    }
}

/// The final file set of a refresh over `s`: one file per distinct
/// video identifier, in order of first encounter, each holding the
/// document of the last encounter with that identifier.
pub open spec fn spec_plan(s: Seq<VideoView>) -> Seq<VideoFileView> {
    spec_plan_from(Seq::empty(), s)
}

proof fn lemma_find_name_at(acc: Seq<VideoFileView>, name: Seq<char>, k: int)
    requires
        0 <= k < acc.len(),
        forall|j: int| 0 <= j < k ==> (#[trigger] acc[j]).name != name,
        acc[k].name == name,
    ensures
        find_name(acc, name) == k,
    decreases k,
{
    if k == 0 {
        assert(acc.first() == acc[0]);
    } else {
        assert(acc.first() == acc[0]);
        assert(acc[0].name != name);
        assert(forall|j: int|
            0 <= j < acc.drop_first().len() ==> #[trigger] acc.drop_first()[j] == acc[j + 1]);
        lemma_find_name_at(acc.drop_first(), name, k - 1);
    }
}

proof fn lemma_find_name_none(acc: Seq<VideoFileView>, name: Seq<char>)
    requires
        forall|j: int| 0 <= j < acc.len() ==> (#[trigger] acc[j]).name != name,
    ensures
        find_name(acc, name) == -1,
    decreases acc.len(),
{
    if acc.len() > 0 {
        assert(acc.first() == acc[0]);
        assert(forall|j: int|
            0 <= j < acc.drop_first().len() ==> #[trigger] acc.drop_first()[j] == acc[j + 1]);
        lemma_find_name_none(acc.drop_first(), name);
    }
}

proof fn lemma_plan_from_snoc(acc: Seq<VideoFileView>, s: Seq<VideoView>, v: VideoView)
    ensures
        spec_plan_from(acc, s.push(v)) == plan_step(spec_plan_from(acc, s), v),
    decreases s.len(),
{
    if s.len() == 0 {
        assert(s.push(v).first() == v);
        assert(s.push(v).drop_first() =~= Seq::<VideoView>::empty());
        assert(spec_plan_from(acc, s.push(v)) == spec_plan_from(
            plan_step(acc, v),
            Seq::empty(),
        ));
        assert(spec_plan_from(acc, s) == acc);
    } else {
        assert(s.push(v).first() == s.first());
        assert(s.push(v).drop_first() =~= s.drop_first().push(v));
        assert(spec_plan_from(acc, s.push(v)) == spec_plan_from(
            plan_step(acc, s.first()),
            s.drop_first().push(v),
        ));
        lemma_plan_from_snoc(plan_step(acc, s.first()), s.drop_first(), v);
        assert(spec_plan_from(acc, s) == spec_plan_from(
            plan_step(acc, s.first()),
            s.drop_first(),
        ));
    }
}


/// The planned file names are pairwise distinct.
pub open spec fn distinct_names(acc: Seq<VideoFileView>) -> bool {
    forall|i: int, j: int|
        #![trigger acc[i], acc[j]]
        0 <= i < j < acc.len() ==> acc[i].name != acc[j].name
}

proof fn lemma_find_name_props(acc: Seq<VideoFileView>, name: Seq<char>)
    ensures
        find_name(acc, name) == -1 ==> forall|j: int|
            0 <= j < acc.len() ==> (#[trigger] acc[j]).name != name,
        find_name(acc, name) != -1 ==> 0 <= find_name(acc, name) < acc.len() && acc[find_name(
            acc,
            name,
        )].name == name,
    decreases acc.len(),
{
    if acc.len() > 0 {
        assert(acc.first() == acc[0]);
        lemma_find_name_props(acc.drop_first(), name);
        assert(forall|j: int| 1 <= j < acc.len() ==> #[trigger] acc[j] == acc.drop_first()[j - 1]);
    }
}

proof fn lemma_plan_step_distinct(acc: Seq<VideoFileView>, v: VideoView)
    requires
        distinct_names(acc),
    ensures
        distinct_names(plan_step(acc, v)),
{
    let f = VideoFileView { name: spec_file_name(v.video_id), content: render_video(v) };
    lemma_find_name_props(acc, f.name);
    let k = find_name(acc, f.name);
    if k == -1 {
        let r = acc.push(f);
        assert forall|i: int, j: int|
            #![trigger r[i], r[j]]
            0 <= i < j < r.len() implies r[i].name != r[j].name by {
            if j == r.len() - 1 {
                assert(r[i] == acc[i]);
            }
        }
    } else {
        let r = acc.update(k, f);
        assert(r[k].name == acc[k].name);
        assert forall|i: int, j: int|
            #![trigger r[i], r[j]]
            0 <= i < j < r.len() implies r[i].name != r[j].name by {
            assert(r[i].name == acc[i].name);
            assert(r[j].name == acc[j].name);
        }
    }
}

proof fn lemma_plan_from_distinct(acc: Seq<VideoFileView>, s: Seq<VideoView>)
    requires
        distinct_names(acc),
    ensures
        distinct_names(spec_plan_from(acc, s)),
    decreases s.len(),
{
    if s.len() > 0 {
        lemma_plan_step_distinct(acc, s.first());
        lemma_plan_from_distinct(plan_step(acc, s.first()), s.drop_first());
    }
}

/// A refresh writes exactly one file per video identifier: however many
/// playlists share a video, the planned names are pairwise distinct.
pub proof fn lemma_plan_names_unique(s: Seq<VideoView>)
    ensures
        distinct_names(spec_plan(s)),
{
    lemma_plan_from_distinct(Seq::empty(), s);
}

/// The index of the first planned file with this name, if any.
fn find_planned(out: &Vec<VideoFile>, name: &String) -> (r: Option<usize>)
    ensures
        r matches Some(k) ==> k < out@.len() && out.deep_view()[k as int].name == name@ && (
        forall|j: int| 0 <= j < k ==> (#[trigger] out.deep_view()[j]).name != name@),
        r is None ==> forall|j: int|
            0 <= j < out@.len() ==> (#[trigger] out.deep_view()[j]).name != name@,
{
    let m = out.len();
    let mut k: usize = 0;
    #[verifier::loop_isolation(false)]
    while k < m
        invariant
            k <= m,
            m == out@.len(),
            forall|j: int| 0 <= j < k ==> (#[trigger] out.deep_view()[j]).name != name@,
        decreases m - k,
    {
        if out[k].name == *name {
            proof {
                assert(out.deep_view()[k as int] == out@[k as int].deep_view());
            }
            return Some(k);
        }
        proof {
            assert(out.deep_view()[k as int] == out@[k as int].deep_view());
        }
        k = k + 1;
    }
    None
}

/// Plans the files a refresh writes for `videos`, in encounter order,
/// overwriting earlier encounters of the same identifier.
#[verifier::rlimit(100)]
pub fn plan_video_writes(videos: &Vec<Video>) -> (r: Vec<VideoFile>)
    ensures
        r.deep_view() == spec_plan(videos.deep_view()),
{
    let ghost dv = videos.deep_view();
    let mut out: Vec<VideoFile> = Vec::new();
    let n = videos.len();
    let mut i: usize = 0;
    proof {
        assert(dv.take(0) =~= Seq::<VideoView>::empty());
        assert(out.deep_view() =~= Seq::<VideoFileView>::empty());
    }
    #[verifier::loop_isolation(false)]
    while i < n
        invariant
            i <= n,
            n == videos@.len(),
            out.deep_view() == spec_plan(dv.take(i as int)),
        decreases n - i,
    {
        let ghost acc = out.deep_view();
        let v = &videos[i];
        proof {
            assert(v.deep_view() == dv[i as int]);
            assert(dv.take(i + 1) =~= dv.take(i as int).push(dv[i as int]));
            lemma_plan_from_snoc(Seq::empty(), dv.take(i as int), dv[i as int]);
        }
        let name = video_file_name(v);
        let content = render_video_text(v);
        let slot = find_planned(&out, &name);
        let f = VideoFile { name, content };
        proof {
            assert(f.deep_view() == (VideoFileView {
                name: spec_file_name(dv[i as int].video_id),
                content: render_video(dv[i as int]),
            }));
        }
        if let Some(k) = slot {
            proof {
                lemma_find_name_at(acc, f@.name, k as int);
            }
            let ghost out0 = out@;
            out[k] = f;
            proof {
                assert(forall|j: int|
                    0 <= j < out@.len() && j != k ==> #[trigger] out@[j] == out0[j]);
                assert(out.deep_view() =~= acc.update(k as int, f.deep_view()));
                assert(out.deep_view() == spec_plan(dv.take(i + 1)));
            }
        } else {
            proof {
                lemma_find_name_none(acc, f@.name);
            }
            let ghost out0 = out@;
            out.push(f);
            proof {
                assert(forall|j: int| 0 <= j < out0.len() ==> #[trigger] out@[j] == out0[j]);
                assert(out.deep_view() =~= acc.push(f.deep_view()));
                assert(out.deep_view() == spec_plan(dv.take(i + 1)));
            }
        }
        i = i + 1;
    }
    proof {
        assert(dv.take(n as int) =~= dv);
    }
    out
}

// ---------------------------------------------------------------------
// The store's two modes.
// ---------------------------------------------------------------------
/// Every fetched playlist's items are mappable.
pub open spec fn all_lists_mappable(s: Seq<Seq<RawPlaylistItemView>>) -> bool {
    forall|i: int| 0 <= i < s.len() ==> all_items_mappable(#[trigger] s[i])
}

/// The videos of all playlists, mapped and concatenated in fetch order.
pub open spec fn concat_mapped(s: Seq<Seq<RawPlaylistItemView>>) -> Seq<VideoView>
    decreases s.len(),
{
    if s.len() == 0 {
        Seq::empty()
    } else {
        concat_mapped(s.drop_last()) + spec_map_items(s.last())
    }
}

/// The refresh mode of the video store, after the fetches: maps each
/// playlist's raw items in order, dropping unavailable ones, and plans
/// one file per video identifier, the last encounter winning. Both
/// results are functions of the fetched records alone.
pub fn refresh_videos(raw_lists: Vec<Vec<RawPlaylistItem>>) -> (r: Result<
    (Vec<Video>, Vec<VideoFile>),
    PipelineError,
>)
    ensures
        all_lists_mappable(raw_lists.deep_view()) ==> (r matches Ok(pr) && pr.0.deep_view()
            == concat_mapped(raw_lists.deep_view()) && pr.1.deep_view() == spec_plan(
            concat_mapped(raw_lists.deep_view()),
        )),
        !all_lists_mappable(raw_lists.deep_view()) ==> (r matches Err(e) && e
            == PipelineError::MalformedRecord),
{
    let ghost orig = raw_lists.deep_view();
    let mut rem = raw_lists;
    let mut videos: Vec<Video> = Vec::new();
    proof {
        assert(orig.take(0) =~= Seq::<Seq<RawPlaylistItemView>>::empty());
        assert(videos.deep_view() =~= Seq::<VideoView>::empty());
    }
    #[verifier::loop_isolation(false)]
    loop
        invariant
            rem@.len() <= orig.len(),
            rem.deep_view() =~= orig.skip(orig.len() - rem@.len()),
            videos.deep_view() == concat_mapped(orig.take(orig.len() - rem@.len())),
            forall|i: int|
                0 <= i < orig.len() - rem@.len() ==> all_items_mappable(#[trigger] orig[i]),
        decreases rem@.len(),
    {
        let ghost done = orig.len() - rem@.len();
        if rem.is_empty() {
            proof {
                assert(orig.take(done) =~= orig);
            }
            let files = plan_video_writes(&videos);
            return Ok((videos, files));
        }
        let ghost rem0 = rem@;
        let ghost dv0 = rem.deep_view();
        let list = rem.remove(0);
        proof {
            assert(list == rem0[0]);
            assert(list.deep_view() == dv0[0]);
            assert(list.deep_view() == orig[done]);
            assert(forall|i: int| 0 <= i < rem@.len() ==> #[trigger] rem@[i] == rem0[i + 1]);
            assert(forall|i: int|
                0 <= i < rem@.len() ==> #[trigger] rem.deep_view()[i] == dv0[i + 1]);
            assert(rem.deep_view() =~= orig.skip(done + 1));
            assert(orig.take(done + 1).drop_last() =~= orig.take(done));
            assert(orig.take(done + 1).last() == orig[done]);
        }
        match map_playlist_items(list) {
            Ok(mut chunk) => {
                let ghost vs0 = videos.deep_view();
                let ghost ch = chunk.deep_view();
                proof {
                    assert(ch == spec_map_items(orig[done]));
                }
                videos.append(&mut chunk);
                proof {
                    assert(forall|i: int|
                        0 <= i < vs0.len() ==> #[trigger] videos.deep_view()[i] == vs0[i]);
                    assert(forall|i: int|
                        0 <= i < ch.len() ==> #[trigger] videos.deep_view()[vs0.len() + i]
                            == ch[i]);
                    assert(videos.deep_view() =~= vs0 + ch);
                    assert(videos.deep_view() =~= concat_mapped(orig.take(done + 1)));
                }
            },
            Err(e) => {
                proof {
                    assert(!all_items_mappable(orig[done]));
                }
                return Err(e);
            },
        }
    }
}

/// Every stored document parses.
pub open spec fn all_docs_parse(s: Seq<Seq<char>>) -> bool {
    forall|i: int| 0 <= i < s.len() ==> parse_video_doc(#[trigger] s[i]) is Some
}

/// The videos the stored documents hold, in the given order.
pub open spec fn spec_load_videos(s: Seq<Seq<char>>) -> Seq<VideoView> {
    s.map_values(|t: Seq<char>| parse_video_doc(t)->0)
}

/// The cached-read mode of the video store, after the directory read:
/// parses every document; one unparseable document aborts the whole
/// load as a corrupt snapshot, with no partial result.
pub fn load_videos(texts: &Vec<Vec<char>>) -> (r: Result<Vec<Video>, PipelineError>)
    ensures
        all_docs_parse(texts.deep_view()) ==> (r matches Ok(vs) && vs.deep_view()
            == spec_load_videos(texts.deep_view())),
        !all_docs_parse(texts.deep_view()) ==> (r matches Err(e) && e
            == PipelineError::CorruptSnapshot),
{
    let ghost dv = texts.deep_view();
    let mut out: Vec<Video> = Vec::new();
    let n = texts.len();
    let mut i: usize = 0;
    proof {
        assert(dv.take(0) =~= Seq::<Seq<char>>::empty());
        assert(out.deep_view() =~= dv.take(0).map_values(
            |t: Seq<char>| parse_video_doc(t)->0,
        ));
    }
    #[verifier::loop_isolation(false)]
    while i < n
        invariant
            i <= n,
            n == texts@.len(),
            out.deep_view() =~= dv.take(i as int).map_values(
                |t: Seq<char>| parse_video_doc(t)->0,
            ),
            forall|j: int| 0 <= j < i ==> parse_video_doc(#[trigger] dv[j]) is Some,
        decreases n - i,
    {
        proof {
            assert(dv[i as int] == texts@[i as int].deep_view());
            assert(texts@[i as int].deep_view() =~= texts@[i as int]@);
        }
        match decode_video(&texts[i]) {
            Ok(v) => {
                let ghost out0 = out.deep_view();
                out.push(v);
                proof {
                    assert(forall|j: int|
                        0 <= j < out0.len() ==> #[trigger] out.deep_view()[j] == out0[j]);
                    assert(out.deep_view()[out0.len() as int] == v.deep_view());
                    assert(out.deep_view() =~= dv.take(i + 1).map_values(
                        |t: Seq<char>| parse_video_doc(t)->0,
                    ));
                }
            },
            Err(_) => {
                proof {
                    assert(parse_video_doc(dv[i as int]) is None);
                }
                return Err(PipelineError::CorruptSnapshot);
            },
        }
        i = i + 1;
    }
    proof {
        assert(dv.take(n as int) =~= dv);
    }
    Ok(out)
}

} // verus!
