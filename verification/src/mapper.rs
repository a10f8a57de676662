//! The entity mapper: pure conversion of raw API records into domain
//! entities, applying the availability predicate and the required-field
//! validation.
//!
//! Every "required field" access is an explicit validation step: a record
//! with a required field absent yields `PipelineError::MalformedRecord`
//! rather than a panic. Optional fields are preserved present-or-absent.

use vstd::prelude::*;

use crate::domain::{
    Playlist, PlaylistView, Thumbnail, ThumbnailView, Thumbnails, ThumbnailsView, Video, VideoView,
};
use crate::raw::{
    RawPlaylist, RawPlaylistItem, RawPlaylistItemView, RawPlaylistView, RawThumbnail,
    RawThumbnailView, RawThumbnails, RawThumbnailsView,
};
use crate::PipelineError;

verus! {

/// All fields the pipeline reads from a raw playlist are present.
pub open spec fn playlist_fields_present(r: RawPlaylistView) -> bool {
    &&& r.id is Some
    &&& r.title is Some
    &&& r.published_at is Some
    &&& r.item_count is Some
    &&& r.etag is Some
}

/// The playlist a complete raw record maps to.
pub open spec fn spec_map_playlist(r: RawPlaylistView) -> PlaylistView {
    PlaylistView {
        id: r.id->0,
        title: r.title->0,
        published_at: r.published_at->0,
        item_count: r.item_count->0,
        etag: r.etag->0,
    }
}

/// All three fields of a raw thumbnail are present.
pub open spec fn thumbnail_fields_present(r: RawThumbnailView) -> bool {
    &&& r.height is Some
    &&& r.url is Some
    &&& r.width is Some
}

/// The thumbnail a complete raw record maps to.
pub open spec fn spec_map_thumbnail(r: RawThumbnailView) -> ThumbnailView {
    ThumbnailView { height: r.height->0, url: r.url->0, width: r.width->0 }
}

/// A best-effort thumbnail slot is acceptable when it is absent or, when
/// present, complete.
pub open spec fn opt_thumbnail_ok(r: Option<RawThumbnailView>) -> bool {
    match r {
        Some(t) => thumbnail_fields_present(t),
        None => true,
    }
}

/// What a best-effort thumbnail slot maps to: absence is preserved.
pub open spec fn spec_map_opt_thumbnail(r: Option<RawThumbnailView>) -> Option<ThumbnailView> {
    match r {
        Some(t) => Some(spec_map_thumbnail(t)),
        None => None,
    }
}

/// The thumbnail set of a playlist item is acceptable: `default`, `medium`
/// and `high` are required and complete, `standard` and `maxres` are
/// best-effort.
pub open spec fn thumbnails_fields_present(r: RawThumbnailsView) -> bool {
    &&& r.default is Some && thumbnail_fields_present(r.default->0)
    &&& r.medium is Some && thumbnail_fields_present(r.medium->0)
    &&& r.high is Some && thumbnail_fields_present(r.high->0)
    &&& opt_thumbnail_ok(r.standard)
    &&& opt_thumbnail_ok(r.maxres)
}

/// The thumbnail set an acceptable raw set maps to.
pub open spec fn spec_map_thumbnails(r: RawThumbnailsView) -> ThumbnailsView {
    ThumbnailsView {
        default: spec_map_thumbnail(r.default->0),
        medium: spec_map_thumbnail(r.medium->0),
        high: spec_map_thumbnail(r.high->0),
        standard: spec_map_opt_thumbnail(r.standard),
        maxres: spec_map_opt_thumbnail(r.maxres),
    }
}

/// The availability predicate: only items whose privacy status is exactly
/// "public" or "unlisted" are archived; private or deleted items, and
/// items with no status at all, are dropped.
pub open spec fn video_available(r: RawPlaylistItemView) -> bool {
    &&& r.status is Some
    &&& r.status->0.privacy_status is Some
    &&& (r.status->0.privacy_status->0 == "public"@ || r.status->0.privacy_status->0
        == "unlisted"@)
}

/// All required fields of an available playlist item are present.
pub open spec fn video_fields_present(r: RawPlaylistItemView) -> bool {
    &&& r.title is Some
    &&& r.video_id is Some
    &&& r.published_at is Some
    &&& r.description is Some
    &&& r.thumbnails is Some && thumbnails_fields_present(r.thumbnails->0)
}

/// The video an available, complete raw playlist item maps to. The
/// optional timing fields are preserved present-or-absent.
pub open spec fn spec_map_video(r: RawPlaylistItemView) -> VideoView {
    VideoView {
        title: r.title->0,
        video_published_at: r.video_published_at,
        start_at: r.start_at,
        end_at: r.end_at,
        video_id: r.video_id->0,
        published_at: r.published_at->0,
        description: r.description->0,
        thumbnails: spec_map_thumbnails(r.thumbnails->0),
    }
}

/// Maps a raw playlist record, failing on any absent required field.
pub fn map_playlist(r: RawPlaylist) -> (res: Result<Playlist, PipelineError>)
    ensures
        playlist_fields_present(r@) ==> (res matches Ok(p) && p@ == spec_map_playlist(r@)),
        !playlist_fields_present(r@) ==> (res matches Err(e) && e == PipelineError::MalformedRecord),
{
    let RawPlaylist { id, title, published_at, item_count, etag } = r;
    match (id, title, published_at, item_count, etag) {
        (Some(id), Some(title), Some(published_at), Some(item_count), Some(etag)) => Ok(
            Playlist { id, title, published_at, item_count, etag },
        ),
        _ => Err(PipelineError::MalformedRecord),
    }
}

/// Maps a raw thumbnail record, failing on any absent field.
pub fn map_thumbnail(r: RawThumbnail) -> (res: Result<Thumbnail, PipelineError>)
    ensures
        thumbnail_fields_present(r@) ==> (res matches Ok(t) && t@ == spec_map_thumbnail(r@)),
        !thumbnail_fields_present(r@) ==> (res matches Err(e) && e
            == PipelineError::MalformedRecord),
{
    let RawThumbnail { height, url, width } = r;
    match (height, url, width) {
        (Some(height), Some(url), Some(width)) => Ok(Thumbnail { height, url, width }),
        _ => Err(PipelineError::MalformedRecord),
    }
}

/// Maps a best-effort thumbnail slot: absence is preserved, an incomplete
/// present thumbnail is a malformed record.
fn map_opt_thumbnail(r: Option<RawThumbnail>) -> (res: Result<Option<Thumbnail>, PipelineError>)
    ensures
        opt_thumbnail_ok(r.deep_view()) ==> (res matches Ok(t) && t.deep_view()
            == spec_map_opt_thumbnail(r.deep_view())),
        !opt_thumbnail_ok(r.deep_view()) ==> (res matches Err(e) && e
            == PipelineError::MalformedRecord),
{
    match r {
        None => Ok(None),
        Some(t) => match map_thumbnail(t) {
            Ok(t) => Ok(Some(t)),
            Err(e) => Err(e),
        },
    }
}

/// Maps the thumbnail set of a playlist item, failing when a guaranteed
/// rendition is absent or any present rendition is incomplete.
pub fn map_thumbnails(r: RawThumbnails) -> (res: Result<Thumbnails, PipelineError>)
    ensures
        thumbnails_fields_present(r@) ==> (res matches Ok(t) && t@ == spec_map_thumbnails(r@)),
        !thumbnails_fields_present(r@) ==> (res matches Err(e) && e
            == PipelineError::MalformedRecord),
{
    let RawThumbnails { default, medium, high, standard, maxres } = r;
    let (default, medium, high) = match (default, medium, high) {
        (Some(d), Some(m), Some(h)) => (d, m, h),
        _ => {
            return Err(PipelineError::MalformedRecord);
        },
    };
    let default = match map_thumbnail(default) {
        Ok(t) => t,
        Err(e) => {
            return Err(e);
        },
    };
    let medium = match map_thumbnail(medium) {
        Ok(t) => t,
        Err(e) => {
            return Err(e);
        },
    };
    let high = match map_thumbnail(high) {
        Ok(t) => t,
        Err(e) => {
            return Err(e);
        },
    };
    let standard = match map_opt_thumbnail(standard) {
        Ok(t) => t,
        Err(e) => {
            return Err(e);
        },
    };
    let maxres = match map_opt_thumbnail(maxres) {
        Ok(t) => t,
        Err(e) => {
            return Err(e);
        },
    };
    Ok(Thumbnails { default, medium, high, standard, maxres })
}

/// Decides whether a playlist item is archived at all.
pub fn is_video_available(r: &RawPlaylistItem) -> (res: bool)
    ensures
        res == video_available(r@),
{
    match &r.status {
        None => false,
        Some(status) => match &status.privacy_status {
            None => false,
            Some(p) => {
                let public = "public".to_owned();
                let unlisted = "unlisted".to_owned();
                *p == public || *p == unlisted
            },
        },
    }
}

/// Maps one raw playlist item. An unavailable item is dropped (`Ok(None)`,
/// not an error); an available item with a required field absent is a
/// malformed record; an available, complete item maps to its video.
pub fn map_video(r: RawPlaylistItem) -> (res: Result<Option<Video>, PipelineError>)
    ensures
        !video_available(r@) ==> (res matches Ok(o) && o is None),
        video_available(r@) && video_fields_present(r@) ==> (res matches Ok(o) && o matches Some(v)
            && v@ == spec_map_video(r@)),
        video_available(r@) && !video_fields_present(r@) ==> (res matches Err(e) && e
            == PipelineError::MalformedRecord),
{
    if !is_video_available(&r) {
        return Ok(None);
    }
    let RawPlaylistItem {
        status: _,
        title,
        video_published_at,
        start_at,
        end_at,
        video_id,
        published_at,
        description,
        thumbnails,
    } = r;
    let (title, video_id, published_at, description, thumbnails) = match (
        title,
        video_id,
        published_at,
        description,
        thumbnails,
    ) {
        (Some(t), Some(v), Some(p), Some(d), Some(th)) => (t, v, p, d, th),
        _ => {
            return Err(PipelineError::MalformedRecord);
        },
    };
    let thumbnails = match map_thumbnails(thumbnails) {
        Ok(t) => t,
        Err(e) => {
            return Err(e);
        },
    };
    Ok(
        Some(
            Video {
                title,
                video_published_at,
                start_at,
                end_at,
                video_id,
                published_at,
                description,
                thumbnails,
            },
        ),
    )
}

/// Every raw playlist of the collection is complete.
pub open spec fn all_playlists_present(s: Seq<RawPlaylistView>) -> bool {
    forall|i: int| 0 <= i < s.len() ==> playlist_fields_present(#[trigger] s[i])
}

/// The playlists a collection of complete raw records maps to, in order.
pub open spec fn spec_map_playlists(s: Seq<RawPlaylistView>) -> Seq<PlaylistView> {
    s.map_values(|r: RawPlaylistView| spec_map_playlist(r))
}

/// Maps a whole fetched playlist collection; one malformed record fails
/// the whole collection.
pub fn map_playlists(raws: Vec<RawPlaylist>) -> (res: Result<Vec<Playlist>, PipelineError>)
    ensures
        all_playlists_present(raws.deep_view()) ==> (res matches Ok(ps) && ps.deep_view()
            == spec_map_playlists(raws.deep_view())),
        !all_playlists_present(raws.deep_view()) ==> (res matches Err(e) && e
            == PipelineError::MalformedRecord),
{
    let ghost orig = raws.deep_view();
    let mut rem = raws;
    let mut out: Vec<Playlist> = Vec::new();
    proof {
        assert(out.deep_view() =~= orig.take(0).map_values(
            |r: RawPlaylistView| spec_map_playlist(r),
        ));
    }
    #[verifier::loop_isolation(false)]
    loop
        invariant
            rem@.len() <= orig.len(),
            rem.deep_view() =~= orig.skip(orig.len() - rem@.len()),
            out.deep_view() =~= orig.take(orig.len() - rem@.len()).map_values(
                |r: RawPlaylistView| spec_map_playlist(r),
            ),
            forall|i: int|
                0 <= i < orig.len() - rem@.len() ==> playlist_fields_present(#[trigger] orig[i]),
        decreases rem@.len(),
    {
        let ghost done = orig.len() - rem@.len();
        if rem.is_empty() {
            proof {
                assert(orig.take(done) =~= orig);
            }
            return Ok(out);
        }
        let ghost rem0 = rem@;
        let ghost dv0 = rem.deep_view();
        let r = rem.remove(0);
        proof {
            assert(r == rem0[0]);
            assert(r.deep_view() == dv0[0]);
            assert(r.deep_view() == orig[done]);
            assert(forall|i: int| 0 <= i < rem@.len() ==> #[trigger] rem@[i] == rem0[i + 1]);
            assert(forall|i: int|
                0 <= i < rem@.len() ==> #[trigger] rem.deep_view()[i] == dv0[i + 1]);
            assert(rem.deep_view() =~= orig.skip(done + 1));
        }
        match map_playlist(r) {
            Ok(p) => {
                let ghost out0 = out.deep_view();
                out.push(p);
                proof {
                    assert(forall|i: int|
                        0 <= i < out0.len() ==> #[trigger] out.deep_view()[i] == out0[i]);
                    assert(out.deep_view()[out0.len() as int] == p.deep_view());
                    assert(p.deep_view() == spec_map_playlist(orig[done]));
                    assert(out.deep_view() =~= orig.take(done + 1).map_values(
                        |r: RawPlaylistView| spec_map_playlist(r),
                    ));
                }
            },
            Err(e) => {
                proof {
                    assert(!playlist_fields_present(orig[done]));
                }
                return Err(e);
            },
        }
    }
}

/// Every available raw item of the collection is complete.
pub open spec fn all_items_mappable(s: Seq<RawPlaylistItemView>) -> bool {
    forall|i: int|
        0 <= i < s.len() ==> (video_available(#[trigger] s[i]) ==> video_fields_present(s[i]))
}

/// The videos a collection of raw playlist items maps to: unavailable
/// items dropped, the rest mapped, in order.
pub open spec fn spec_map_items(s: Seq<RawPlaylistItemView>) -> Seq<VideoView> {
    s.filter_map(
        |r: RawPlaylistItemView|
            if video_available(r) {
                Some(spec_map_video(r))
            } else {
                None
            },
    )
}

/// Maps a whole fetched playlist-item collection, dropping unavailable
/// items; one malformed available record fails the whole collection.
pub fn map_playlist_items(raws: Vec<RawPlaylistItem>) -> (res: Result<Vec<Video>, PipelineError>)
    ensures
        all_items_mappable(raws.deep_view()) ==> (res matches Ok(vs) && vs.deep_view()
            == spec_map_items(raws.deep_view())),
        !all_items_mappable(raws.deep_view()) ==> (res matches Err(e) && e
            == PipelineError::MalformedRecord),
{
    let ghost f = |r: RawPlaylistItemView|
        if video_available(r) {
            Some(spec_map_video(r))
        } else {
            None
        };
    let ghost orig = raws.deep_view();
    let mut rem = raws;
    let mut out: Vec<Video> = Vec::new();
    proof {
        assert(orig.take(0) =~= Seq::<RawPlaylistItemView>::empty());
        assert(out.deep_view() =~= orig.take(0).filter_map(f));
    }
    #[verifier::loop_isolation(false)]
    loop
        invariant
            rem@.len() <= orig.len(),
            rem.deep_view() =~= orig.skip(orig.len() - rem@.len()),
            out.deep_view() =~= orig.take(orig.len() - rem@.len()).filter_map(f),
            forall|i: int|
                0 <= i < orig.len() - rem@.len() ==> (video_available(#[trigger] orig[i])
                    ==> video_fields_present(orig[i])),
        decreases rem@.len(),
    {
        let ghost done = orig.len() - rem@.len();
        if rem.is_empty() {
            proof {
                assert(orig.take(done) =~= orig);
            }
            return Ok(out);
        }
        let ghost rem0 = rem@;
        let ghost dv0 = rem.deep_view();
        let r = rem.remove(0);
        proof {
            assert(r == rem0[0]);
            assert(r.deep_view() == dv0[0]);
            assert(r.deep_view() == orig[done]);
            assert(forall|i: int| 0 <= i < rem@.len() ==> #[trigger] rem@[i] == rem0[i + 1]);
            assert(forall|i: int|
                0 <= i < rem@.len() ==> #[trigger] rem.deep_view()[i] == dv0[i + 1]);
            assert(rem.deep_view() =~= orig.skip(done + 1));
            orig.lemma_filter_map_take_succ(f, done);
        }
        match map_video(r) {
            Ok(Some(v)) => {
                let ghost out0 = out.deep_view();
                out.push(v);
                proof {
                    assert(forall|i: int|
                        0 <= i < out0.len() ==> #[trigger] out.deep_view()[i] == out0[i]);
                    assert(out.deep_view()[out0.len() as int] == v.deep_view());
                    assert(video_available(orig[done]));
                    assert(f(orig[done]) == Some(v.deep_view()));
                    assert(out.deep_view() =~= orig.take(done + 1).filter_map(f));
                }
            },
            Ok(None) => {
                proof {
                    assert(!video_available(orig[done]));
                    assert(f(orig[done]) is None);
                    assert(out.deep_view() =~= orig.take(done + 1).filter_map(f));
                }
            },
            Err(e) => {
                proof {
                    assert(video_available(orig[done]) && !video_fields_present(orig[done]));
                }
                return Err(e);
            },
        }
    }
}

} // verus!
