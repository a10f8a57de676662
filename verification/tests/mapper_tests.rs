use yt_playlist_downloader::mapper::{
    is_video_available, map_playlist, map_playlists, map_thumbnail, map_thumbnails, map_video,
};
use yt_playlist_downloader::raw::{
    RawPlaylist, RawPlaylistItem, RawStatus, RawThumbnail, RawThumbnails,
};
use yt_playlist_downloader::PipelineError;

fn raw_thumb(height: u32, url: &str, width: u32) -> RawThumbnail {
    RawThumbnail { height: Some(height), url: Some(url.to_string()), width: Some(width) }
}

fn raw_thumbs() -> RawThumbnails {
    RawThumbnails {
        default: Some(raw_thumb(90, "u-default", 120)),
        medium: Some(raw_thumb(180, "u-medium", 320)),
        high: Some(raw_thumb(360, "u-high", 480)),
        standard: None,
        maxres: None,
    }
}

fn raw_item(privacy: Option<&str>) -> RawPlaylistItem {
    RawPlaylistItem {
        status: privacy.map(|p| RawStatus { privacy_status: Some(p.to_string()) }),
        title: Some("A Video".to_string()),
        video_published_at: Some("2021-01-01T00:00:00Z".to_string()),
        start_at: Some("00:10".to_string()),
        end_at: Some("00:20".to_string()),
        video_id: Some("vid1".to_string()),
        published_at: Some("2021-01-02T00:00:00Z".to_string()),
        description: Some("desc".to_string()),
        thumbnails: Some(raw_thumbs()),
    }
}

#[test]
fn video_private_dropped() {
    assert_eq!(map_video(raw_item(Some("private"))), Ok(None));
}

#[test]
fn video_public_kept() {
    let v = map_video(raw_item(Some("public"))).unwrap().unwrap();
    assert_eq!(v.title, "A Video");
    assert_eq!(v.video_id, "vid1");
    assert_eq!(v.start_at, Some("00:10".to_string()));
    assert_eq!(v.thumbnails.default.url, "u-default");
    assert_eq!(v.thumbnails.standard, None);
}

#[test]
fn video_unlisted_kept() {
    assert!(map_video(raw_item(Some("unlisted"))).unwrap().is_some());
}

#[test]
fn video_no_status_dropped() {
    assert_eq!(map_video(raw_item(None)), Ok(None));
}

#[test]
fn video_status_without_privacy_dropped() {
    let mut item = raw_item(None);
    item.status = Some(RawStatus { privacy_status: None });
    assert!(!is_video_available(&item));
    assert_eq!(map_video(item), Ok(None));
}

#[test]
fn video_missing_video_id_malformed() {
    let mut item = raw_item(Some("public"));
    item.video_id = None;
    assert_eq!(map_video(item), Err(PipelineError::MalformedRecord));
}

#[test]
fn video_missing_start_at_maps() {
    let mut item = raw_item(Some("public"));
    item.start_at = None;
    let v = map_video(item).unwrap().unwrap();
    assert_eq!(v.start_at, None);
    assert_eq!(v.end_at, Some("00:20".to_string()));
}

#[test]
fn video_missing_title_malformed() {
    let mut item = raw_item(Some("unlisted"));
    item.title = None;
    assert_eq!(map_video(item), Err(PipelineError::MalformedRecord));
}

#[test]
fn video_incomplete_best_effort_thumbnail_malformed() {
    let mut item = raw_item(Some("public"));
    let mut thumbs = raw_thumbs();
    thumbs.standard = Some(RawThumbnail { height: Some(1), url: None, width: Some(2) });
    item.thumbnails = Some(thumbs);
    assert_eq!(map_video(item), Err(PipelineError::MalformedRecord));
}

#[test]
fn video_missing_guaranteed_thumbnail_malformed() {
    let mut item = raw_item(Some("public"));
    let mut thumbs = raw_thumbs();
    thumbs.high = None;
    item.thumbnails = Some(thumbs);
    assert_eq!(map_video(item), Err(PipelineError::MalformedRecord));
}

#[test]
fn thumbnail_maps_all_fields() {
    let t = map_thumbnail(raw_thumb(7, "u", 9)).unwrap();
    assert_eq!((t.height, t.url.as_str(), t.width), (7, "u", 9));
}

#[test]
fn thumbnails_preserve_present_best_effort() {
    let mut thumbs = raw_thumbs();
    thumbs.maxres = Some(raw_thumb(720, "u-max", 1280));
    let t = map_thumbnails(thumbs).unwrap();
    assert_eq!(t.standard, None);
    assert_eq!(t.maxres.unwrap().url, "u-max");
}

fn raw_playlist(id: &str, title: &str) -> RawPlaylist {
    RawPlaylist {
        id: Some(id.to_string()),
        title: Some(title.to_string()),
        published_at: Some("2020-05-05T00:00:00Z".to_string()),
        item_count: Some(4),
        etag: Some("etag-1".to_string()),
    }
}

#[test]
fn playlist_maps_all_fields() {
    let p = map_playlist(raw_playlist("pl1", "Recipes")).unwrap();
    assert_eq!(p.id, "pl1");
    assert_eq!(p.title, "Recipes");
    assert_eq!(p.item_count, 4);
    assert_eq!(p.etag, "etag-1");
}

#[test]
fn playlist_missing_field_malformed() {
    let mut r = raw_playlist("pl1", "Recipes");
    r.etag = None;
    assert_eq!(map_playlist(r), Err(PipelineError::MalformedRecord));
}

#[test]
fn playlists_collection_fails_on_one_malformed() {
    let mut bad = raw_playlist("pl2", "Other");
    bad.item_count = None;
    let r = map_playlists(vec![raw_playlist("pl1", "Recipes"), bad]);
    assert_eq!(r, Err(PipelineError::MalformedRecord));
}
