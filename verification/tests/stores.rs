use yt_playlist_downloader::domain::{Playlist, Thumbnail, Thumbnails, Video};
use yt_playlist_downloader::orchestrator::{plan_run, playlist_ids, StoreMode};
use yt_playlist_downloader::playlist_store::{
    decode_playlists, load_playlists, refresh_playlists, render_playlists_text,
};
use yt_playlist_downloader::raw::{RawPlaylist, RawPlaylistItem, RawStatus, RawThumbnail, RawThumbnails};
use yt_playlist_downloader::select::select_recipe_playlists;
use yt_playlist_downloader::video_store::{
    decode_video, load_videos, plan_video_writes, refresh_videos, render_video_text,
    video_file_name,
};
use yt_playlist_downloader::PipelineError;

fn raw_playlist(id: &str, title: &str, count: u32) -> RawPlaylist {
    RawPlaylist {
        id: Some(id.to_string()),
        title: Some(title.to_string()),
        published_at: Some("2020-05-05T00:00:00Z".to_string()),
        item_count: Some(count),
        etag: Some(format!("etag-{}", id)),
    }
}

fn text_of(chars: &[char]) -> String {
    chars.iter().collect()
}

fn chars_of(s: &str) -> Vec<char> {
    s.chars().collect()
}

#[test]
fn refresh_keeps_recipe_playlists_sorted() {
    // Input order has the kept identifiers reversed.
    let raws = vec![
        raw_playlist("b", "Recipe Night", 2),
        raw_playlist("c", "Vlog", 9),
        raw_playlist("a", "Recipes 2024", 5),
    ];
    let (collection, _) = refresh_playlists(raws).unwrap();
    let titles: Vec<&str> = collection.iter().map(|p| p.title.as_str()).collect();
    let ids: Vec<&str> = collection.iter().map(|p| p.id.as_str()).collect();
    assert_eq!(ids, vec!["a", "b"]);
    assert_eq!(titles, vec!["Recipes 2024", "Recipe Night"]);
}

#[test]
fn selection_is_case_insensitive() {
    let kept = select_recipe_playlists(vec![
        Playlist {
            id: "x".to_string(),
            title: "MY ReCiPe BOX".to_string(),
            published_at: "p".to_string(),
            item_count: 1,
            etag: "e".to_string(),
        },
        Playlist {
            id: "y".to_string(),
            title: "Recip".to_string(),
            published_at: "p".to_string(),
            item_count: 1,
            etag: "e".to_string(),
        },
    ]);
    let ids: Vec<&str> = kept.iter().map(|p| p.id.as_str()).collect();
    assert_eq!(ids, vec!["x"]);
}

#[test]
fn selection_dedups_by_id_keeping_first() {
    let mk = |title: &str| Playlist {
        id: "same".to_string(),
        title: title.to_string(),
        published_at: "p".to_string(),
        item_count: 1,
        etag: "e".to_string(),
    };
    let kept = select_recipe_playlists(vec![mk("Recipe one"), mk("Recipe two")]);
    assert_eq!(kept.len(), 1);
    assert_eq!(kept[0].title, "Recipe one");
}

#[test]
fn refresh_then_load_round_trip() {
    let raws = vec![
        raw_playlist("b", "Recipe Night", 2),
        raw_playlist("a", "Recipes 2024", 5),
    ];
    let (collection, text) = refresh_playlists(raws).unwrap();
    let loaded = load_playlists(Some(&text)).unwrap();
    assert_eq!(loaded, collection);
}

#[test]
fn round_trip_with_escaped_title() {
    let raws = vec![raw_playlist("a", "Recipe \"quotes\" \\ and\nnewline \u{1}", 1)];
    let (collection, text) = refresh_playlists(raws).unwrap();
    assert_eq!(load_playlists(Some(&text)).unwrap(), collection);
}

#[test]
fn snapshot_exact_text() {
    let raws = vec![raw_playlist("a", "Recipe", 3)];
    let (_, text) = refresh_playlists(raws).unwrap();
    let expected = "[\n  {\n    \"id\": \"a\",\n    \"title\": \"Recipe\",\n    \"published_at\": \"2020-05-05T00:00:00Z\",\n    \"item_count\": 3,\n    \"etag\": \"etag-a\"\n  }\n]";
    assert_eq!(text_of(&text), expected);
}

#[test]
fn empty_snapshot_text() {
    let raws = vec![raw_playlist("c", "Vlog", 9)];
    let (collection, text) = refresh_playlists(raws).unwrap();
    assert!(collection.is_empty());
    assert_eq!(text_of(&text), "[]");
    assert_eq!(load_playlists(Some(&text)).unwrap(), vec![]);
}

#[test]
fn item_count_extremes_round_trip() {
    let raws = vec![
        raw_playlist("a", "Recipe zero", 0),
        raw_playlist("b", "Recipe max", 4294967295),
    ];
    let (collection, text) = refresh_playlists(raws).unwrap();
    let s = text_of(&text);
    assert!(s.contains("\"item_count\": 0,"));
    assert!(s.contains("\"item_count\": 4294967295,"));
    assert_eq!(load_playlists(Some(&text)).unwrap(), collection);
}

#[test]
fn refresh_twice_byte_identical() {
    let raws = || vec![
        raw_playlist("b", "Recipe Night", 2),
        raw_playlist("a", "Recipes 2024", 5),
    ];
    let (_, first) = refresh_playlists(raws()).unwrap();
    let (_, second) = refresh_playlists(raws()).unwrap();
    assert_eq!(first, second);
}

#[test]
fn refresh_malformed_record_fails() {
    let mut bad = raw_playlist("a", "Recipe", 1);
    bad.published_at = None;
    let r = refresh_playlists(vec![bad]);
    assert_eq!(r.unwrap_err(), PipelineError::MalformedRecord);
}

#[test]
fn load_missing_snapshot() {
    assert_eq!(load_playlists(None).unwrap_err(), PipelineError::MissingSnapshot);
}

#[test]
fn load_corrupt_snapshot() {
    let text = chars_of("{\"not\": \"an array\"}");
    assert_eq!(load_playlists(Some(&text)).unwrap_err(), PipelineError::CorruptSnapshot);
    assert_eq!(
        decode_playlists(&chars_of("[\n")).unwrap_err(),
        PipelineError::CorruptSnapshot
    );
}

#[test]
fn render_matches_decode_for_built_collection() {
    let collection = select_recipe_playlists(vec![
        Playlist {
            id: "k".to_string(),
            title: "Recipes".to_string(),
            published_at: "2019".to_string(),
            item_count: 12,
            etag: "abc".to_string(),
        },
    ]);
    let text = render_playlists_text(&collection);
    assert_eq!(decode_playlists(&text).unwrap(), collection);
}

fn thumb(height: u32, url: &str, width: u32) -> Thumbnail {
    Thumbnail { height, url: url.to_string(), width }
}

fn video(video_id: &str, title: &str) -> Video {
    Video {
        title: title.to_string(),
        video_published_at: None,
        start_at: None,
        end_at: None,
        video_id: video_id.to_string(),
        published_at: "p".to_string(),
        description: "d".to_string(),
        thumbnails: Thumbnails {
            default: thumb(90, "u", 120),
            medium: thumb(180, "um", 320),
            high: thumb(360, "uh", 480),
            standard: None,
            maxres: None,
        },
    }
}

fn raw_item(video_id: &str, title: &str, privacy: &str) -> RawPlaylistItem {
    RawPlaylistItem {
        status: Some(RawStatus { privacy_status: Some(privacy.to_string()) }),
        title: Some(title.to_string()),
        video_published_at: None,
        start_at: None,
        end_at: None,
        video_id: Some(video_id.to_string()),
        published_at: Some("p".to_string()),
        description: Some("d".to_string()),
        thumbnails: Some(RawThumbnails {
            default: Some(RawThumbnail { height: Some(90), url: Some("u".to_string()), width: Some(120) }),
            medium: Some(RawThumbnail { height: Some(180), url: Some("um".to_string()), width: Some(320) }),
            high: Some(RawThumbnail { height: Some(360), url: Some("uh".to_string()), width: Some(480) }),
            standard: None,
            maxres: None,
        }),
    }
}

#[test]
fn video_doc_exact_text() {
    let text = render_video_text(&video("v1", "t"));
    let expected = "{\n  \"title\": \"t\",\n  \"video_published_at\": null,\n  \"start_at\": null,\n  \"end_at\": null,\n  \"video_id\": \"v1\",\n  \"published_at\": \"p\",\n  \"description\": \"d\",\n  \"thumbnails\": {\n    \"default\": {\n      \"height\": 90,\n      \"url\": \"u\",\n      \"width\": 120\n    },\n    \"medium\": {\n      \"height\": 180,\n      \"url\": \"um\",\n      \"width\": 320\n    },\n    \"high\": {\n      \"height\": 360,\n      \"url\": \"uh\",\n      \"width\": 480\n    },\n    \"standard\": null,\n    \"maxres\": null\n  }\n}";
    assert_eq!(text_of(&text), expected);
}

#[test]
fn video_doc_round_trip() {
    let mut v = video("v2", "with \"escapes\" \\ and \u{2} control");
    v.video_published_at = Some("2021".to_string());
    v.thumbnails.standard = Some(thumb(480, "us", 640));
    let text = render_video_text(&v);
    assert_eq!(decode_video(&text).unwrap(), v);
}

#[test]
fn video_doc_corrupt() {
    assert_eq!(
        decode_video(&chars_of("{\n  \"title\": oops")).unwrap_err(),
        PipelineError::CorruptSnapshot
    );
    // Trailing text after the document is refused too.
    let mut text = render_video_text(&video("v1", "t"));
    text.push(' ');
    assert_eq!(decode_video(&text).unwrap_err(), PipelineError::CorruptSnapshot);
}

#[test]
fn shared_video_written_once_last_wins() {
    // Two playlists share video "v1"; the second encounter's data wins.
    let list_one = vec![raw_item("v1", "first title", "public"), raw_item("v2", "other", "public")];
    let list_two = vec![raw_item("v1", "second title", "unlisted")];
    let (videos, files) = refresh_videos(vec![list_one, list_two]).unwrap();
    assert_eq!(videos.len(), 3);
    let v1_files: Vec<_> = files.iter().filter(|f| f.name == "v1.json").collect();
    assert_eq!(v1_files.len(), 1);
    let winner = render_video_text(&videos[2]);
    assert_eq!(videos[2].title, "second title");
    assert_eq!(v1_files[0].content, winner);
    assert_eq!(files.len(), 2);
}

#[test]
fn refresh_videos_drops_unavailable() {
    let list = vec![raw_item("v1", "kept", "public"), raw_item("v2", "dropped", "private")];
    let (videos, files) = refresh_videos(vec![list]).unwrap();
    assert_eq!(videos.len(), 1);
    assert_eq!(files.len(), 1);
    assert_eq!(files[0].name, "v1.json");
}

#[test]
fn refresh_videos_twice_byte_identical() {
    let lists = || vec![vec![raw_item("v1", "a", "public"), raw_item("v2", "b", "unlisted")]];
    let (_, first) = refresh_videos(lists()).unwrap();
    let (_, second) = refresh_videos(lists()).unwrap();
    assert_eq!(first.len(), second.len());
    for (a, b) in first.iter().zip(second.iter()) {
        assert_eq!(a.name, b.name);
        assert_eq!(a.content, b.content);
    }
}

#[test]
fn plan_writes_keeps_encounter_order() {
    let vs = vec![video("b", "one"), video("a", "two"), video("b", "three")];
    let files = plan_video_writes(&vs);
    let names: Vec<&str> = files.iter().map(|f| f.name.as_str()).collect();
    assert_eq!(names, vec!["b.json", "a.json"]);
    assert_eq!(files[0].content, render_video_text(&vs[2]));
}

#[test]
fn file_name_from_video_id() {
    assert_eq!(video_file_name(&video("abc", "t")), "abc.json");
}

#[test]
fn load_videos_round_trip() {
    let a = video("v1", "a");
    let b = video("v2", "b");
    let texts = vec![render_video_text(&a), render_video_text(&b)];
    assert_eq!(load_videos(&texts).unwrap(), vec![a, b]);
}

#[test]
fn load_videos_aborts_on_corrupt_document() {
    let texts = vec![render_video_text(&video("v1", "a")), chars_of("nope")];
    assert_eq!(load_videos(&texts).unwrap_err(), PipelineError::CorruptSnapshot);
}

#[test]
fn run_plan_resolves_switches() {
    let plan = plan_run(true, false);
    assert_eq!(plan.playlists, StoreMode::Refresh);
    assert_eq!(plan.videos, StoreMode::CachedRead);
    let plan = plan_run(false, true);
    assert_eq!(plan.playlists, StoreMode::CachedRead);
    assert_eq!(plan.videos, StoreMode::Refresh);
}

#[test]
fn playlist_ids_in_order() {
    let (collection, _) = refresh_playlists(vec![
        raw_playlist("b", "Recipe Night", 2),
        raw_playlist("a", "Recipes 2024", 5),
    ])
    .unwrap();
    let ids = playlist_ids(&collection);
    assert_eq!(ids, vec!["a".to_string(), "b".to_string()]);
}
