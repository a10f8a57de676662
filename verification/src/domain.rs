//! The stable domain entities of the archive: playlists, videos and their
//! thumbnails, as produced by the entity mapper and persisted by the stores.
//!
//! Each entity is an immutable snapshot of what the remote API reported.
//! Every entity type has a mathematical view (`...View`) over sequences of
//! characters and plain integers; all contracts in the library speak of
//! those views.

use vstd::prelude::*;

verus! {

/// A playlist snapshot. `id` is the stable external identifier and the
/// natural sort and dedup key.
#[derive(Debug, Clone, PartialEq, Eq)]
pub struct Playlist {
    pub id: String,
    pub title: String,
    pub published_at: String,
    pub item_count: u32,
    pub etag: String,
}

/// The mathematical view of a [`Playlist`].
pub struct PlaylistView {
    pub id: Seq<char>,
    pub title: Seq<char>,
    pub published_at: Seq<char>,
    pub item_count: u32,
    pub etag: Seq<char>,
}

impl View for Playlist {
    type V = PlaylistView;

    open spec fn view(&self) -> PlaylistView {
        PlaylistView {
            id: self.id@,
            title: self.title@,
            published_at: self.published_at@,
            item_count: self.item_count,
            etag: self.etag@,
        }
    }
}

impl DeepView for Playlist {
    type V = PlaylistView;

    open spec fn deep_view(&self) -> PlaylistView {
        self.view()
    }
}

/// A single thumbnail rendition.
#[derive(Debug, Clone, PartialEq, Eq)]
pub struct Thumbnail {
    pub height: u32,
    pub url: String,
    pub width: u32,
}

/// The mathematical view of a [`Thumbnail`].
pub struct ThumbnailView {
    pub height: u32,
    pub url: Seq<char>,
    pub width: u32,
}

impl View for Thumbnail {
    type V = ThumbnailView;

    open spec fn view(&self) -> ThumbnailView {
        ThumbnailView { height: self.height, url: self.url@, width: self.width }
    }
}

impl DeepView for Thumbnail {
    type V = ThumbnailView;

    open spec fn deep_view(&self) -> ThumbnailView {
        self.view()
    }
}

/// The thumbnail set of a video. `default`, `medium` and `high` are
/// guaranteed by the remote API; `standard` and `maxres` are best-effort
/// and absent for lower-resolution sources.
#[derive(Debug, Clone, PartialEq, Eq)]
pub struct Thumbnails {
    pub default: Thumbnail,
    pub medium: Thumbnail,
    pub high: Thumbnail,
    pub standard: Option<Thumbnail>,
    pub maxres: Option<Thumbnail>,
}

/// The mathematical view of a [`Thumbnails`] set.
pub struct ThumbnailsView {
    pub default: ThumbnailView,
    pub medium: ThumbnailView,
    pub high: ThumbnailView,
    pub standard: Option<ThumbnailView>,
    pub maxres: Option<ThumbnailView>,
}

impl View for Thumbnails {
    type V = ThumbnailsView;

    open spec fn view(&self) -> ThumbnailsView {
        ThumbnailsView {
            default: self.default@,
            medium: self.medium@,
            high: self.high@,
            standard: match self.standard {
                Some(t) => Some(t@),
                None => None,
            },
            maxres: match self.maxres {
                Some(t) => Some(t@),
                None => None,
            },
        }
    }
}

impl DeepView for Thumbnails {
    type V = ThumbnailsView;

    open spec fn deep_view(&self) -> ThumbnailsView {
        self.view()
    }
}

/// A playlist item snapshot. `video_id` is the stable key used as the
/// on-disk file name and is always present; the timing fields may be
/// absent for live or upcoming broadcasts.
#[derive(Debug, Clone, PartialEq, Eq)]
pub struct Video {
    pub title: String,
    pub video_published_at: Option<String>,
    pub start_at: Option<String>,
    pub end_at: Option<String>,
    pub video_id: String,
    pub published_at: String,
    pub description: String,
    pub thumbnails: Thumbnails,
}

/// The mathematical view of a [`Video`].
pub struct VideoView {
    pub title: Seq<char>,
    pub video_published_at: Option<Seq<char>>,
    pub start_at: Option<Seq<char>>,
    pub end_at: Option<Seq<char>>,
    pub video_id: Seq<char>,
    pub published_at: Seq<char>,
    pub description: Seq<char>,
    pub thumbnails: ThumbnailsView,
}

impl View for Video {
    type V = VideoView;

    open spec fn view(&self) -> VideoView {
        VideoView {
            title: self.title@,
            video_published_at: match self.video_published_at {
                Some(s) => Some(s@),
                None => None,
            },
            start_at: match self.start_at {
                Some(s) => Some(s@),
                None => None,
            },
            end_at: match self.end_at {
                Some(s) => Some(s@),
                None => None,
            },
            video_id: self.video_id@,
            published_at: self.published_at@,
            description: self.description@,
            thumbnails: self.thumbnails@,
        }
    }
}

impl DeepView for Video {
    type V = VideoView;

    open spec fn deep_view(&self) -> VideoView {
        self.view()
    }
}

} // verus!
