//! Raw API records, as the unverified shell hands them to the entity
//! mapper: every field that the remote API may omit is an `Option`.
//!
//! The shell converts the wire-level response types into these plain
//! records field by field; the mapper then decides, under a verified
//! contract, which absences are fatal and which are preserved.

use vstd::prelude::*;

verus! {

/// A raw playlist record: the fields the pipeline reads from one element
/// of a playlists-list response.
#[derive(Debug, Clone)]
pub struct RawPlaylist {
    pub id: Option<String>,
    pub title: Option<String>,
    pub published_at: Option<String>,
    pub item_count: Option<u32>,
    pub etag: Option<String>,
}

/// The mathematical view of a [`RawPlaylist`].
pub struct RawPlaylistView {
    pub id: Option<Seq<char>>,
    pub title: Option<Seq<char>>,
    pub published_at: Option<Seq<char>>,
    pub item_count: Option<u32>,
    pub etag: Option<Seq<char>>,
}

impl View for RawPlaylist {
    type V = RawPlaylistView;

    open spec fn view(&self) -> RawPlaylistView {
        RawPlaylistView {
            id: match self.id {
                Some(s) => Some(s@),
                None => None,
            },
            title: match self.title {
                Some(s) => Some(s@),
                None => None,
            },
            published_at: match self.published_at {
                Some(s) => Some(s@),
                None => None,
            },
            item_count: self.item_count,
            etag: match self.etag {
                Some(s) => Some(s@),
                None => None,
            },
        }
    }
}

impl DeepView for RawPlaylist {
    type V = RawPlaylistView;

    open spec fn deep_view(&self) -> RawPlaylistView {
        self.view()
    }
}

/// The status object of a raw playlist item; it may be missing as a
/// whole, or present without a privacy status.
#[derive(Debug, Clone)]
pub struct RawStatus {
    pub privacy_status: Option<String>,
}

/// The mathematical view of a [`RawStatus`].
pub struct RawStatusView {
    pub privacy_status: Option<Seq<char>>,
}

impl View for RawStatus {
    type V = RawStatusView;

    open spec fn view(&self) -> RawStatusView {
        RawStatusView {
            privacy_status: match self.privacy_status {
                Some(s) => Some(s@),
                None => None,
            },
        }
    }
}

impl DeepView for RawStatus {
    type V = RawStatusView;

    open spec fn deep_view(&self) -> RawStatusView {
        self.view()
    }
}

/// A raw thumbnail record.
#[derive(Debug, Clone)]
pub struct RawThumbnail {
    pub height: Option<u32>,
    pub url: Option<String>,
    pub width: Option<u32>,
}

/// The mathematical view of a [`RawThumbnail`].
pub struct RawThumbnailView {
    pub height: Option<u32>,
    pub url: Option<Seq<char>>,
    pub width: Option<u32>,
}

impl View for RawThumbnail {
    type V = RawThumbnailView;

    open spec fn view(&self) -> RawThumbnailView {
        RawThumbnailView {
            height: self.height,
            url: match self.url {
                Some(s) => Some(s@),
                None => None,
            },
            width: self.width,
        }
    }
}

impl DeepView for RawThumbnail {
    type V = RawThumbnailView;

    open spec fn deep_view(&self) -> RawThumbnailView {
        self.view()
    }
}

/// The raw thumbnail set of a playlist item.
#[derive(Debug, Clone)]
pub struct RawThumbnails {
    pub default: Option<RawThumbnail>,
    pub medium: Option<RawThumbnail>,
    pub high: Option<RawThumbnail>,
    pub standard: Option<RawThumbnail>,
    pub maxres: Option<RawThumbnail>,
}

/// The mathematical view of a [`RawThumbnails`] set.
pub struct RawThumbnailsView {
    pub default: Option<RawThumbnailView>,
    pub medium: Option<RawThumbnailView>,
    pub high: Option<RawThumbnailView>,
    pub standard: Option<RawThumbnailView>,
    pub maxres: Option<RawThumbnailView>,
}

impl View for RawThumbnails {
    type V = RawThumbnailsView;

    open spec fn view(&self) -> RawThumbnailsView {
        RawThumbnailsView {
            default: match self.default {
                Some(t) => Some(t@),
                None => None,
            },
            medium: match self.medium {
                Some(t) => Some(t@),
                None => None,
            },
            high: match self.high {
                Some(t) => Some(t@),
                None => None,
            },
            standard: match self.standard {
                Some(t) => Some(t@),
                None => None,
            },
            maxres: match self.maxres {
                Some(t) => Some(t@),
                None => None,
            },
        }
    }
}

impl DeepView for RawThumbnails {
    type V = RawThumbnailsView;

    open spec fn deep_view(&self) -> RawThumbnailsView {
        self.view()
    }
}

/// A raw playlist item record: the fields the pipeline reads from one
/// element of a playlist-items-list response.
#[derive(Debug, Clone)]
pub struct RawPlaylistItem {
    pub status: Option<RawStatus>,
    pub title: Option<String>,
    pub video_published_at: Option<String>,
    pub start_at: Option<String>,
    pub end_at: Option<String>,
    pub video_id: Option<String>,
    pub published_at: Option<String>,
    pub description: Option<String>,
    pub thumbnails: Option<RawThumbnails>,
}

/// The mathematical view of a [`RawPlaylistItem`].
pub struct RawPlaylistItemView {
    pub status: Option<RawStatusView>,
    pub title: Option<Seq<char>>,
    pub video_published_at: Option<Seq<char>>,
    pub start_at: Option<Seq<char>>,
    pub end_at: Option<Seq<char>>,
    pub video_id: Option<Seq<char>>,
    pub published_at: Option<Seq<char>>,
    pub description: Option<Seq<char>>,
    pub thumbnails: Option<RawThumbnailsView>,
}

impl View for RawPlaylistItem {
    type V = RawPlaylistItemView;

    open spec fn view(&self) -> RawPlaylistItemView {
        RawPlaylistItemView {
            status: match self.status {
                Some(s) => Some(s@),
                None => None,
            },
            title: match self.title {
                Some(s) => Some(s@),
                None => None,
            },
            video_published_at: match self.video_published_at {
                Some(s) => Some(s@),
                None => None,
            },
            start_at: match self.start_at {
                Some(s) => Some(s@),
                None => None,
            },
            end_at: match self.end_at {
                Some(s) => Some(s@),
                None => None,
            },
            video_id: match self.video_id {
                Some(s) => Some(s@),
                None => None,
            },
            published_at: match self.published_at {
                Some(s) => Some(s@),
                None => None,
            },
            description: match self.description {
                Some(s) => Some(s@),
                None => None,
            },
            thumbnails: match self.thumbnails {
                Some(t) => Some(t@),
                None => None,
            },
        }
    }
}

impl DeepView for RawPlaylistItem {
    type V = RawPlaylistItemView;

    open spec fn deep_view(&self) -> RawPlaylistItemView {
        self.view()
    }
}

} // verus!
