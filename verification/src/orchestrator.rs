//! The pipeline orchestrator's decisions: resolving the two refresh
//! switches to a mode per store, and handing the resolved playlists'
//! identifiers to the video store.
//!
//! Sequencing is strict — playlist resolution completes before any
//! video fetch, because the video fetch consumes the resolved
//! identifier set — and the unverified shell performs it, calling the
//! stores in that order with the modes resolved here.

use vstd::prelude::*;

use crate::domain::{Playlist, PlaylistView};

verus! {

/// How one store is driven in a run.
#[derive(Clone, Copy, Debug, PartialEq, Eq, Structural)]
pub enum StoreMode {
    /// Fetch from the remote API and overwrite the snapshot.
    Refresh,
    /// Load the existing snapshot without contacting the remote API.
    CachedRead,
}

/// The resolved modes of a run: playlists first, then videos.
#[derive(Clone, Copy, Debug, PartialEq, Eq, Structural)]
pub struct RunPlan {
    pub playlists: StoreMode,
    pub videos: StoreMode,
}

/// Resolves the two independent switches, each to refresh or to
/// cached-read.
pub fn plan_run(refresh_playlists: bool, refresh_videos: bool) -> (r: RunPlan)
    ensures
        r.playlists == (if refresh_playlists {
            StoreMode::Refresh
        } else {
            StoreMode::CachedRead
        }),
        r.videos == (if refresh_videos {
            StoreMode::Refresh
        } else {
            StoreMode::CachedRead
        }),
{
    RunPlan {
        playlists: if refresh_playlists {
            StoreMode::Refresh
        } else {
            StoreMode::CachedRead
        },
        videos: if refresh_videos {
            StoreMode::Refresh
        } else {
            StoreMode::CachedRead
        },
    }
}

/// The identifiers of a playlist collection, in order.
pub open spec fn spec_playlist_ids(ps: Seq<PlaylistView>) -> Seq<Seq<char>> {
    ps.map_values(|p: PlaylistView| p.id)
}

/// Hands the video store the resolved playlists' identifiers, in order.
pub fn playlist_ids(ps: &Vec<Playlist>) -> (r: Vec<String>)
    ensures
        r.deep_view() == spec_playlist_ids(ps.deep_view()),
{
    let ghost dv = ps.deep_view();
    let mut out: Vec<String> = Vec::new();
    let n = ps.len();
    let mut i: usize = 0;
    proof {
        assert(out.deep_view() =~= dv.take(0).map_values(|p: PlaylistView| p.id));
    }
    #[verifier::loop_isolation(false)]
    while i < n
        invariant
            i <= n,
            n == ps@.len(),
            out.deep_view() =~= dv.take(i as int).map_values(|p: PlaylistView| p.id),
        decreases n - i,
    {
        let ghost out0 = out.deep_view();
        let id = ps[i].id.clone();
        out.push(id);
        proof {
            assert(dv[i as int] == ps@[i as int].deep_view());
            assert(forall|j: int|
                0 <= j < out0.len() ==> #[trigger] out.deep_view()[j] == out0[j]);
            assert(out.deep_view()[out0.len() as int] == id@);
            assert(out.deep_view() =~= dv.take(i + 1).map_values(|p: PlaylistView| p.id));
        }
        i = i + 1;
    }
    proof {
        assert(dv.take(n as int) =~= dv);
    }
    out
}

} // verus!
