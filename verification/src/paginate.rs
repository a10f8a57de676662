//! The paginator: a cursor-following fetch protocol.
//!
//! The remote API returns results page by page; each page carries the
//! items of that page and, except for the final page, an opaque cursor
//! that must be sent with the next request. The [`Paginator`] keeps the
//! protocol state: the first request carries no cursor, every later
//! request carries the cursor of the page before it, and the run is done
//! when a page arrives without a cursor. A defensive page bound guards
//! against a remote that never stops handing out cursors: exceeding it is
//! a fatal protocol violation, never an endless loop.
//!
//! The unverified shell performs the actual fetches: it asks the
//! paginator for the current cursor, makes the call, and feeds the
//! response back with [`Paginator::feed_page`].

use vstd::prelude::*;

use crate::PipelineError;

verus! {

/// The phase of a pagination run.
#[derive(Debug, Clone, Copy, PartialEq, Eq, Structural)]
pub enum PageState {
    /// Another page must be fetched, with the current cursor.
    Ready,
    /// The last page carried no cursor: the run is complete.
    Done,
    /// The defensive page bound was exceeded: a protocol violation.
    Failed,
}

/// The state of one pagination run over items of type `T`.
pub struct Paginator<T> {
    /// The items of all pages fed so far, in arrival order.
    pub items: Vec<T>,
    /// How many pages have been fed so far.
    pub pages: u64,
    /// The defensive bound on the number of pages.
    pub max_pages: u64,
    /// The cursor to send with the next request; `None` before the first
    /// request.
    pub cursor: Option<String>,
    /// The phase of the run.
    pub state: PageState,
}

impl<T> Paginator<T> {
    /// The paginator never owes more pages than its bound allows.
    pub open spec fn wf(self) -> bool {
        &&& self.max_pages >= 1
        &&& self.pages <= self.max_pages
        &&& (self.state == PageState::Ready ==> self.pages < self.max_pages)
    }

    /// Starts a run: no items, no cursor, ready for the first request.
    pub fn new(max_pages: u64) -> (r: Self)
        requires
            max_pages >= 1,
        ensures
            r.wf(),
            r.items@ == Seq::<T>::empty(),
            r.pages == 0,
            r.max_pages == max_pages,
            r.cursor is None,
            r.state == PageState::Ready,
    {
        Paginator { items: Vec::new(), pages: 0, max_pages, cursor: None, state: PageState::Ready }
    }

    /// Feeds the response to the request the current cursor describes.
    ///
    /// The page's items are appended in order. A response without a
    /// cursor completes the run; one with a cursor keeps the run ready
    /// for the next request, unless that request would exceed the page
    /// bound, in which case the run fails with a protocol violation.
    pub fn feed_page(&mut self, page_items: Vec<T>, next_cursor: Option<String>) -> (r: Result<
        (),
        PipelineError,
    >)
        requires
            old(self).wf(),
            old(self).state == PageState::Ready,
        ensures
            final(self).wf(),
            final(self).items@ == old(self).items@ + page_items@,
            final(self).pages == old(self).pages + 1,
            final(self).max_pages == old(self).max_pages,
            next_cursor is None ==> final(self).state == PageState::Done && r is Ok,
            next_cursor is Some && old(self).pages + 1 < old(self).max_pages ==> final(self).state
                == PageState::Ready && final(self).cursor == next_cursor && r is Ok,
            next_cursor is Some && old(self).pages + 1 == old(self).max_pages ==> final(self).state
                == PageState::Failed && (r matches Err(e) && e == PipelineError::ProtocolViolation),
    {
        let mut page_items = page_items;
        self.items.append(&mut page_items);
        self.pages = self.pages + 1;
        match next_cursor {
            None => {
                self.cursor = None;
                self.state = PageState::Done;
                Ok(())
            },
            Some(c) => {
                if self.pages < self.max_pages {
                    self.cursor = Some(c);
                    self.state = PageState::Ready;
                    Ok(())
                } else {
                    self.cursor = Some(c);
                    self.state = PageState::Failed;
                    Err(PipelineError::ProtocolViolation)
                }
            },
        }
    }

    /// Hands out the items drained so far.
    pub fn into_items(self) -> (r: Vec<T>)
        ensures
            r == self.items,
    {
        self.items
    }
}

/// The items of a page transcript, concatenated in order.
pub open spec fn pages_items<T>(pages: Seq<(Vec<T>, Option<String>)>) -> Seq<T>
    decreases pages.len(),
{
    if pages.len() == 0 {
        Seq::empty()
    } else {
        pages_items(pages.drop_last()) + pages.last().0@
    }
}

/// The index of the first page of a transcript that carries no cursor;
/// the transcript's length when every page carries one.
pub open spec fn first_final<T>(pages: Seq<(Vec<T>, Option<String>)>) -> int
    decreases pages.len(),
{
    if pages.len() == 0 {
        0
    } else if pages.first().1 is None {
        0
    } else {
        1 + first_final(pages.drop_first())
    }
}

proof fn lemma_first_final_nonneg<T>(pages: Seq<(Vec<T>, Option<String>)>)
    ensures
        first_final(pages) >= 0,
    decreases pages.len(),
{
    if pages.len() > 0 && pages.first().1 is Some {
        lemma_first_final_nonneg(pages.drop_first());
    }
}

proof fn lemma_first_final_bound<T>(pages: Seq<(Vec<T>, Option<String>)>, k: int)
    requires
        0 <= k <= pages.len(),
        forall|j: int| 0 <= j < k ==> pages[j].1 is Some,
    ensures
        first_final(pages) >= k,
    decreases k,
{
    lemma_first_final_nonneg(pages);
    if k > 0 {
        assert(pages.first() == pages[0]);
        assert(pages[0].1 is Some);
        assert(forall|j: int|
            0 <= j < k - 1 ==> #[trigger] pages.drop_first()[j].1 == pages[j + 1].1);
        lemma_first_final_bound(pages.drop_first(), k - 1);
        assert(first_final(pages) == 1 + first_final(pages.drop_first()));
    }
}

proof fn lemma_first_final_at<T>(pages: Seq<(Vec<T>, Option<String>)>, k: int)
    requires
        0 <= k < pages.len(),
        forall|j: int| 0 <= j < k ==> pages[j].1 is Some,
        pages[k].1 is None,
    ensures
        first_final(pages) == k,
    decreases k,
{
    if k == 0 {
    } else {
        assert(pages.first() == pages[0]);
        assert(pages[0].1 is Some);
        assert(forall|j: int|
            0 <= j < k - 1 ==> #[trigger] pages.drop_first()[j].1 == pages[j + 1].1);
        assert(pages.drop_first()[k - 1].1 == pages[k].1);
        lemma_first_final_at(pages.drop_first(), k - 1);
        assert(first_final(pages) == 1 + first_final(pages.drop_first()));
    }
}

/// Drains a complete page transcript through a [`Paginator`].
///
/// `pages` plays the remote's part: element `k` is the response the
/// remote would give to request `k` of the run — the first request with
/// no cursor, each later one with the cursor of the page before it. The
/// transcript must be complete: it reaches a page without a cursor, or it
/// is long enough to exhaust the page bound. Exactly one page is fed per
/// request, so a transcript whose final page is page `n` costs `n + 1`
/// requests. The result is the concatenation of all items up to and
/// including the first cursorless page, in order — or a protocol
/// violation when no such page exists within the bound.
pub fn paginate_all<T>(pages: Vec<(Vec<T>, Option<String>)>, max_pages: u64) -> (r: Result<
    Vec<T>,
    PipelineError,
>)
    requires
        max_pages >= 1,
        pages@.len() >= 1,
        first_final(pages@) < pages@.len() || pages@.len() >= max_pages,
    ensures
        first_final(pages@) < max_pages ==> (r matches Ok(items) && items@ == pages_items(
            pages@.take(first_final(pages@) + 1),
        )),
        first_final(pages@) >= max_pages ==> (r matches Err(e) && e
            == PipelineError::ProtocolViolation),
{
    let ghost orig = pages@;
    let mut rem = pages;
    let mut pg = Paginator::<T>::new(max_pages);
    #[verifier::loop_isolation(false)]
    loop
        invariant
            pg.wf(),
            pg.state == PageState::Ready,
            pg.max_pages == max_pages,
            pg.pages <= orig.len(),
            rem@ == orig.skip(pg.pages as int),
            pg.items@ == pages_items(orig.take(pg.pages as int)),
            forall|j: int| 0 <= j < pg.pages ==> orig[j].1 is Some,
            first_final(orig) < orig.len() || orig.len() >= max_pages,
        decreases orig.len() - pg.pages,
    {
        proof {
            lemma_first_final_bound(orig, pg.pages as int);
            if orig.len() <= pg.pages {
                // Impossible: a ready paginator has fed fewer than
                // max_pages pages, all with cursors, so the transcript
                // must still go on.
                assert(first_final(orig) >= orig.len());
                assert(orig.len() >= max_pages);
                assert(false);
            }
        }
        let ghost fed = pg.pages as int;
        let (its, tok) = rem.remove(0);
        proof {
            assert(orig.skip(fed)[0] == orig[fed]);
            assert(rem@ == orig.skip(fed).remove(0));
            assert(rem@ =~= orig.skip(fed + 1));
            assert(orig.take(fed + 1).drop_last() =~= orig.take(fed));
            assert(orig.take(fed + 1).last() == orig[fed]);
        }
        match pg.feed_page(its, tok) {
            Ok(()) => {
                if pg.state == PageState::Done {
                    proof {
                        assert(tok is None);
                        assert(orig[fed].1 is None);
                        lemma_first_final_at(orig, fed);
                        assert(first_final(orig) == fed);
                        assert(fed < max_pages);
                        assert(pg.items@ == pages_items(orig.take(fed + 1)));
                    }
                    return Ok(pg.into_items());
                }
                proof {
                    assert(orig[fed].1 is Some);
                }
            },
            Err(e) => {
                proof {
                    assert(orig[fed].1 is Some);
                    lemma_first_final_bound(orig, fed + 1);
                }
                return Err(e);
            },
        }
    }
}

} // verus!
