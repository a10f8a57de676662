use yt_playlist_downloader::paginate::{paginate_all, PageState, Paginator};
use yt_playlist_downloader::PipelineError;

fn fake_pages() -> Vec<(Vec<u32>, Option<String>)> {
    vec![
        (vec![1, 2], Some("t1".to_string())),
        (vec![3], Some("t2".to_string())),
        (vec![4, 5, 6], None),
    ]
}

#[test]
fn paginator_drains_pages_in_order() {
    // The fake fetch: answers request k with page k, and records each
    // cursor it was called with.
    let pages = fake_pages();
    let mut calls: Vec<Option<String>> = Vec::new();
    let mut pg: Paginator<u32> = Paginator::new(10);
    while pg.state == PageState::Ready {
        let cursor = pg.cursor.clone();
        calls.push(cursor.clone());
        let idx = calls.len() - 1;
        let (items, next) = pages[idx].clone();
        pg.feed_page(items, next).unwrap();
    }
    assert_eq!(pg.state, PageState::Done);
    // Exactly one fetch per page, the first with no cursor, each later
    // one with the cursor of the page before it.
    assert_eq!(calls.len(), 3);
    assert_eq!(calls[0], None);
    assert_eq!(calls[1], Some("t1".to_string()));
    assert_eq!(calls[2], Some("t2".to_string()));
    // The concatenation of all pages' items, in order.
    assert_eq!(pg.into_items(), vec![1, 2, 3, 4, 5, 6]);
}

#[test]
fn paginate_all_returns_concatenation() {
    let r = paginate_all(fake_pages(), 10);
    assert_eq!(r.unwrap(), vec![1, 2, 3, 4, 5, 6]);
}

#[test]
fn paginate_all_single_page() {
    let pages: Vec<(Vec<u32>, Option<String>)> = vec![(vec![7], None)];
    assert_eq!(paginate_all(pages, 1).unwrap(), vec![7]);
}

#[test]
fn paginate_all_stops_at_first_cursorless_page() {
    let pages: Vec<(Vec<u32>, Option<String>)> = vec![
        (vec![1], None),
        (vec![2], Some("never-requested".to_string())),
    ];
    assert_eq!(paginate_all(pages, 10).unwrap(), vec![1]);
}

#[test]
fn paginate_all_protocol_violation() {
    // A remote that never stops handing out cursors trips the bound.
    let pages: Vec<(Vec<u32>, Option<String>)> = vec![
        (vec![1], Some("a".to_string())),
        (vec![2], Some("b".to_string())),
        (vec![3], Some("c".to_string())),
    ];
    assert_eq!(paginate_all(pages, 2), Err(PipelineError::ProtocolViolation));
}

#[test]
fn paginator_cap_fails_loudly() {
    let mut pg: Paginator<u32> = Paginator::new(1);
    let r = pg.feed_page(vec![1], Some("more".to_string()));
    assert_eq!(r, Err(PipelineError::ProtocolViolation));
    assert_eq!(pg.state, PageState::Failed);
}
