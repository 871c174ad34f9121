use eventually::poller::{backfill_request, Cursor, PageRequest, PollError, PollEvent, PAGE_SIZE};

#[test]
fn fresh_cursor_asks_from_the_start() {
    let c = Cursor::new();
    assert_eq!(
        c.next_request(),
        Some(PageRequest { limit: PAGE_SIZE, ascending: true, start: None })
    );
}

#[test]
fn committed_page_advances_the_cursor() {
    let mut c = Cursor::new();
    c.record(PollEvent::Committed(Some(1000)));
    assert_eq!(c.latest, Some(1000));
    assert_eq!(
        c.next_request(),
        Some(PageRequest { limit: 100, ascending: true, start: Some(1001) })
    );
}

#[test]
fn cursor_never_moves_back() {
    let mut c = Cursor::resume(Some(5000));
    c.record(PollEvent::Committed(Some(4000)));
    assert_eq!(c.latest, Some(5000));
    c.record(PollEvent::Committed(None));
    assert_eq!(c.latest, Some(5000));
    c.record(PollEvent::EmptyPage);
    assert_eq!(c.latest, Some(5000));
    c.record(PollEvent::Committed(Some(6000)));
    assert_eq!(c.latest, Some(6000));
}

#[test]
fn failed_iteration_leaves_cursor_unchanged() {
    let mut c = Cursor::resume(Some(5000));
    c.record(PollEvent::Failed(PollError::StoreError));
    assert_eq!(c.latest, Some(5000));
    c.record(PollEvent::Failed(PollError::TransientSourceError));
    assert_eq!(c.latest, Some(5000));
    let mut fresh = Cursor::new();
    fresh.record(PollEvent::Failed(PollError::TransientSourceError));
    assert_eq!(fresh.latest, None);
}

#[test]
fn cursor_at_the_end_of_time_asks_nothing() {
    let c = Cursor::resume(Some(i64::MAX));
    assert_eq!(c.next_request(), None);
}

#[test]
fn backfill_asks_from_the_origination() {
    assert_eq!(
        backfill_request(1577836800000),
        PageRequest { limit: 100, ascending: true, start: Some(1577836800000) }
    );
}
