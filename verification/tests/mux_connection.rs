use rsnova::mux::connection::{
    drain_backlog_capped_streams, incoming_stream_rejection_reason, reap_closed_stream_entries,
    StreamEntry, INITIAL_STREAM_WINDOW, MAX_MUX_STREAMS_PER_CONNECTION,
    MAX_PENDING_INCOMING_STREAMS, PENDING_BYTES_CAP_WINDOW_MULTIPLE,
};
use rsnova::mux::stream::StreamFlow;
use std::collections::HashMap;

/// A stream with the given backlog, whose reader is still there.
fn entry_with_backlog(pending_bytes: u64) -> StreamEntry {
    StreamEntry {
        flow_id: 0,
        recv_window: INITIAL_STREAM_WINDOW,
        flow: StreamFlow::new(INITIAL_STREAM_WINDOW),
        pending_bytes,
        receiver_open: true,
    }
}

#[test]
fn backlog_cap_removes_only_stalled_streams() {
    let mut entries: HashMap<u32, StreamEntry> = HashMap::new();
    let mut active: usize = 0;
    let window = INITIAL_STREAM_WINDOW;
    let cap = window as u64 * PENDING_BYTES_CAP_WINDOW_MULTIPLE;

    entries.insert(0, entry_with_backlog(window as u64));
    active += 1;
    entries.insert(1, entry_with_backlog(cap + 1));
    active += 1;

    let (removed, woken) = drain_backlog_capped_streams(&mut entries, &mut active, window);

    assert!(woken.is_empty());
    assert_eq!(removed, vec![1], "only the over-cap stream is drained");
    assert!(entries.contains_key(&0), "healthy stream must remain");
    assert!(!entries.contains_key(&1), "stalled stream must be removed");
    assert_eq!(active, 1, "active count decremented by removed entries");
}

#[test]
fn backlog_at_cap_is_not_drained() {
    let mut entries: HashMap<u32, StreamEntry> = HashMap::new();
    let mut active: usize = 1;
    let window = INITIAL_STREAM_WINDOW;
    let cap = window as u64 * PENDING_BYTES_CAP_WINDOW_MULTIPLE;

    entries.insert(7, entry_with_backlog(cap));

    let (removed, woken) = drain_backlog_capped_streams(&mut entries, &mut active, window);
    assert!(removed.is_empty());
    assert!(woken.is_empty());
    assert!(entries.contains_key(&7));
    assert_eq!(active, 1);
}

#[test]
fn incoming_stream_limits_reject_pending_and_active_overflow() {
    assert_eq!(incoming_stream_rejection_reason(0, 0), None);
    assert_eq!(
        incoming_stream_rejection_reason(MAX_PENDING_INCOMING_STREAMS, 0),
        Some("pending")
    );
    assert_eq!(
        incoming_stream_rejection_reason(0, MAX_MUX_STREAMS_PER_CONNECTION),
        Some("active")
    );
}

#[test]
fn reap_removes_entries_whose_receiver_dropped() {
    let mut entries: HashMap<u32, StreamEntry> = HashMap::new();
    let mut active_stream_count: usize = 0;

    entries.insert(0, entry_with_backlog(0));
    active_stream_count += 1;

    let mut dead = entry_with_backlog(0);
    dead.receiver_open = false;
    entries.insert(1, dead);
    active_stream_count += 1;

    assert_eq!(entries.len(), 2);
    assert_eq!(active_stream_count, 2);

    let (reaped, woken) = reap_closed_stream_entries(&mut entries, &mut active_stream_count);

    assert!(woken.is_empty());
    assert_eq!(reaped, 1, "exactly the dead entry should be reaped");
    assert!(entries.contains_key(&0), "live entry must remain");
    assert!(!entries.contains_key(&1), "dead entry must be removed");
    assert_eq!(
        active_stream_count, 1,
        "active_stream_count must be decremented by reaped count"
    );
}

#[test]
fn reap_is_idempotent_and_progressive() {
    let mut entries: HashMap<u32, StreamEntry> = HashMap::new();
    let mut active_stream_count: usize = 0;

    entries.insert(7, entry_with_backlog(0));
    active_stream_count += 1;

    // Still live: nothing is removed.
    assert_eq!(
        reap_closed_stream_entries(&mut entries, &mut active_stream_count).0,
        0
    );
    assert!(entries.contains_key(&7));

    // The reader goes away.
    entries.get_mut(&7).unwrap().receiver_open = false;

    assert_eq!(
        reap_closed_stream_entries(&mut entries, &mut active_stream_count).0,
        1
    );
    assert!(entries.is_empty());
    assert_eq!(active_stream_count, 0);

    assert_eq!(
        reap_closed_stream_entries(&mut entries, &mut active_stream_count).0,
        0
    );
}
