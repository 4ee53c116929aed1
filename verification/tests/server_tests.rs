use ft_vox::watchers::{ClientRequest, Watchers};

#[test]
fn watch_and_unwatch_keep_both_sides() {
    let mut w = Watchers::new();
    w.add_client(1);
    w.add_client(2);
    assert!(w.watch_chunk(1, 3, 4));
    assert!(!w.watch_chunk(1, 3, 4));
    assert!(w.watch_chunk(2, 3, 4));
    assert!(w.is_watching(1, 3, 4));
    assert!(w.is_watched_by(3, 4, 1));
    assert!(w.is_watched_by(3, 4, 2));
    assert!(w.unwatch_chunk(1, 3, 4));
    assert!(!w.unwatch_chunk(1, 3, 4));
    assert!(!w.is_watched_by(3, 4, 1));
    assert!(w.is_watched(3, 4));
    assert!(w.unwatch_chunk(2, 3, 4));
    assert!(!w.is_watched(3, 4));
}

#[test]
fn unknown_client_changes_nothing() {
    let mut w = Watchers::new();
    assert!(!w.watch_chunk(9, 0, 0));
    assert!(!w.is_watched(0, 0));
    assert!(!w.unwatch_chunk(9, 0, 0));
    assert!(!w.has_client(9));
}

#[test]
fn removing_a_client_forgets_its_chunks() {
    let mut w = Watchers::new();
    w.add_client(1);
    w.add_client(2);
    w.watch_chunk(1, 0, 0);
    w.watch_chunk(1, 1, 0);
    w.watch_chunk(2, 1, 0);
    w.remove_client(1);
    assert!(!w.has_client(1));
    assert!(!w.is_watched(0, 0));
    assert!(w.is_watched(1, 0));
    assert!(!w.is_watched_by(1, 0, 1));
    assert!(w.is_watched_by(1, 0, 2));
}

#[test]
fn moves_go_to_every_other_client() {
    let mut w = Watchers::new();
    w.add_client(5);
    w.add_client(1);
    w.add_client(3);
    let r = w.handle_message(3, ClientRequest::Move);
    assert_eq!(r, vec![1, 5]);
    assert!(w.handle_message(3, ClientRequest::WatchChunk { x: -2, y: 7 }).is_empty());
    assert!(w.is_watched_by(-2, 7, 3));
    assert!(w.handle_message(3, ClientRequest::UnwatchChunk { x: -2, y: 7 }).is_empty());
    assert!(!w.is_watched(-2, 7));
    assert!(w.handle_message(3, ClientRequest::Other).is_empty());
    let r = w.handle_message(8, ClientRequest::Move);
    assert_eq!(r, vec![1, 3, 5]);
}
