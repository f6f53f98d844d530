use ipcanvas::canvas::colors;
use ipcanvas::canvas::Canvas;
use ipcanvas::hub::{FrameKind, Hub};

#[test]
fn subscribers_get_fresh_identities_in_order() {
    let mut hub = Hub::new();
    assert_eq!(hub.subscriber_count(), 0);
    assert_eq!(hub.subscribe(), Some(0));
    assert_eq!(hub.subscribe(), Some(1));
    assert_eq!(hub.subscribe(), Some(2));
    assert_eq!(hub.subscribers(), &[0, 1, 2]);
    assert!(hub.on_read_error(1));
    // an identity is never handed out twice
    assert_eq!(hub.subscribe(), Some(3));
    assert_eq!(hub.subscribers(), &[0, 2, 3]);
}

#[test]
fn diff_goes_to_every_subscriber_as_one_frame() {
    let mut hub = Hub::new();
    hub.subscribe();
    hub.subscribe();
    let old = Canvas::new(2, 2);
    let mut new = old.clone();
    new.set_pixel(1, 1, colors::blue()).unwrap();
    let diff = old.diff(&new);

    let broadcast = hub.on_diff(&diff).expect("a diff with entries is sent");
    assert_eq!(broadcast.payload, vec![0, 1, 0, 1, 0, 0, 255]);
    assert_eq!(broadcast.payload, diff.to_bytes());
    assert_eq!(broadcast.recipients, vec![0, 1]);
    assert_eq!(hub.subscriber_count(), 2);
}

#[test]
fn empty_diff_is_not_sent() {
    let mut hub = Hub::new();
    hub.subscribe();
    let canvas = Canvas::new(2, 2);
    assert!(hub.on_diff(&canvas.diff(&canvas)).is_none());
}

#[test]
fn diff_without_subscribers_has_no_recipients() {
    let hub = Hub::new();
    let old = Canvas::new(1, 1);
    let mut new = old.clone();
    new.set_pixel(0, 0, colors::black()).unwrap();
    let broadcast = hub.on_diff(&old.diff(&new)).unwrap();
    assert!(broadcast.recipients.is_empty());
    assert_eq!(broadcast.payload.len(), 7);
}

#[test]
fn failed_writes_evict_their_subscribers() {
    let mut hub = Hub::new();
    for _ in 0..5 {
        hub.subscribe();
    }
    // 9 is nobody; 3 is named twice
    let evicted = hub.on_delivered(&[3, 9, 0, 3]);
    assert_eq!(evicted, vec![0, 3]);
    assert_eq!(hub.subscribers(), &[1, 2, 4]);
    assert_eq!(hub.on_delivered(&[]), Vec::<u64>::new());
    assert_eq!(hub.subscribers(), &[1, 2, 4]);
}

#[test]
fn close_frame_evicts_and_other_frames_are_ignored() {
    let mut hub = Hub::new();
    hub.subscribe();
    hub.subscribe();
    for kind in [
        FrameKind::Continuation,
        FrameKind::Text,
        FrameKind::Binary,
        FrameKind::Ping,
        FrameKind::Pong,
    ] {
        assert!(!hub.on_frame(0, kind));
        assert_eq!(hub.subscribers(), &[0, 1]);
    }
    assert!(hub.on_frame(0, FrameKind::Close));
    assert_eq!(hub.subscribers(), &[1]);
    // a second close from the same subscriber finds nobody
    assert!(!hub.on_frame(0, FrameKind::Close));
    assert_eq!(hub.subscribers(), &[1]);
}

#[test]
fn read_error_evicts() {
    let mut hub = Hub::new();
    hub.subscribe();
    hub.subscribe();
    assert!(hub.on_read_error(1));
    assert!(!hub.on_read_error(1));
    assert!(!hub.on_read_error(7));
    assert_eq!(hub.subscribers(), &[0]);
}
