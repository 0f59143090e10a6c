use bidir_event::bidir::Queue;
use bidir_event::traits::{EmitResult, Emitter, Listen, QueueInterfaceCommon};

#[test]
fn test_bidir_evq() {
    let mut primary: Queue<i32, i32> = Queue::new();

    primary.emit_owned(1);
    let mut secondary = primary.secondary();
    assert_eq!(secondary.peek(), vec![1]);
    let mut primary = secondary.primary();
    primary.emit_owned(2);
    primary.emit_owned(3);
    let mut secondary = primary.secondary();
    assert_eq!(secondary.peek(), vec![2, 3]);

    secondary.emit_owned(4);
    secondary.emit_owned(5);
    secondary.emit_owned(6);

    let mut primary = secondary.primary();
    primary.bounce(|x| Some(x + 1));
    let mut secondary = primary.secondary();
    assert_eq!(secondary.peek(), vec![5, 6, 7]);
}

#[test]
fn fifo_order_is_kept() {
    let mut primary: Queue<u8, u8> = Queue::new();
    primary.emit_owned(10);
    primary.emit_owned(20);
    primary.emit_owned(30);
    primary.emit_owned(40);
    let mut secondary = primary.secondary();
    assert_eq!(secondary.peek(), vec![10, 20, 30, 40]);
}

#[test]
fn peek_is_draining() {
    let mut primary: Queue<u8, u8> = Queue::new();
    primary.emit_owned(7);
    primary.emit_owned(8);
    let mut secondary = primary.secondary();
    let first = secondary.peek();
    let second = secondary.peek();
    assert_eq!(first, vec![7, 8]);
    assert_eq!(second, vec![]);
}

#[test]
fn map_is_draining_and_ordered() {
    let mut primary: Queue<u8, u8> = Queue::new();
    primary.emit_owned(1);
    primary.emit_owned(2);
    primary.emit_owned(3);
    let mut secondary = primary.secondary();
    let doubled: Vec<u8> = secondary.map(|x: &u8| x * 2);
    assert_eq!(doubled, vec![2, 4, 6]);
    let again: Vec<u8> = secondary.map(|x: &u8| x * 2);
    assert_eq!(again, vec![]);
}

#[test]
fn with_sees_one_snapshot() {
    let mut primary: Queue<u8, u8> = Queue::new();
    primary.emit_owned(5);
    primary.emit_owned(6);
    let mut secondary = primary.secondary();
    let sum = secondary.with(|events: &[u8]| {
        let mut total: u32 = 0;
        for e in events {
            total += u32::from(*e);
        }
        total
    });
    assert_eq!(sum, 11);
    assert_eq!(secondary.peek(), vec![]);
}

#[test]
fn bounce_identity_forwards_unchanged() {
    let mut primary: Queue<i32, i32> = Queue::new();
    primary.emit_owned(9);
    let mut secondary = primary.secondary();
    secondary.emit_owned(4);
    secondary.emit_owned(5);
    let mut primary = secondary.primary();
    primary.bounce(Some);
    let mut secondary = primary.secondary();
    assert_eq!(secondary.peek(), vec![9, 4, 5]);
}

#[test]
fn bounce_dropping_everything_empties_the_inbox() {
    let mut primary: Queue<i32, i32> = Queue::new();
    let mut secondary = primary.secondary();
    secondary.emit_owned(1);
    secondary.emit_owned(2);
    let mut primary = secondary.primary();
    primary.bounce(|_| None);
    assert!(primary.buffer_is_empty());
    let mut secondary = primary.secondary();
    assert_eq!(secondary.peek(), vec![]);
    let mut primary = secondary.primary();
    assert_eq!(primary.peek(), vec![]);
}

#[test]
fn bounce_on_the_secondary_endpoint() {
    let mut primary: Queue<i32, i32> = Queue::new();
    primary.emit_owned(10);
    primary.emit_owned(11);
    let mut secondary = primary.secondary();
    secondary.bounce(|x| if x % 2 == 0 { Some(-x) } else { None });
    let mut primary = secondary.primary();
    assert_eq!(primary.peek(), vec![-10]);
}

#[test]
fn emit_returns_delivered() {
    let mut primary: Queue<u8, u8> = Queue::new();
    assert!(matches!(primary.emit_owned(1), EmitResult::Delivered));
    let mut secondary = primary.secondary();
    assert!(matches!(secondary.emit_owned(2), EmitResult::Delivered));
    assert!(matches!(secondary.emit_borrowed(&3), EmitResult::Delivered));
}

#[test]
fn emit_borrowed_copies_the_event() {
    let mut primary: Queue<String, String> = Queue::new();
    let event = String::from("hello");
    primary.emit_borrowed(&event);
    assert_eq!(event, "hello");
    let mut secondary = primary.secondary();
    assert_eq!(secondary.peek(), vec![String::from("hello")]);
}

#[test]
fn buffer_is_empty_tracks_the_outbox() {
    let mut primary: Queue<u8, u8> = Queue::new();
    assert!(primary.buffer_is_empty());
    primary.emit_owned(1);
    assert!(!primary.buffer_is_empty());
    let mut secondary = primary.secondary();
    assert!(secondary.buffer_is_empty());
    secondary.emit_owned(2);
    assert!(!secondary.buffer_is_empty());
    secondary.peek();
    let mut primary = secondary.primary();
    assert!(primary.buffer_is_empty());
}

#[test]
fn buffer_is_empty_does_not_mutate() {
    let mut primary: Queue<u8, u8> = Queue::new();
    primary.emit_owned(1);
    assert!(!primary.buffer_is_empty());
    assert!(!primary.buffer_is_empty());
    let secondary = primary.secondary();
    assert!(secondary.buffer_is_empty());
    assert!(secondary.buffer_is_empty());
    let mut secondary = secondary;
    assert_eq!(secondary.peek(), vec![1]);
}

#[test]
fn operations_on_an_empty_queue() {
    let mut primary: Queue<u8, u8> = Queue::new();
    assert!(primary.buffer_is_empty());
    assert_eq!(primary.peek(), vec![]);
    assert_eq!(primary.map(|x: &u8| *x), vec![]);
    assert_eq!(primary.with(|events: &[u8]| events.len()), 0);
    primary.bounce(|x| Some(x));
    assert!(primary.buffer_is_empty());
    let mut secondary = primary.secondary();
    assert!(secondary.buffer_is_empty());
    assert_eq!(secondary.peek(), vec![]);
}

#[test]
fn endpoints_with_distinct_event_types() {
    let mut primary: Queue<String, u8> = Queue::new();
    primary.emit_owned(42);
    let mut secondary = primary.secondary();
    assert_eq!(secondary.peek(), vec![42]);
    secondary.emit_owned(String::from("ack"));
    let mut primary = secondary.primary();
    assert_eq!(primary.peek(), vec![String::from("ack")]);
}
