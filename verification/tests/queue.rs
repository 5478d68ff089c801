use rush::queue::{BoundedQueue, PopOutcome, PushOutcome};

fn popped(o: PopOutcome) -> Option<Vec<u8>> {
    match o {
        PopOutcome::Item(i) => i,
        _ => panic!("expected an item"),
    }
}

#[test]
fn items_come_out_in_order() {
    let mut q = BoundedQueue::new(4);
    assert!(matches!(q.push(Some(vec![1]), false), PushOutcome::Pushed));
    assert!(matches!(q.push(Some(vec![2, 2]), false), PushOutcome::Pushed));
    assert!(matches!(q.push(None, false), PushOutcome::Pushed));
    assert_eq!(popped(q.pop(false)), Some(vec![1]));
    assert_eq!(popped(q.pop(false)), Some(vec![2, 2]));
    assert_eq!(popped(q.pop(false)), None);
    assert!(matches!(q.pop(false), PopOutcome::Wait));
}

#[test]
fn full_queue_gives_the_item_back() {
    let mut q = BoundedQueue::new(2);
    assert!(matches!(q.push(Some(vec![1]), false), PushOutcome::Pushed));
    assert!(matches!(q.push(Some(vec![2]), false), PushOutcome::Pushed));
    match q.push(Some(vec![3]), false) {
        PushOutcome::Full(item) => assert_eq!(item, Some(vec![3])),
        _ => panic!("expected the queue to be full"),
    }
    assert_eq!(popped(q.pop(false)), Some(vec![1]));
    assert!(matches!(q.push(Some(vec![3]), false), PushOutcome::Pushed));
    assert_eq!(popped(q.pop(false)), Some(vec![2]));
    assert_eq!(popped(q.pop(false)), Some(vec![3]));
}

#[test]
fn stopping_drops_pushes_and_ends_pops() {
    let mut q = BoundedQueue::new(2);
    assert!(matches!(q.push(Some(vec![1]), true), PushOutcome::Stopped));
    assert!(matches!(q.pop(true), PopOutcome::Done));
    assert!(matches!(q.push(Some(vec![1]), false), PushOutcome::Pushed));
    // What is queued still comes out while stopping.
    assert_eq!(popped(q.pop(true)), Some(vec![1]));
}

#[test]
fn finished_queue_drains_then_stays_done() {
    let mut q = BoundedQueue::new(3);
    assert!(matches!(q.push(Some(vec![5]), false), PushOutcome::Pushed));
    q.finish();
    assert_eq!(popped(q.pop(false)), Some(vec![5]));
    assert!(matches!(q.pop(false), PopOutcome::Done));
    assert!(matches!(q.pop(false), PopOutcome::Done));
}
