use rak811::protocol::Response;
use rak811::ResponseQueue;

#[test]
fn fifo_order_is_kept() {
    let mut queue = ResponseQueue::new();
    queue.enqueue(Response::Error(1)).unwrap();
    queue.enqueue(Response::OK).unwrap();
    assert_eq!(queue.dequeue(), Some(Response::Error(1)));
    assert_eq!(queue.dequeue(), Some(Response::OK));
    assert_eq!(queue.dequeue(), None);
}

#[test]
fn fifth_enqueue_is_rejected_and_accepted_after_a_dequeue() {
    let mut queue = ResponseQueue::new();
    queue.enqueue(Response::Error(1)).unwrap();
    queue.enqueue(Response::Error(2)).unwrap();
    queue.enqueue(Response::Error(3)).unwrap();
    queue.enqueue(Response::Error(4)).unwrap();
    assert_eq!(queue.len(), 4);
    assert_eq!(queue.enqueue(Response::Error(5)), Err(Response::Error(5)));
    assert_eq!(queue.len(), 4);
    assert_eq!(queue.dequeue(), Some(Response::Error(1)));
    assert_eq!(queue.enqueue(Response::Error(5)), Ok(()));
    assert_eq!(queue.len(), 4);
    assert_eq!(queue.dequeue(), Some(Response::Error(2)));
    assert_eq!(queue.dequeue(), Some(Response::Error(3)));
    assert_eq!(queue.dequeue(), Some(Response::Error(4)));
    assert_eq!(queue.dequeue(), Some(Response::Error(5)));
    assert_eq!(queue.dequeue(), None);
}
