use nihility_rpc::proto::execute::ExecuteData;
use nihility_rpc::stream::{BoundedQueue, CallLifecycle, CallPhase};

#[test]
fn streaming_preserves_order() {
    let mut queue: BoundedQueue<ExecuteData> = BoundedQueue::new(10);
    for i in 0..10 {
        queue
            .push(ExecuteData::String(format!("test, index: {}", i)))
            .ok()
            .expect("buffer has room");
    }
    for i in 0..10 {
        let got = queue.pop().expect("buffer is not empty");
        assert_eq!(got, ExecuteData::String(format!("test, index: {}", i)));
    }
    assert_eq!(queue.pop(), None);
}

#[test]
fn interleaved_order_preserved() {
    let mut queue: BoundedQueue<u32> = BoundedQueue::new(2);
    assert!(queue.push(1).is_ok());
    assert!(queue.push(2).is_ok());
    assert_eq!(queue.pop(), Some(1));
    assert!(queue.push(3).is_ok());
    assert_eq!(queue.pop(), Some(2));
    assert_eq!(queue.pop(), Some(3));
    assert_eq!(queue.pop(), None);
}

#[test]
fn full_buffer_applies_backpressure() {
    let mut queue: BoundedQueue<ExecuteData> = BoundedQueue::new(2);
    assert!(queue.push(ExecuteData::String("a".to_string())).is_ok());
    assert!(queue.push(ExecuteData::String("b".to_string())).is_ok());
    assert!(queue.is_full());
    // a full buffer hands the element back instead of dropping or growing
    let refused = queue
        .push(ExecuteData::String("c".to_string()))
        .expect_err("buffer is full");
    assert_eq!(refused, ExecuteData::String("c".to_string()));
    assert_eq!(queue.len(), 2);
    // once the consumer drains, the producer may proceed
    assert_eq!(queue.pop(), Some(ExecuteData::String("a".to_string())));
    assert!(queue.push(refused).is_ok());
    assert_eq!(queue.pop(), Some(ExecuteData::String("b".to_string())));
    assert_eq!(queue.pop(), Some(ExecuteData::String("c".to_string())));
}

#[test]
fn lifecycle_completes() {
    let mut call = CallLifecycle::new();
    assert!(!call.is_finished());
    call.activate();
    assert!(!call.is_finished());
    call.complete();
    assert!(call.is_finished());
}

#[test]
fn lifecycle_fails_on_decode_error() {
    let mut call = CallLifecycle::new();
    call.activate();
    call.fail();
    assert!(call.is_finished());
}

#[test]
fn lifecycle_cancelled_by_peer() {
    let mut call = CallLifecycle::new();
    call.activate();
    call.cancel();
    assert!(call.is_finished());
}

#[test]
fn phases_compare() {
    assert_eq!(CallPhase::Open, CallPhase::Open);
    assert_ne!(CallPhase::Completed, CallPhase::Failed);
}
