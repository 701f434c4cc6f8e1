use rsnova::mux::stream::StreamFlow;
use std::sync::atomic::{AtomicBool, Ordering};
use std::sync::Arc;
use std::task::{Wake, Waker};

struct TestWaker {
    woken: AtomicBool,
}

impl TestWaker {
    fn new() -> Arc<Self> {
        Arc::new(Self {
            woken: AtomicBool::new(false),
        })
    }
    fn was_woken(&self) -> bool {
        self.woken.load(Ordering::Acquire)
    }
}

impl Wake for TestWaker {
    fn wake(self: Arc<Self>) {
        self.woken.store(true, Ordering::Release);
    }
}

#[test]
fn stream_flow_initial_available() {
    let flow = StreamFlow::new(256 * 1024);
    assert_eq!(flow.available(), 256 * 1024);
    assert!(!flow.is_closed());
}

#[test]
fn stream_flow_try_consume_basic() {
    let mut flow = StreamFlow::new(1000);
    let consumed = flow.try_consume(600);
    assert_eq!(consumed, 600);
    assert_eq!(flow.available(), 400);

    let consumed2 = flow.try_consume(500);
    assert_eq!(consumed2, 400);
    assert_eq!(flow.available(), 0);
}

#[test]
fn stream_flow_try_consume_returns_zero_when_empty() {
    let mut flow = StreamFlow::new(100);
    let _ = flow.try_consume(100);
    assert_eq!(flow.try_consume(1), 0);
}

#[test]
fn stream_flow_credit_adds_window() {
    let mut flow = StreamFlow::new(100);
    let _ = flow.try_consume(100);
    assert_eq!(flow.available(), 0);
    flow.credit(50);
    assert_eq!(flow.available(), 50);
}

#[test]
fn stream_flow_credit_wakes_writer() {
    let mut flow = StreamFlow::new(0);
    let test_waker = TestWaker::new();
    let waker = Waker::from(test_waker.clone());
    flow.register_waker(&waker);
    assert!(!test_waker.was_woken());

    flow.credit(100);
    assert!(test_waker.was_woken());
}

#[test]
fn stream_flow_close_returns_zero_available() {
    let mut flow = StreamFlow::new(1000);
    flow.close();
    assert_eq!(flow.available(), 0);
    assert!(flow.is_closed());
}

#[test]
fn stream_flow_close_wakes_writer() {
    let mut flow = StreamFlow::new(0);
    let test_waker = TestWaker::new();
    let waker = Waker::from(test_waker.clone());
    flow.register_waker(&waker);

    flow.close();
    assert!(test_waker.was_woken());
}

#[test]
fn stream_flow_try_consume_returns_zero_when_closed() {
    let mut flow = StreamFlow::new(1000);
    flow.close();
    assert_eq!(flow.try_consume(100), 0);
}

#[test]
fn stream_flow_credit_noop_when_closed() {
    let mut flow = StreamFlow::new(0);
    flow.close();
    flow.credit(100);
    assert_eq!(flow.available(), 0);
}

#[test]
fn stream_flow_window_is_kept_over_many_calls() {
    let mut flow = StreamFlow::new(100);
    let mut credited: usize = 0;
    let mut taken: usize = 0;
    for (increment, desired) in [(0u32, 30usize), (50, 200), (0, 5), (7, 3), (1000, 999)] {
        flow.credit(increment);
        credited += increment as usize;
        taken += flow.try_consume(desired);
        assert_eq!(flow.available() as usize, 100 + credited - taken);
    }
    assert_eq!(taken, 100 + 50 + 3 + 999);
    flow.close();
    flow.credit(9);
    flow.close();
    assert_eq!(flow.try_consume(1), 0);
    assert_eq!(flow.available(), 0);
    assert!(flow.is_closed());
}
