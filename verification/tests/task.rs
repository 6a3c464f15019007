use nezuko::task::{spawn, JoinHandle, PollOutcome, Queue, Task};

#[test]
fn queue_is_first_in_first_out() {
    let mut q: Queue<u32> = Queue::new();
    assert_eq!(q.len(), 0);
    assert_eq!(q.pop(), None);
    q.push(1);
    q.push(2);
    q.push(3);
    assert_eq!(q.len(), 3);
    assert_eq!(q.pop(), Some(1));
    q.push(4);
    assert_eq!(q.pop(), Some(2));
    assert_eq!(q.pop(), Some(3));
    assert_eq!(q.pop(), Some(4));
    assert_eq!(q.pop(), None);
}

#[test]
fn spawn_queues_behind_ready_work() {
    let mut q: Queue<&str> = Queue::new();
    q.push("ready");
    spawn(&mut q, "new");
    assert_eq!(q.len(), 2);
    assert_eq!(q.pop(), Some("ready"));
    assert_eq!(q.pop(), Some("new"));
}

#[test]
fn pending_task_keeps_its_future() {
    let mut t = Task::new(7u8);
    assert!(t.is_live());
    let f = t.take_future().unwrap();
    assert!(!t.is_live());
    t.finish_poll(f, PollOutcome::Pending);
    assert!(t.is_live());
    assert_eq!(t.take_future(), Some(7));
}

#[test]
fn finished_task_is_never_polled_again() {
    for outcome in [PollOutcome::Ready, PollOutcome::Panicked] {
        let mut t = Task::new(7u8);
        let f = t.take_future().unwrap();
        t.finish_poll(f, outcome);
        assert!(!t.is_live());
        // a duplicate wake finds nothing to poll
        assert_eq!(t.take_future(), None);
        assert_eq!(t.take_future(), None);
    }
}

#[test]
fn join_result_waits_for_the_awaiter() {
    let mut h: JoinHandle<u32, &str, String> = JoinHandle::new();
    assert!(!h.is_done());
    assert!(!h.is_finished());
    assert_eq!(h.complete(Ok(42)), None);
    assert!(!h.is_done());
    assert!(h.is_finished());
    assert_eq!(h.poll("w"), Some(Ok(42)));
    assert!(h.is_done());
}

#[test]
fn join_awaiter_first_is_woken() {
    let mut h: JoinHandle<u32, &str, String> = JoinHandle::new();
    assert_eq!(h.poll("first"), None);
    // a second poll replaces the waker left earlier
    assert_eq!(h.poll("second"), None);
    assert_eq!(h.complete(Ok(5)), Some("second"));
    assert_eq!(h.poll("third"), Some(Ok(5)));
    assert!(h.is_done());
}

#[test]
fn join_carries_a_panic() {
    let mut h: JoinHandle<u32, &str, String> = JoinHandle::new();
    assert_eq!(h.poll("w"), None);
    assert_eq!(h.complete(Err("inner panic".to_string())), Some("w"));
    assert_eq!(h.poll("w2"), Some(Err("inner panic".to_string())));
    assert!(h.is_done());
}
