use nezuko::net::IoResult;
use nezuko::wakeup::trigger_result;
use nezuko::reactor::{after_poll, PollFd, PollReturn, Reactor};

#[test]
fn registrations_get_fresh_ids() {
    let mut r: Reactor<&str> = Reactor::new();
    assert_eq!(r.register(5, 1, "a"), 0);
    assert_eq!(r.register(5, 4, "b"), 1);
    assert_eq!(r.register(7, 1, "c"), 2);
}

#[test]
fn poll_set_ends_with_the_wakeup_pipe() {
    let mut r: Reactor<&str> = Reactor::new();
    r.register(5, 1, "a");
    r.register(6, 4, "b");
    let (ids, fds) = r.poll_set(9, 1);
    assert_eq!(ids, vec![0, 1]);
    assert_eq!(
        fds,
        vec![
            PollFd { fd: 5, events: 1, revents: 0 },
            PollFd { fd: 6, events: 4, revents: 0 },
            PollFd { fd: 9, events: 1, revents: 0 },
        ]
    );
}

#[test]
fn fired_registrations_are_dropped_and_woken() {
    let mut r: Reactor<&str> = Reactor::new();
    r.register(5, 1, "a");
    r.register(5, 1, "b");
    r.register(6, 4, "c");
    let (ids, _) = r.poll_set(9, 1);
    // fd of "b" ready, the wakeup pipe (last entry) ready too
    let wakers = r.take_ready(&ids, &vec![0, 1, 0, 1]);
    assert_eq!(wakers, vec!["b"]);
    let (ids, _) = r.poll_set(9, 1);
    assert_eq!(ids, vec![0, 2]);
    let wakers = r.take_ready(&ids, &vec![4, 4, 0]);
    assert_eq!(wakers, vec!["a", "c"]);
    let (ids, fds) = r.poll_set(9, 1);
    assert!(ids.is_empty());
    assert_eq!(fds.len(), 1);
}

#[test]
fn nothing_ready_keeps_everything() {
    let mut r: Reactor<u8> = Reactor::new();
    r.register(3, 1, 1);
    r.register(4, 1, 2);
    let (ids, _) = r.poll_set(9, 1);
    assert!(r.take_ready(&ids, &vec![0, 0, 1]).is_empty());
    let (ids2, _) = r.poll_set(9, 1);
    assert_eq!(ids2, ids);
}

#[test]
fn full_wakeup_pipe_counts_as_rung() {
    assert_eq!(trigger_result::<&str>(IoResult::Done(1)), Ok(()));
    assert_eq!(trigger_result::<&str>(IoResult::WouldBlock), Ok(()));
    assert_eq!(trigger_result::<&str>(IoResult::Failed("bad fd")), Err("bad fd"));
}

#[test]
fn interrupted_poll_is_no_error() {
    assert_eq!(after_poll::<&str>(PollReturn::Returned), Ok(true));
    assert_eq!(after_poll::<&str>(PollReturn::Interrupted), Ok(false));
    assert_eq!(after_poll::<&str>(PollReturn::Failed("bad")), Err("bad"));
}

#[test]
fn registration_made_during_poll_survives() {
    let mut r: Reactor<&str> = Reactor::new();
    r.register(5, 1, "a");
    let (ids, _) = r.poll_set(9, 1);
    // another thread registers while the reactor sleeps in poll()
    assert_eq!(r.register(6, 1, "late"), 1);
    let wakers = r.take_ready(&ids, &vec![1, 0]);
    assert_eq!(wakers, vec!["a"]);
    let (ids, _) = r.poll_set(9, 1);
    assert_eq!(ids, vec![1]);
}
