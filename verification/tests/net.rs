use nezuko::net::{accept, print_all, write_all, Interest, IoResult, ReadStep, Step, WriteError, WriteStep};

#[test]
fn accept_steps() {
    assert!(matches!(accept::<u8, &str>(IoResult::Done(3)), Step::Ready(Ok(3))));
    assert!(matches!(accept::<u8, &str>(IoResult::WouldBlock), Step::Pending(Interest::Readable)));
    assert!(matches!(accept::<u8, &str>(IoResult::Failed("refused")), Step::Ready(Err("refused"))));
}

#[test]
fn write_all_sends_every_byte() {
    let mut w = write_all(10);
    assert!(!w.is_done());
    assert!(matches!(w.advance::<&str>(IoResult::Done(4)), WriteStep::Continue));
    assert_eq!(w.written(), 4);
    assert!(matches!(w.advance::<&str>(IoResult::WouldBlock), WriteStep::Pending(Interest::Writable)));
    assert_eq!(w.written(), 4);
    assert!(matches!(w.advance::<&str>(IoResult::Done(6)), WriteStep::Ready(Ok(()))));
    assert_eq!(w.written(), 10);
    assert!(w.is_done());
}

#[test]
fn write_all_of_nothing_is_done_at_once() {
    let w = write_all(0);
    assert!(w.is_done());
    assert_eq!(w.written(), 0);
}

#[test]
fn write_all_errors() {
    let mut w = write_all(3);
    assert!(matches!(w.advance::<&str>(IoResult::Done(0)), WriteStep::Ready(Err(WriteError::WriteZero))));
    assert_eq!(w.written(), 0);
    assert!(matches!(
        w.advance::<&str>(IoResult::Failed("reset")),
        WriteStep::Ready(Err(WriteError::Io("reset")))
    ));
}

#[test]
fn print_all_steps() {
    assert!(matches!(print_all::<&str>(IoResult::Done(0)), ReadStep::Ready(Ok(()))));
    assert!(matches!(print_all::<&str>(IoResult::Done(17)), ReadStep::Output(17)));
    assert!(matches!(print_all::<&str>(IoResult::WouldBlock), ReadStep::Pending(Interest::Readable)));
    assert!(matches!(print_all::<&str>(IoResult::Failed("reset")), ReadStep::Ready(Err("reset"))));
}
