use nezuko::error::Error;

#[test]
fn error_carries_the_os_error() {
    let e = Error::Io(std::io::Error::from(std::io::ErrorKind::BrokenPipe));
    match e {
        Error::Io(inner) => assert_eq!(inner.kind(), std::io::ErrorKind::BrokenPipe),
        Error::Shutdown => panic!("wrong variant"),
    }
    assert!(matches!(Error::Shutdown, Error::Shutdown));
}

#[test]
fn os_error_converts_into_io() {
    let e: Error = Error::from(std::io::Error::from(std::io::ErrorKind::WouldBlock));
    match e {
        Error::Io(inner) => assert_eq!(inner.kind(), std::io::ErrorKind::WouldBlock),
        Error::Shutdown => panic!("wrong variant"),
    }
    let r: nezuko::error::Result<u8> = Err(Error::Shutdown);
    assert_eq!(format!("{:?}", r), "Err(Shutdown)");
}
