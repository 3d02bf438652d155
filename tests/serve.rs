use send::errors::{SendError, ServeError};
use send::fetch::PORT;
use send::network::{Interface, Ipv4Address};
use send::registry::{FileInfo, FileRepository};
use send::serve::{ServeAction, ServeEvent, ServeSession};

fn io_error() -> std::io::Error {
    std::io::Error::new(std::io::ErrorKind::Other, "broken")
}

fn repository(files: &[(&str, u64)]) -> FileRepository {
    let mut repo = FileRepository::new(Interface { name: "eth0".to_string(), addr: Ipv4Address::new(10, 0, 0, 5) });
    for (path, len) in files {
        repo.add_file(FileInfo::new(path.to_string(), *len)).ok().unwrap();
    }
    repo
}

fn peer() -> ServeEvent {
    ServeEvent::Accepted { peer: Ipv4Address::new(10, 0, 0, 9), peer_port: 51000 }
}

fn is_peer(addr: Ipv4Address, port: u16) -> bool {
    addr == Ipv4Address::new(10, 0, 0, 9) && port == 51000
}

fn bound(files: &[(&str, u64)]) -> ServeSession {
    let (session, action) = repository(files).run(PORT);
    assert!(matches!(action, ServeAction::Bind { addr, port: 2222 } if addr == Ipv4Address::new(10, 0, 0, 5)));
    let (session, action) = session.step(ServeEvent::Bound);
    assert!(matches!(action, ServeAction::Accept));
    session
}

#[test]
fn each_connection_gets_the_file() {
    let mut session = bound(&[("/srv/a.txt", 3)]);
    for _ in 0..3 {
        let (s, action) = session.step(peer());
        match action {
            ServeAction::Send { path, header } => {
                assert_eq!(path, "/srv/a.txt");
                assert_eq!(header, vec![0, 0, 0, 5, b'a', b'.', b't', b'x', b't', 0, 0, 0, 3]);
            }
            _ => panic!("expected a send"),
        }
        let (s, action) = s.step(ServeEvent::Sent);
        assert!(matches!(action, ServeAction::Accept));
        session = s;
    }
}

#[test]
fn bind_failure_names_the_address() {
    let (session, _) = repository(&[("/srv/a.txt", 3)]).run(4000);
    match session.step(ServeEvent::BindFailed(io_error())).1 {
        ServeAction::Stop(ServeError::Bind(_, addr, port)) => {
            assert_eq!(addr, Ipv4Address::new(10, 0, 0, 5));
            assert_eq!(port, 4000);
        }
        _ => panic!("expected a bind error"),
    }
}

#[test]
fn any_connection_error_ends_serving() {
    let session = bound(&[("/srv/a.txt", 3)]);
    assert!(matches!(session.step(ServeEvent::AcceptFailed(io_error())).1, ServeAction::Stop(ServeError::Connection(_))));
    let session = bound(&[("/srv/a.txt", 3)]);
    let (session, _) = session.step(peer());
    assert!(matches!(
        session.step(ServeEvent::SendFailed(SendError::PathConversion)).1,
        ServeAction::Stop(ServeError::SendingFile(SendError::PathConversion, a, p)) if is_peer(a, p)
    ));
}

#[test]
fn nothing_to_serve_ends_serving() {
    let session = bound(&[]);
    assert!(matches!(
        session.step(peer()).1,
        ServeAction::Stop(ServeError::SendingFile(SendError::UnknownFile(0), a, p)) if is_peer(a, p)
    ));
    let session = bound(&[("/", 3)]);
    assert!(matches!(
        session.step(peer()).1,
        ServeAction::Stop(ServeError::SendingFile(SendError::PathConversion, a, p)) if is_peer(a, p)
    ));
}
