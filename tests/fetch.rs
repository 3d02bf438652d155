use send::codec::{check_dictionary, TransportPresenter};
use send::errors::{FetchError, SerializationError};
use send::fetch::{FetchAction, FetchEvent, FetchSession, FileClient, CHUNK_SIZE, PORT};
use send::framing::FileMessage;
use send::network::Ipv4Address;
use send::transport::ClientTransport;

fn io_error() -> std::io::Error {
    std::io::Error::new(std::io::ErrorKind::Other, "broken")
}

fn connected(out_path: Option<String>) -> (FetchSession, FetchAction) {
    let (session, action) = FileClient::new().get_file(ClientTransport::new(0x7f00_0001), out_path);
    match action {
        FetchAction::Connect { addr, port } => {
            assert_eq!(addr, Ipv4Address::new(127, 0, 0, 1));
            assert_eq!(port, PORT);
        }
        _ => panic!("a fetch starts by connecting"),
    }
    session.step(FetchEvent::Connected)
}

/// Feeds the session the header bytes that it asks for, from `stream`.
fn read_header(mut session: FetchSession, mut action: FetchAction, stream: &[u8]) -> (FetchSession, FetchAction) {
    let mut pos = 0;
    while let FetchAction::ReadHeader { wanted } = action {
        let end = usize::min(pos + wanted, stream.len());
        let (s, a) = session.step(FetchEvent::HeaderBytes(stream[pos..end].to_vec()));
        session = s;
        action = a;
        pos = end;
    }
    (session, action)
}

#[test]
fn fetch_of_a_three_byte_file() {
    let dict: Vec<String> = ["w0", "w1", "w2", "w3"].iter().map(|w| w.to_string()).collect();
    assert!(check_dictionary(&dict));
    let presenter = TransportPresenter::new(dict, 4);
    let code = presenter.present(&send::transport::ServerTransport::new(1, 15));
    assert_eq!(code.split(' ').count(), 2);
    let transport = presenter.present_inv(code).ok().unwrap();
    let (session, action) = FileClient::new().get_file(transport, None);
    assert!(matches!(action, FetchAction::Connect { addr, port: PORT } if addr.to_bits() == 1));
    let (session, action) = session.step(FetchEvent::Connected);
    let stream = FileMessage::new("a.txt".to_string(), 3).write();
    let (session, action) = read_header(session, action, &stream);
    let path = match action {
        FetchAction::CheckDestination { path } => path,
        _ => panic!("expected a destination check"),
    };
    assert_eq!(path, "a.txt");
    let (session, action) = session.step(FetchEvent::Exists(false));
    assert!(matches!(action, FetchAction::Create { ref path, size: 3 } if path == "a.txt"));
    let (session, action) = session.step(FetchEvent::Created);
    assert!(matches!(action, FetchAction::ReadChunk { max: CHUNK_SIZE }));
    let (session, action) = session.step(FetchEvent::ChunkRead(3));
    assert!(matches!(action, FetchAction::WriteChunk { len: 3, total: 3 }));
    let (session, action) = session.step(FetchEvent::ChunkWritten);
    assert!(matches!(action, FetchAction::ReadChunk { max: 8192 }));
    let (_, action) = session.step(FetchEvent::ChunkRead(0));
    assert!(matches!(action, FetchAction::Done));
}

#[test]
fn existing_destination_is_never_overwritten() {
    let (session, action) = connected(None);
    let stream = FileMessage::new("a.txt".to_string(), 3).write();
    let (session, action) = read_header(session, action, &stream);
    assert!(matches!(action, FetchAction::CheckDestination { .. }));
    let (_, action) = session.step(FetchEvent::Exists(true));
    match action {
        FetchAction::Fail(FetchError::FileExists(p)) => assert_eq!(p, "a.txt"),
        _ => panic!("expected the file-exists error"),
    }
}

#[test]
fn given_output_path_wins_over_the_sent_name() {
    let (session, action) = connected(Some("out/copy.bin".to_string()));
    let stream = FileMessage::new("a.txt".to_string(), 3).write();
    let (_, action) = read_header(session, action, &stream);
    assert!(matches!(action, FetchAction::CheckDestination { ref path } if path == "out/copy.bin"));
}

#[test]
fn progress_adds_up_over_chunks() {
    let (session, action) = connected(None);
    let stream = FileMessage::new("big".to_string(), 20000).write();
    let (session, _) = read_header(session, action, &stream);
    let (session, _) = session.step(FetchEvent::Exists(false));
    let (mut session, _) = session.step(FetchEvent::Created);
    let mut totals = Vec::new();
    for n in [8192usize, 8192, 3616] {
        let (s, action) = session.step(FetchEvent::ChunkRead(n));
        match action {
            FetchAction::WriteChunk { len, total } => {
                assert_eq!(len, n);
                totals.push(total);
            }
            _ => panic!("expected a write"),
        }
        let (s, _) = s.step(FetchEvent::ChunkWritten);
        session = s;
    }
    assert_eq!(totals, vec![8192, 16384, 20000]);
}

#[test]
fn failures_are_told_apart() {
    let (session, _) = FileClient::new().get_file(ClientTransport::new(0x0a00_0002), None);
    match session.step(FetchEvent::ConnectFailed(io_error())).1 {
        FetchAction::Fail(FetchError::Connection(_, addr, port)) => {
            assert_eq!(addr, Ipv4Address::new(10, 0, 0, 2));
            assert_eq!(port, 2222);
        }
        _ => panic!("expected a connection error"),
    }
    let (session, _) = connected(None);
    assert!(matches!(
        session.step(FetchEvent::HeaderReadFailed(io_error())).1,
        FetchAction::Fail(FetchError::ReadMessage(SerializationError::Io(_)))
    ));
    let (session, action) = connected(None);
    let (_, action) = read_header(session, action, &[0, 0, 0, 10, b'a', b'b', b'c', b'd']);
    assert!(matches!(
        action,
        FetchAction::Fail(FetchError::ReadMessage(SerializationError::IncompleteRead(4, 10)))
    ));
    let (session, action) = connected(None);
    let (_, action) = read_header(session, action, &[0, 0, 0, 0]);
    assert!(matches!(
        action,
        FetchAction::Fail(FetchError::ReadMessage(SerializationError::Io(ref e))) if e.kind() == std::io::ErrorKind::UnexpectedEof
    ));
    let (session, action) = connected(None);
    let stream = FileMessage::new("a".to_string(), 1).write();
    let (session, _) = read_header(session, action, &stream);
    let (session, _) = session.step(FetchEvent::Exists(false));
    assert!(matches!(session.step(FetchEvent::CreateFailed(io_error())).1, FetchAction::Fail(FetchError::Io(_))));
    let (session, action) = connected(None);
    let (session, _) = read_header(session, action, &stream);
    let (session, _) = session.step(FetchEvent::Exists(false));
    let (session, _) = session.step(FetchEvent::Created);
    assert!(matches!(
        session.step(FetchEvent::ChunkReadFailed(io_error())).1,
        FetchAction::Fail(FetchError::ReadContent(_))
    ));
    let (session, action) = connected(None);
    let (session, _) = read_header(session, action, &stream);
    let (session, _) = session.step(FetchEvent::Exists(false));
    let (session, _) = session.step(FetchEvent::Created);
    let (session, _) = session.step(FetchEvent::ChunkRead(1));
    assert!(matches!(
        session.step(FetchEvent::ChunkWriteFailed(io_error())).1,
        FetchAction::Fail(FetchError::WriteContent(_))
    ));
}
