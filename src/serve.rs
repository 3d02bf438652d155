//! The decisions of the serving side. Each interface runs one session: it
//! binds, then accepts connections one after the other and sends each the
//! served file. The first error ends it.

use vstd::prelude::*;
use vstd::utf8::*;
use crate::errors::{SendError, ServeError};
use crate::framing::header_bytes;
use crate::network::Ipv4Address;
use crate::registry::{path_file_name, FileInfo, FileRepository, SERVED_FILE};

verus! {

/// The I/O that a serving session asks the program to perform.
pub enum ServeAction {
    /// Listen on this address and port.
    Bind { addr: Ipv4Address, port: u16 },
    /// Wait for the next connection.
    Accept,
    /// On the accepted connection, write `header`, then the content of the
    /// file at `path`.
    Send { path: String, header: Vec<u8> },
    /// Serving on this interface has ended.
    Stop(ServeError),
}

/// What came of the last action.
pub enum ServeEvent {
    Bound,
    BindFailed(std::io::Error),
    /// A connection came in from this peer address and port.
    Accepted { peer: Ipv4Address, peer_port: u16 },
    AcceptFailed(std::io::Error),
    Sent,
    SendFailed(SendError),
}

/// Where a serving session stands.
pub enum ServeStage {
    Binding,
    Accepting,
    /// Sending to the connection from this peer.
    Serving { peer: Ipv4Address, peer_port: u16 },
    Terminated,
}

/// What a new connection is sent, from the registered files: the path of
/// the served file and the header that announces it.
pub open spec fn served(files: Map<u32, FileInfo>) -> Result<(Seq<char>, Seq<u8>), SendError> {
    if !files.contains_key(SERVED_FILE) {
        Err(SendError::UnknownFile(SERVED_FILE))
    } else {
        let f = files[SERVED_FILE];
        match path_file_name(f.spec_path()) {
            None => Err(SendError::PathConversion),
            Some(name) => {
                if encode_utf8(name).len() > u32::MAX {
                    Err(SendError::PathConversion)
                } else if f.spec_len() > u32::MAX {
                    Err(SendError::FileTooLarge(f.spec_len()))
                } else {
                    Ok((f.spec_path(), header_bytes(encode_utf8(name), f.spec_len() as u32)))
                }
            },
        }
    }
}

/// The serving of one interface.
pub struct ServeSession {
    repo: FileRepository,
    port: u16,
    stage: ServeStage,
}

impl ServeSession {
    pub closed spec fn stage(&self) -> ServeStage {
        self.stage
    }

    pub closed spec fn spec_repo(&self) -> FileRepository {
        self.repo
    }

    pub closed spec fn spec_port(&self) -> u16 {
        self.port
    }

    /// `e` answers the action that the session asked for last.
    pub open spec fn accepts(&self, e: ServeEvent) -> bool {
        match self.stage() {
            ServeStage::Binding => e is Bound || e is BindFailed,
            ServeStage::Accepting => e is Accepted || e is AcceptFailed,
            ServeStage::Serving { .. } => e is Sent || e is SendFailed,
            ServeStage::Terminated => false,
        }
    }

    fn stop(repo: FileRepository, port: u16, e: ServeError) -> (r: (ServeSession, ServeAction))
        ensures
            r.0.stage() is Terminated,
            r.0.spec_repo() == repo,
            r.0.spec_port() == port,
            r.1 == ServeAction::Stop(e),
    {
        (ServeSession { repo, port, stage: ServeStage::Terminated }, ServeAction::Stop(e))
    }

    /// Takes what came of the last action and names the next one.
    pub fn step(self, event: ServeEvent) -> (r: (ServeSession, ServeAction))
        requires
            self.accepts(event),
        ensures
            r.0.spec_repo() == self.spec_repo(),
            r.0.spec_port() == self.spec_port(),
            match (self.stage(), event) {
                (ServeStage::Binding, ServeEvent::Bound) => r.0.stage() is Accepting && r.1 is Accept,
                (ServeStage::Binding, ServeEvent::BindFailed(e)) => r.0.stage() is Terminated
                    && r.1 == ServeAction::Stop(
                    ServeError::Bind(e, self.spec_repo().spec_interface().addr, self.spec_port()),
                ),
                (ServeStage::Accepting, ServeEvent::Accepted { peer, peer_port }) => match served(
                    self.spec_repo().spec_files(),
                ) {
                    Ok((path, header)) => {
                        &&& r.0.stage() == (ServeStage::Serving { peer, peer_port })
                        &&& r.1 matches ServeAction::Send { path: p, header: h }
                        &&& p@ == path
                        &&& h@ == header
                    },
                    Err(e) => r.0.stage() is Terminated && r.1 == ServeAction::Stop(
                        ServeError::SendingFile(e, peer, peer_port),
                    ),
                },
                (ServeStage::Accepting, ServeEvent::AcceptFailed(e)) => r.0.stage() is Terminated
                    && r.1 == ServeAction::Stop(ServeError::Connection(e)),
                (ServeStage::Serving { .. }, ServeEvent::Sent) => r.0.stage() is Accepting
                    && r.1 is Accept,
                (ServeStage::Serving { peer, peer_port }, ServeEvent::SendFailed(e)) => r.0.stage() is Terminated
                    && r.1 == ServeAction::Stop(ServeError::SendingFile(e, peer, peer_port)),
                _ => false,
            },
    {
        let ServeSession { repo, port, stage } = self;
        match stage {
            ServeStage::Binding => match event {
                ServeEvent::Bound => (
                    ServeSession { repo, port, stage: ServeStage::Accepting },
                    ServeAction::Accept,
                ),
                ServeEvent::BindFailed(e) => {
                    let addr = repo.interface().addr;
                    Self::stop(repo, port, ServeError::Bind(e, addr, port))
                },
                _ => vstd::pervasive::unreached(),
            },
            ServeStage::Accepting => match event {
                ServeEvent::Accepted { peer, peer_port } => {
                    let next = match repo.transfer() {
                        Ok((file, message)) => Ok(
                            ServeAction::Send { path: file.path().to_owned(), header: message.write() },
                        ),
                        Err(e) => Err(e),
                    };
                    match next {
                        Ok(action) => (
                            ServeSession {
                                repo,
                                port,
                                stage: ServeStage::Serving { peer, peer_port },
                            },
                            action,
                        ),
                        Err(e) => Self::stop(repo, port, ServeError::SendingFile(e, peer, peer_port)),
                    }
                },
                ServeEvent::AcceptFailed(e) => Self::stop(repo, port, ServeError::Connection(e)),
                _ => vstd::pervasive::unreached(),
            },
            ServeStage::Serving { peer, peer_port } => match event {
                ServeEvent::Sent => (
                    ServeSession { repo, port, stage: ServeStage::Accepting },
                    ServeAction::Accept,
                ),
                ServeEvent::SendFailed(e) => Self::stop(
                    repo,
                    port,
                    ServeError::SendingFile(e, peer, peer_port),
                ),
                _ => vstd::pervasive::unreached(),
            },
            ServeStage::Terminated => vstd::pervasive::unreached(),
        }
    }
}

impl FileRepository {
    /// Starts serving this interface's files on `port`.
    pub fn run(self, port: u16) -> (r: (ServeSession, ServeAction))
        ensures
            r.0.stage() is Binding,
            r.0.spec_repo() == self,
            r.0.spec_port() == port,
            r.1 == (ServeAction::Bind { addr: self.spec_interface().addr, port }),
    {
        let addr = self.interface().addr;
        (ServeSession { repo: self, port, stage: ServeStage::Binding }, ServeAction::Bind { addr, port })
    }
}

} // verus!
