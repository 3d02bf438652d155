//! The decisions of the fetching side. A fetch is a session: it names the
//! I/O that the program performs next, and takes back what came of it.

use vstd::prelude::*;
use vstd::pervasive::unreached;
use crate::errors::{FetchError, SerializationError};
use crate::framing::{header_wanted, parse_header, HeaderOutcome, MessageReader, ReadProgress};
use crate::network::Ipv4Address;
use crate::transport::PartialTransport;

verus! {

/// The port that files are served on and fetched from.
pub const PORT: u16 = 2222;

/// The most content bytes that one read takes from the connection.
pub const CHUNK_SIZE: usize = 8192;

/// The I/O that a fetch asks the program to perform.
pub enum FetchAction {
    /// Open a connection to this address and port.
    Connect { addr: Ipv4Address, port: u16 },
    /// Read this many bytes of the header, fewer only where the stream closes.
    ReadHeader { wanted: usize },
    /// Tell whether this path exists.
    CheckDestination { path: String },
    /// Create the file at this path, for `size` bytes of content.
    Create { path: String, size: u32 },
    /// Read once from the connection, at most `max` bytes.
    ReadChunk { max: usize },
    /// Write the `len` bytes just read; `total` have come in so far.
    WriteChunk { len: usize, total: u64 },
    /// The file has been fetched.
    Done,
    /// The fetch failed.
    Fail(FetchError),
}

/// What came of the last action.
pub enum FetchEvent {
    Connected,
    ConnectFailed(std::io::Error),
    HeaderBytes(Vec<u8>),
    HeaderReadFailed(std::io::Error),
    Exists(bool),
    Created,
    CreateFailed(std::io::Error),
    ChunkRead(usize),
    ChunkReadFailed(std::io::Error),
    ChunkWritten,
    ChunkWriteFailed(std::io::Error),
}

/// Where a fetch stands.
pub enum FetchStage {
    Connecting,
    ReadingHeader { reader: MessageReader },
    CheckingDestination { path: String, size: u32 },
    Creating { path: String, size: u32 },
    /// `total` content bytes have been written.
    Receiving { total: u64 },
    /// A chunk is being written; `total` bytes with it.
    Writing { total: u64 },
    Finished,
    Failed,
}

/// The path a fetched file is written to: the one given, else the name in
/// the message, relative to the current directory.
pub open spec fn destination(out_path: Option<String>, name: Seq<char>) -> Seq<char> {
    match out_path {
        Some(p) => p@,
        None => name,
    }
}

/// One step of a fetch: from session `s`, event `e` leads to session `next`
/// and action `a`. The address and the output path never change.
pub open spec fn fetch_transition(
    s: FetchSession,
    e: FetchEvent,
    next: FetchSession,
    a: FetchAction,
) -> bool {
    &&& next.spec_addr() == s.spec_addr()
    &&& next.spec_out_path() == s.spec_out_path()
    &&& match (s.stage(), e) {
            (FetchStage::Connecting, FetchEvent::Connected) => next.stage() matches FetchStage::ReadingHeader { reader } && reader@ == Seq::<u8>::empty() && a == (FetchAction::ReadHeader { wanted: 4 }),
            (FetchStage::Connecting, FetchEvent::ConnectFailed(e)) => next.stage() is Failed && a == FetchAction::Fail(FetchError::Connection(e, s.spec_addr(), PORT)),
            (FetchStage::ReadingHeader { reader }, FetchEvent::HeaderBytes(b)) => {
                let c = reader@ + b@;
                if b@.len() < header_wanted(reader@) {
                    &&& next.stage() is Failed
                    &&& match parse_header(c) {
                        HeaderOutcome::Incomplete { actual, expected } => a matches FetchAction::Fail(FetchError::ReadMessage(SerializationError::IncompleteRead(x, y))) && x == actual && y == expected,
                        HeaderOutcome::EndOfStream => a matches FetchAction::Fail(FetchError::ReadMessage(SerializationError::Io(_))),
                        _ => false,
                    }
                } else {
                    match parse_header(c) {
                        HeaderOutcome::Message { name, size, length: _ } => {
                            &&& next.stage() matches FetchStage::CheckingDestination { path, size: sz }
                            &&& path@ == destination(s.spec_out_path(), name)
                            &&& sz == size
                            &&& a matches FetchAction::CheckDestination { path: p }
                            &&& p == path
                        },
                        HeaderOutcome::InvalidName { bytes } => {
                            &&& next.stage() is Failed
                            &&& a matches FetchAction::Fail(FetchError::ReadMessage(SerializationError::InvalidName(v)))
                            &&& v@ == bytes
                        },
                        HeaderOutcome::Incomplete { .. } => next.stage() matches FetchStage::ReadingHeader { reader: next } && next@ == c && a == (FetchAction::ReadHeader { wanted: header_wanted(c) as usize }),
                        HeaderOutcome::EndOfStream => next.stage() matches FetchStage::ReadingHeader { reader: next } && next@ == c && a == (FetchAction::ReadHeader { wanted: header_wanted(c) as usize }),
                    }
                }
            },
            (FetchStage::ReadingHeader { .. }, FetchEvent::HeaderReadFailed(e)) => next.stage() is Failed && a == FetchAction::Fail(FetchError::ReadMessage(SerializationError::Io(e))),
            (FetchStage::CheckingDestination { path, size: _ }, FetchEvent::Exists(true)) => next.stage() is Failed && a == FetchAction::Fail(FetchError::FileExists(path)),
            (FetchStage::CheckingDestination { path, size }, FetchEvent::Exists(false)) => next.stage() == (FetchStage::Creating { path, size }) && a == (FetchAction::Create { path, size }),
            (FetchStage::Creating { .. }, FetchEvent::Created) => next.stage() == (FetchStage::Receiving { total: 0 }) && a == (FetchAction::ReadChunk { max: CHUNK_SIZE }),
            (FetchStage::Creating { .. }, FetchEvent::CreateFailed(e)) => next.stage() is Failed && a == FetchAction::Fail(FetchError::Io(e)),
            (FetchStage::Receiving { total }, FetchEvent::ChunkRead(n)) => if n == 0 {
                next.stage() is Finished && a is Done
            } else {
                let t = if total + n > u64::MAX { u64::MAX } else { (total + n) as u64 };
                next.stage() == (FetchStage::Writing { total: t }) && a == (FetchAction::WriteChunk { len: n, total: t })
            },
            (FetchStage::Receiving { .. }, FetchEvent::ChunkReadFailed(e)) => next.stage() is Failed && a == FetchAction::Fail(FetchError::ReadContent(e)),
            (FetchStage::Writing { total }, FetchEvent::ChunkWritten) => next.stage() == (FetchStage::Receiving { total }) && a == (FetchAction::ReadChunk { max: CHUNK_SIZE }),
            (FetchStage::Writing { .. }, FetchEvent::ChunkWriteFailed(e)) => next.stage() is Failed && a == FetchAction::Fail(FetchError::WriteContent(e)),
            _ => false,
        }
}

/// One fetch, from connecting to the last byte written.
pub struct FetchSession {
    addr: Ipv4Address,
    out_path: Option<String>,
    stage: FetchStage,
}

impl FetchSession {
    pub closed spec fn stage(&self) -> FetchStage {
        self.stage
    }

    pub closed spec fn spec_addr(&self) -> Ipv4Address {
        self.addr
    }

    pub closed spec fn spec_out_path(&self) -> Option<String> {
        self.out_path
    }

    pub closed spec fn wf(&self) -> bool {
        match self.stage {
            FetchStage::ReadingHeader { reader } => reader.wf(),
            _ => true,
        }
    }

    /// `e` answers the action that the session asked for last.
    pub open spec fn accepts(&self, e: FetchEvent) -> bool {
        match self.stage() {
            FetchStage::Connecting => e is Connected || e is ConnectFailed,
            FetchStage::ReadingHeader { reader } => match e {
                FetchEvent::HeaderBytes(b) => b@.len() <= header_wanted(reader@),
                FetchEvent::HeaderReadFailed(_) => true,
                _ => false,
            },
            FetchStage::CheckingDestination { .. } => e is Exists,
            FetchStage::Creating { .. } => e is Created || e is CreateFailed,
            FetchStage::Receiving { .. } => match e {
                FetchEvent::ChunkRead(n) => n <= CHUNK_SIZE,
                FetchEvent::ChunkReadFailed(_) => true,
                _ => false,
            },
            FetchStage::Writing { .. } => e is ChunkWritten || e is ChunkWriteFailed,
            FetchStage::Finished => false,
            FetchStage::Failed => false,
        }
    }

    fn fail(addr: Ipv4Address, out_path: Option<String>, e: FetchError) -> (r: (
        FetchSession,
        FetchAction,
    ))
        ensures
            r.0.stage() is Failed,
            r.0.spec_addr() == addr,
            r.0.spec_out_path() == out_path,
            r.1 == FetchAction::Fail(e),
    {
        (FetchSession { addr, out_path, stage: FetchStage::Failed }, FetchAction::Fail(e))
    }

    /// Takes what came of the last action and names the next one.
    pub fn step(self, event: FetchEvent) -> (r: (FetchSession, FetchAction))
        requires
            self.wf(),
            self.accepts(event),
        ensures
            r.0.wf(),
            r.0.spec_addr() == self.spec_addr(),
            r.0.spec_out_path() == self.spec_out_path(),
            r.1 is Create ==> self.stage() is CheckingDestination && event == FetchEvent::Exists(
                false,
            ),
            r.1 is WriteChunk ==> self.stage() is Receiving,
            fetch_transition(self, event, r.0, r.1),
    {
        let FetchSession { addr, out_path, stage } = self;
        match stage {
            FetchStage::Connecting => match event {
                FetchEvent::Connected => (
                    FetchSession {
                        addr,
                        out_path,
                        stage: FetchStage::ReadingHeader { reader: MessageReader::new() },
                    },
                    FetchAction::ReadHeader { wanted: 4 },
                ),
                FetchEvent::ConnectFailed(e) => Self::fail(
                    addr,
                    out_path,
                    FetchError::Connection(e, addr, PORT),
                ),
                _ => unreached(),
            },
            FetchStage::ReadingHeader { reader } => match event {
                FetchEvent::HeaderBytes(b) => match reader.feed(b.as_slice()) {
                    Ok(ReadProgress::More(next)) => {
                        let wanted = next.wanted();
                        (
                            FetchSession {
                                addr,
                                out_path,
                                stage: FetchStage::ReadingHeader { reader: next },
                            },
                            FetchAction::ReadHeader { wanted },
                        )
                    },
                    Ok(ReadProgress::Done(m)) => {
                        let path = match &out_path {
                            Some(p) => p.clone(),
                            None => m.name().to_owned(),
                        };
                        let size = m.size();
                        (
                            FetchSession {
                                addr,
                                out_path,
                                stage: FetchStage::CheckingDestination { path: path.clone(), size },
                            },
                            FetchAction::CheckDestination { path },
                        )
                    },
                    Err(e) => Self::fail(addr, out_path, FetchError::ReadMessage(e)),
                },
                FetchEvent::HeaderReadFailed(e) => Self::fail(
                    addr,
                    out_path,
                    FetchError::ReadMessage(SerializationError::Io(e)),
                ),
                _ => unreached(),
            },
            FetchStage::CheckingDestination { path, size } => match event {
                FetchEvent::Exists(true) => Self::fail(addr, out_path, FetchError::FileExists(path)),
                FetchEvent::Exists(false) => (
                    FetchSession {
                        addr,
                        out_path,
                        stage: FetchStage::Creating { path: path.clone(), size },
                    },
                    FetchAction::Create { path, size },
                ),
                _ => unreached(),
            },
            FetchStage::Creating { path: _, size: _ } => match event {
                FetchEvent::Created => (
                    FetchSession { addr, out_path, stage: FetchStage::Receiving { total: 0 } },
                    FetchAction::ReadChunk { max: CHUNK_SIZE },
                ),
                FetchEvent::CreateFailed(e) => Self::fail(addr, out_path, FetchError::Io(e)),
                _ => unreached(),
            },
            FetchStage::Receiving { total } => match event {
                FetchEvent::ChunkRead(n) => {
                    if n == 0 {
                        (FetchSession { addr, out_path, stage: FetchStage::Finished }, FetchAction::Done)
                    } else {
                        let t = total.saturating_add(n as u64);
                        (
                            FetchSession { addr, out_path, stage: FetchStage::Writing { total: t } },
                            FetchAction::WriteChunk { len: n, total: t },
                        )
                    }
                },
                FetchEvent::ChunkReadFailed(e) => Self::fail(addr, out_path, FetchError::ReadContent(e)),
                _ => unreached(),
            },
            FetchStage::Writing { total } => match event {
                FetchEvent::ChunkWritten => (
                    FetchSession { addr, out_path, stage: FetchStage::Receiving { total } },
                    FetchAction::ReadChunk { max: CHUNK_SIZE },
                ),
                FetchEvent::ChunkWriteFailed(e) => Self::fail(addr, out_path, FetchError::WriteContent(e)),
                _ => unreached(),
            },
            FetchStage::Finished => unreached(),
            FetchStage::Failed => unreached(),
        }
    }
}

/// A session that has failed or finished takes no further event, so it
/// asks for no further I/O: after a destination was found to exist, no
/// file is created or written.
pub proof fn lemma_final_stages_take_nothing(s: FetchSession, e: FetchEvent)
    requires
        s.stage() is Failed || s.stage() is Finished,
    ensures
        !s.accepts(e),
{
}

/// A run of a fetch: `events[i]` answers `sessions[i]`, which then becomes
/// `sessions[i + 1]` and asks for `actions[i]`.
pub open spec fn is_fetch_run(
    sessions: Seq<FetchSession>,
    events: Seq<FetchEvent>,
    actions: Seq<FetchAction>,
) -> bool {
    &&& sessions.len() == events.len() + 1
    &&& actions.len() == events.len()
    &&& forall|i: int| #![trigger events[i]] 0 <= i < events.len() ==> sessions[i].accepts(events[i])
    &&& forall|i: int|
        #![trigger events[i]]
        0 <= i < events.len() ==> fetch_transition(sessions[i], events[i], sessions[i + 1], actions[i])
}

/// The session still writes to `p`, has created nothing, and, if it is
/// checking its destination, checks `p`.
spec fn keeps_destination(s: FetchSession, p: String) -> bool {
    &&& s.spec_out_path() == Some(p)
    &&& match s.stage() {
        FetchStage::CheckingDestination { path, .. } => path@ == p@,
        FetchStage::Creating { .. } => false,
        FetchStage::Receiving { .. } => false,
        FetchStage::Writing { .. } => false,
        FetchStage::Finished => false,
        _ => true,
    }
}

proof fn lemma_run_keeps_destination(
    ss: Seq<FetchSession>,
    es: Seq<FetchEvent>,
    acts: Seq<FetchAction>,
    p: String,
    n: int,
)
    requires
        is_fetch_run(ss, es, acts),
        keeps_destination(ss[0], p),
        forall|i: int|
            #![trigger es[i]]
            0 <= i < es.len() && es[i] is Exists ==> es[i] == FetchEvent::Exists(true),
        0 <= n <= es.len(),
    ensures
        keeps_destination(ss[n], p),
    decreases n,
{
    if n > 0 {
        let i = n - 1;
        lemma_run_keeps_destination(ss, es, acts, p, i);
        assert(ss[i].accepts(es[i]));
        assert(fetch_transition(ss[i], es[i], ss[i + 1], acts[i]));
    }
}

/// A destination that exists is never written: in every run of a session
/// started for output path `p`, in which the destination check answers that
/// `p` exists, no file is created and no content is written, the check is
/// made on `p`, and its answer ends the fetch with a file-exists error for
/// `p`.
pub proof fn lemma_existing_destination_untouched(
    ss: Seq<FetchSession>,
    es: Seq<FetchEvent>,
    acts: Seq<FetchAction>,
    p: String,
)
    requires
        is_fetch_run(ss, es, acts),
        ss[0].stage() is Connecting,
        ss[0].spec_out_path() == Some(p),
        forall|i: int|
            #![trigger es[i]]
            0 <= i < es.len() && es[i] is Exists ==> es[i] == FetchEvent::Exists(true),
    ensures
        forall|i: int|
            #![trigger acts[i]]
            0 <= i < acts.len() ==> !(acts[i] is Create) && !(acts[i] is WriteChunk),
        forall|i: int|
            #![trigger acts[i]]
            0 <= i < acts.len() ==> (acts[i] matches FetchAction::CheckDestination { path } ==> path@
                == p@),
        forall|i: int|
            #![trigger es[i]]
            0 <= i < es.len() && es[i] is Exists ==> (acts[i] matches FetchAction::Fail(
                FetchError::FileExists(q),
            ) && q@ == p@),
        forall|i: int| #![trigger ss[i]] 0 < i < ss.len() ==> !(ss[i].stage() is Finished),
{
    assert forall|i: int| 0 <= i < es.len() implies {
        &&& !(acts[i] is Create) && !(acts[i] is WriteChunk)
        &&& (acts[i] matches FetchAction::CheckDestination { path } ==> path@ == p@)
        &&& (es[i] is Exists ==> (acts[i] matches FetchAction::Fail(FetchError::FileExists(q))
            && q@ == p@))
        &&& !(ss[i + 1].stage() is Finished)
    } by {
        lemma_run_keeps_destination(ss, es, acts, p, i);
        lemma_run_keeps_destination(ss, es, acts, p, i + 1);
        assert(ss[i].accepts(es[i]));
        assert(fetch_transition(ss[i], es[i], ss[i + 1], acts[i]));
    }
    assert forall|i: int| #![trigger ss[i]] 0 < i < ss.len() implies !(ss[i].stage() is Finished) by {
        lemma_run_keeps_destination(ss, es, acts, p, i);
    }
}

/// Starts fetches.
pub struct FileClient {}

impl FileClient {
    pub fn new() -> (r: FileClient) {
        FileClient {  }
    }

    /// Starts fetching from the host whose address `transport` holds; the
    /// file goes to `out_path`, or else to the name it is sent under.
    pub fn get_file<T: PartialTransport>(&self, transport: T, out_path: Option<String>) -> (r: (
        FetchSession,
        FetchAction,
    ))
        ensures
            r.0.wf(),
            r.0.stage() is Connecting,
            r.0.spec_addr().bits == transport.spec_state(),
            r.0.spec_out_path() == out_path,
            r.1 == (FetchAction::Connect { addr: r.0.spec_addr(), port: PORT }),
    {
        let addr = Ipv4Address::from_bits(transport.state());
        (FetchSession { addr, out_path, stage: FetchStage::Connecting }, FetchAction::Connect { addr, port: PORT })
    }
}

} // verus!
