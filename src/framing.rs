//! The wire framing of one file message: a big-endian `u32` name length,
//! the name in UTF-8, a big-endian `u32` content length, then the content.
//! The content is never part of what is parsed here: after the header the
//! stream itself carries it.

use vstd::prelude::*;
use vstd::slice::{slice_subrange, slice_to_vec};
use vstd::string::*;
use vstd::utf8::*;
use byteorder::{BigEndian, ByteOrder};
use crate::errors::SerializationError;

verus! {

broadcast use {vstd::utf8::encode_utf8_decode_utf8, vstd::utf8::encode_utf8_valid_utf8};

/// The four bytes of `n`, most significant first.
pub open spec fn be_u32_bytes(n: u32) -> Seq<u8> {
    seq![
        (n / 0x100_0000) as u8,
        ((n / 0x1_0000) % 0x100) as u8,
        ((n / 0x100) % 0x100) as u8,
        (n % 0x100) as u8,
    ]
}

/// The number that the first four bytes of `b` hold, most significant first.
pub open spec fn be_u32_value(b: Seq<u8>) -> u32 {
    (b[0] as int * 0x100_0000 + b[1] as int * 0x1_0000 + b[2] as int * 0x100 + b[3] as int) as u32
}

/// The header of a message whose name has the UTF-8 bytes `name` and whose
/// content is `size` bytes long.
pub open spec fn header_bytes(name: Seq<u8>, size: u32) -> Seq<u8> {
    be_u32_bytes(name.len() as u32) + name + be_u32_bytes(size)
}

/// What reading a header from a stream yields.
pub enum HeaderOutcome {
    /// A header with this name and content length, `length` bytes long.
    Message { name: Seq<char>, size: u32, length: nat },
    /// The stream closed after `actual` of the `expected` bytes of the name.
    Incomplete { actual: nat, expected: nat },
    /// The stream closed inside a length field.
    EndOfStream,
    /// The name field holds these bytes, which are not UTF-8.
    InvalidName { bytes: Seq<u8> },
}

/// Reading a header from a stream that yields the bytes `s` and then closes.
pub open spec fn parse_header(s: Seq<u8>) -> HeaderOutcome {
    if s.len() < 4 {
        HeaderOutcome::EndOfStream
    } else {
        let n = be_u32_value(s);
        if s.len() - 4 < n {
            HeaderOutcome::Incomplete { actual: (s.len() - 4) as nat, expected: n as nat }
        } else {
            let name = s.subrange(4, 4 + n);
            if !valid_utf8(name) {
                HeaderOutcome::InvalidName { bytes: name }
            } else if s.len() - 4 - n < 4 {
                HeaderOutcome::EndOfStream
            } else {
                HeaderOutcome::Message {
                    name: decode_utf8(name),
                    size: be_u32_value(s.subrange(4 + n, 8 + n)),
                    length: (8 + n) as nat,
                }
            }
        }
    }
}

/// Relies on byteorder's `BigEndian::read_u32`: the number in the first four
/// bytes of `buf`, most significant first. It panics on fewer than four.
#[verifier::external_body]
fn read_be_u32(buf: &[u8]) -> (r: u32)
    requires
        buf@.len() >= 4,
    ensures
        r == be_u32_value(buf@),
{
    BigEndian::read_u32(buf)
}

/// Relies on byteorder's `BigEndian::write_u32`: the four bytes of `n`, most
/// significant first.
#[verifier::external_body]
fn be_u32(n: u32) -> (r: [u8; 4])
    ensures
        r@ == be_u32_bytes(n),
{
    let mut buf = [0u8; 4];
    BigEndian::write_u32(&mut buf, n);
    buf
}

/// Relies on `String::from_utf8`: it accepts exactly the UTF-8 byte strings,
/// and the string then holds the characters that they encode.
#[verifier::external_body]
fn utf8_string(bytes: &[u8]) -> (r: Option<String>)
    ensures
        match r {
            Some(s) => valid_utf8(bytes@) && s@ == decode_utf8(bytes@),
            None => !valid_utf8(bytes@),
        },
{
    String::from_utf8(bytes.to_vec()).ok()
}

/// Relies on `std::io::Error::from` with `ErrorKind::UnexpectedEof`: the
/// error that a read of a fixed-size field gives when the stream ends first.
#[verifier::external_body]
fn unexpected_end() -> std::io::Error {
    std::io::Error::from(std::io::ErrorKind::UnexpectedEof)
}

proof fn lemma_be_u32(n: u32)
    ensures
        be_u32_bytes(n).len() == 4,
        be_u32_value(be_u32_bytes(n)) == n,
{
}

/// The header of one file message: the file's name and its content length.
pub struct FileMessage {
    name_size: u32,
    name: String,
    size: u32,
}

impl FileMessage {
    pub closed spec fn spec_name(&self) -> Seq<char> {
        self.name@
    }

    pub closed spec fn spec_size(&self) -> u32 {
        self.size
    }

    /// The name length field is the length of the name in UTF-8.
    pub closed spec fn wf(&self) -> bool {
        self.name_size == encode_utf8(self.name@).len()
    }

    /// The header for a file named `name` with `size` bytes of content.
    pub fn new(name: String, size: u32) -> (r: FileMessage)
        requires
            encode_utf8(name@).len() <= u32::MAX,
        ensures
            r.wf(),
            r.spec_name() == name@,
            r.spec_size() == size,
    {
        let name_size = name.as_str().len() as u32;
        FileMessage { name_size, name, size }
    }

    pub fn name(&self) -> (r: &str)
        ensures
            r@ == self.spec_name(),
    {
        self.name.as_str()
    }

    pub fn size(&self) -> (r: u32)
        ensures
            r == self.spec_size(),
    {
        self.size
    }

    /// The bytes that precede the content on the wire.
    pub fn write(&self) -> (r: Vec<u8>)
        requires
            self.wf(),
        ensures
            r@ == header_bytes(encode_utf8(self.spec_name()), self.spec_size()),
    {
        let mut out: Vec<u8> = Vec::new();
        let len = be_u32(self.name_size);
        let name = self.name.as_str().as_bytes();
        let size = be_u32(self.size);
        let mut i: usize = 0;
        while i < 4
            invariant
                i <= 4,
                len@.len() == 4,
                out@ == len@.subrange(0, i as int),
            decreases 4 - i,
        {
            out.push(len[i]);
            i += 1;
        }
        let mut i: usize = 0;
        while i < name.len()
            invariant
                i <= name@.len(),
                out@ == len@ + name@.subrange(0, i as int),
            decreases name.len() - i,
        {
            out.push(name[i]);
            i += 1;
        }
        let mut i: usize = 0;
        while i < 4
            invariant
                i <= 4,
                size@.len() == 4,
                out@ == len@ + name@ + size@.subrange(0, i as int),
            decreases 4 - i,
        {
            out.push(size[i]);
            i += 1;
        }
        assert(len@.subrange(0, 4) =~= len@);
        assert(name@.subrange(0, name@.len() as int) =~= name@);
        assert(size@.subrange(0, 4) =~= size@);
        out
    }
}

/// A header that has been read in full, or found bad, stays so whatever
/// the stream yields after it.
proof fn lemma_parse_header_prefix(c: Seq<u8>, t: Seq<u8>)
    requires
        parse_header(c) is Message || parse_header(c) is InvalidName,
    ensures
        parse_header(c + t) == parse_header(c),
{
    let s = c + t;
    let n = be_u32_value(c);
    assert(be_u32_value(s) == n);
    assert(s.subrange(4, 4 + n) =~= c.subrange(4, 4 + n));
    if parse_header(c) is Message {
        assert(s.subrange(4 + n, 8 + n) =~= c.subrange(4 + n, 8 + n));
    }
}

/// Reading back the header of a message, with any content after it, gives
/// the message's name and content length, and the content follows the
/// header exactly.
pub proof fn lemma_framing_round_trip(name: Seq<char>, size: u32, content: Seq<u8>)
    requires
        encode_utf8(name).len() <= u32::MAX,
    ensures
        parse_header(header_bytes(encode_utf8(name), size) + content) == (HeaderOutcome::Message {
            name,
            size,
            length: 8 + encode_utf8(name).len(),
        }),
        (header_bytes(encode_utf8(name), size) + content).subrange(
            8 + encode_utf8(name).len() as int,
            8 + encode_utf8(name).len() as int + content.len() as int,
        ) == content,
{
    let b = encode_utf8(name);
    let s = header_bytes(b, size) + content;
    let n = b.len() as u32;
    lemma_be_u32(n);
    lemma_be_u32(size);
    assert(be_u32_value(s) == n);
    assert(s.subrange(4, 4 + n) =~= b);
    assert(s.subrange(4 + n, 8 + n) =~= be_u32_bytes(size));
    assert(s.subrange(8 + n, 8 + n + content.len()) =~= content);
}

/// How many bytes a reader that has consumed `c` asks for next.
pub open spec fn header_wanted(c: Seq<u8>) -> nat {
    if c.len() == 0 {
        4
    } else if c.len() == 4 && be_u32_value(c) > 0 {
        be_u32_value(c) as nat
    } else {
        4
    }
}

enum ReadStage {
    NameLength,
    Name { expected: u32 },
    ContentLength { name: String },
}

/// Reads a message header from a stream one field at a time, so that no
/// byte of the content is taken from the stream: the caller reads up to
/// `wanted()` bytes, stopping early only where the stream closes, and
/// hands them to `feed`.
pub struct MessageReader {
    stage: ReadStage,
    consumed: Ghost<Seq<u8>>,
}

/// What a reader does with the bytes it was fed.
pub enum ReadProgress {
    /// The header goes on; the reader wants its next field.
    More(MessageReader),
    /// The header is complete; the content follows on the stream.
    Done(FileMessage),
}

impl View for MessageReader {
    type V = Seq<u8>;

    /// The bytes fed so far.
    closed spec fn view(&self) -> Seq<u8> {
        self.consumed@
    }
}

impl MessageReader {
    pub closed spec fn wf(&self) -> bool {
        let c = self.consumed@;
        match self.stage {
            ReadStage::NameLength => c.len() == 0,
            ReadStage::Name { expected } => {
                &&& c.len() == 4
                &&& expected == be_u32_value(c)
                &&& expected > 0
            },
            ReadStage::ContentLength { name } => {
                &&& c.len() >= 4
                &&& c.len() == 4 + be_u32_value(c)
                &&& valid_utf8(c.subrange(4, c.len() as int))
                &&& name@ == decode_utf8(c.subrange(4, c.len() as int))
            },
        }
    }

    /// A reader at the start of a stream.
    pub fn new() -> (r: MessageReader)
        ensures
            r.wf(),
            r@ == Seq::<u8>::empty(),
    {
        MessageReader { stage: ReadStage::NameLength, consumed: Ghost(Seq::empty()) }
    }

    /// The number of bytes of the next field.
    pub fn wanted(&self) -> (r: usize)
        requires
            self.wf(),
        ensures
            r == header_wanted(self@),
            r > 0,
    {
        match &self.stage {
            ReadStage::NameLength => 4,
            ReadStage::Name { expected } => *expected as usize,
            ReadStage::ContentLength { name: _ } => 4,
        }
    }

    /// Takes the next field. Fewer bytes than `wanted()` mean that the
    /// stream closed: inside the name that is an incomplete read of
    /// `(given, wanted)`, inside a length field an end-of-stream I/O error.
    pub fn feed(self, bytes: &[u8]) -> (r: Result<ReadProgress, SerializationError>)
        requires
            self.wf(),
            bytes@.len() <= header_wanted(self@),
        ensures
            bytes@.len() < header_wanted(self@) ==> match parse_header(self@ + bytes@) {
                HeaderOutcome::Incomplete { actual, expected } => r matches Err(
                    SerializationError::IncompleteRead(a, e),
                ) && a == actual && e == expected && a == bytes@.len() && e == header_wanted(
                    self@,
                ),
                HeaderOutcome::EndOfStream => r matches Err(SerializationError::Io(_)),
                _ => false,
            },
            bytes@.len() == header_wanted(self@) ==> match parse_header(self@ + bytes@) {
                HeaderOutcome::Message { name, size, length: _ } => r matches Ok(
                    ReadProgress::Done(m),
                ) && m.wf() && m.spec_name() == name && m.spec_size() == size,
                HeaderOutcome::InvalidName { bytes: b } => r matches Err(
                    SerializationError::InvalidName(v),
                ) && v@ == b,
                HeaderOutcome::Incomplete { .. } => r matches Ok(ReadProgress::More(next))
                    && next.wf() && next@ == self@ + bytes@,
                HeaderOutcome::EndOfStream => r matches Ok(ReadProgress::More(next)) && next.wf()
                    && next@ == self@ + bytes@,
            },
    {
        let ghost c = self@;
        let ghost c2 = self@ + bytes@;
        match self.stage {
            ReadStage::NameLength => {
                assert(c2 =~= bytes@);
                if bytes.len() < 4 {
                    return Err(SerializationError::Io(unexpected_end()));
                }
                let n = read_be_u32(bytes);
                if n == 0 {
                    assert(c2.subrange(4, 4) =~= Seq::<u8>::empty());
                    assert(decode_utf8(Seq::<u8>::empty()) =~= Seq::<char>::empty());
                    Ok(
                        ReadProgress::More(
                            MessageReader {
                                stage: ReadStage::ContentLength { name: String::new() },
                                consumed: Ghost(c2),
                            },
                        ),
                    )
                } else {
                    Ok(
                        ReadProgress::More(
                            MessageReader {
                                stage: ReadStage::Name { expected: n },
                                consumed: Ghost(c2),
                            },
                        ),
                    )
                }
            },
            ReadStage::Name { expected } => {
                assert(be_u32_value(c2) == expected);
                if bytes.len() < expected as usize {
                    return Err(SerializationError::IncompleteRead(bytes.len(), expected as usize));
                }
                assert(c2.subrange(4, 4 + expected) =~= bytes@);
                match utf8_string(bytes) {
                    Some(name) => {
                        assert(c2.subrange(4, c2.len() as int) =~= bytes@);
                        Ok(
                            ReadProgress::More(
                                MessageReader {
                                    stage: ReadStage::ContentLength { name },
                                    consumed: Ghost(c2),
                                },
                            ),
                        )
                    },
                    None => Err(SerializationError::InvalidName(slice_to_vec(bytes))),
                }
            },
            ReadStage::ContentLength { name } => {
                let ghost n = be_u32_value(c);
                assert(be_u32_value(c2) == n);
                assert(c2.subrange(4, 4 + n) =~= c.subrange(4, c.len() as int));
                if bytes.len() < 4 {
                    return Err(SerializationError::Io(unexpected_end()));
                }
                let size = read_be_u32(bytes);
                assert(c2.subrange(4 + n, 8 + n) =~= bytes@);
                proof {
                    decode_utf8_encode_utf8(c.subrange(4, c.len() as int));
                }
                Ok(ReadProgress::Done(FileMessage::new(name, size)))
            },
        }
    }
}

impl FileMessage {
    /// Reads a header from the front of `stream`, the bytes that a stream
    /// yields before it closes. Gives the header and where the content
    /// starts.
    pub fn read(stream: &[u8]) -> (r: Result<(FileMessage, usize), SerializationError>)
        ensures
            match parse_header(stream@) {
                HeaderOutcome::Message { name, size, length } => r matches Ok((m, k)) && m.wf()
                    && m.spec_name() == name && m.spec_size() == size && k == length,
                HeaderOutcome::Incomplete { actual, expected } => r matches Err(
                    SerializationError::IncompleteRead(a, e),
                ) && a == actual && e == expected,
                HeaderOutcome::InvalidName { bytes } => r matches Err(
                    SerializationError::InvalidName(v),
                ) && v@ == bytes,
                HeaderOutcome::EndOfStream => r matches Err(SerializationError::Io(_)),
            },
    {
        let mut reader = MessageReader::new();
        let mut pos: usize = 0;
        assert(stream@.subrange(0, 0) =~= Seq::<u8>::empty());
        loop
            invariant
                reader.wf(),
                pos <= stream@.len(),
                reader@ == stream@.subrange(0, pos as int),
            decreases stream@.len() - pos,
        {
            let want = reader.wanted();
            let take = if stream.len() - pos < want {
                stream.len() - pos
            } else {
                want
            };
            let chunk = slice_subrange(stream, pos, pos + take);
            let ghost c2 = reader@ + chunk@;
            assert(c2 =~= stream@.subrange(0, pos + take));
            let ghost rest = stream@.subrange(pos + take, stream@.len() as int);
            assert(c2 + rest =~= stream@);
            match reader.feed(chunk) {
                Ok(ReadProgress::More(next)) => {
                    reader = next;
                    pos = pos + take;
                },
                Ok(ReadProgress::Done(m)) => {
                    proof {
                        lemma_parse_header_prefix(c2, rest);
                    }
                    return Ok((m, pos + take));
                },
                Err(e) => {
                    proof {
                        if take < want {
                            assert(c2 =~= stream@);
                        } else {
                            lemma_parse_header_prefix(c2, rest);
                        }
                    }
                    return Err(e);
                },
            }
        }
    }
}

} // verus!
