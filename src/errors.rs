//! The error types of the library.

use vstd::prelude::*;
use crate::network::Ipv4Address;
use crate::text::{decimal, decimal_text, dotted, signed_decimal, signed_decimal_text};
use vstd::string::*;

verus! {

/// std's I/O error. The library only carries it from the I/O that the
/// program performed to the caller; it never looks inside.
#[verifier::external_type_specification]
#[verifier::external_body]
pub struct ExIoError(std::io::Error);

/// Failure to read or write the framing of a file message.
pub enum SerializationError {
    /// The stream failed.
    Io(std::io::Error),
    /// The stream closed inside the name: `(actual, expected)` bytes of it.
    IncompleteRead(usize, usize),
    /// The name field was not valid UTF-8; holds the bytes that were read.
    InvalidName(Vec<u8>),
}

/// Failure to send a registered file over a connection.
pub enum SendError {
    Io(std::io::Error),
    Serialization(SerializationError),
    /// The file's name cannot be taken from its path, or does not fit the
    /// name field.
    PathConversion,
    /// The file is longer than the 32-bit content length field allows.
    FileTooLarge(u64),
    /// No file is registered under this id.
    UnknownFile(u32),
}

/// Failure to enumerate the network interfaces.
pub enum NetworkError {
    Io(std::io::Error),
    /// The operating system's lookup failed with this code.
    INet(i32),
    /// An interface name was not valid UTF-8; holds its bytes.
    Str(Vec<u8>),
}

/// Failure on the serving side.
pub enum ServeError {
    Io(std::io::Error),
    /// Accepting or handling a connection failed.
    Connection(std::io::Error),
    Enumeration(NetworkError),
    /// Binding the listener to this address and port failed.
    Bind(std::io::Error, Ipv4Address, u16),
    /// Serving the connection from this peer address and port failed.
    SendingFile(SendError, Ipv4Address, u16),
    /// Every 32-bit id has been handed out.
    RegistryFull,
}

/// Failure on the fetching side.
pub enum FetchError {
    /// This word of the transport code is not in the dictionary, or the
    /// code denotes a value beyond 32 bits from this word on.
    InvalidTransport(String),
    /// The destination path already exists.
    FileExists(String),
    Io(std::io::Error),
    /// Connecting to this address and port failed.
    Connection(std::io::Error, Ipv4Address, u16),
    ReadMessage(SerializationError),
    /// Reading the content from the network failed.
    ReadContent(std::io::Error),
    /// Writing the content to disk failed.
    WriteContent(std::io::Error),
}

impl SerializationError {
    pub open spec fn spec_description(&self) -> Seq<char> {
        match self {
            SerializationError::Io(_) => "An I/O error occurred during serving"@,
            SerializationError::IncompleteRead(_, _) => "An error occurred which caused a read to end before getting the expected data"@,
            SerializationError::InvalidName(_) => "The name in the message is not valid UTF-8"@,
        }
    }

    /// A sentence that says what went wrong.
    pub fn description(&self) -> (r: &'static str)
        ensures
            r@ == self.spec_description(),
    {
        match self {
            SerializationError::Io(_) => "An I/O error occurred during serving",
            SerializationError::IncompleteRead(_, _) => "An error occurred which caused a read to end before getting the expected data",
            SerializationError::InvalidName(_) => "The name in the message is not valid UTF-8",
        }
    }
}

impl SendError {
    pub open spec fn spec_description(&self) -> Seq<char> {
        match self {
            SendError::Io(_) => "An I/O error occurred during serving"@,
            SendError::Serialization(_) => "An error occurred while serializing and sending the message"@,
            SendError::PathConversion => "An error occurred while converting the path to a string"@,
            SendError::FileTooLarge(_) => "The file is too large to send"@,
            SendError::UnknownFile(_) => "The client requested an unknown file"@,
        }
    }

    /// A sentence that says what went wrong.
    pub fn description(&self) -> (r: &'static str)
        ensures
            r@ == self.spec_description(),
    {
        match self {
            SendError::Io(_) => "An I/O error occurred during serving",
            SendError::Serialization(_) => "An error occurred while serializing and sending the message",
            SendError::PathConversion => "An error occurred while converting the path to a string",
            SendError::FileTooLarge(_) => "The file is too large to send",
            SendError::UnknownFile(_) => "The client requested an unknown file",
        }
    }
}

impl NetworkError {
    pub open spec fn spec_description(&self) -> Seq<char> {
        match self {
            NetworkError::Io(_) => "An I/O error occurred while enumerating interfaces"@,
            NetworkError::INet(_) => "A Network error occurred"@,
            NetworkError::Str(_) => "An interface name is not valid UTF-8"@,
        }
    }

    /// A sentence that says what went wrong.
    pub fn description(&self) -> (r: &'static str)
        ensures
            r@ == self.spec_description(),
    {
        match self {
            NetworkError::Io(_) => "An I/O error occurred while enumerating interfaces",
            NetworkError::INet(_) => "A Network error occurred",
            NetworkError::Str(_) => "An interface name is not valid UTF-8",
        }
    }
}

impl ServeError {
    pub open spec fn spec_description(&self) -> Seq<char> {
        match self {
            ServeError::Io(_) => "An I/O error occurred during serving"@,
            ServeError::Connection(_) => "A low level error occurred while processing connection"@,
            ServeError::Enumeration(_) => "While enumerating interfaces"@,
            ServeError::Bind(_, _, _) => "Error while binding connection"@,
            ServeError::SendingFile(_, _, _) => "Error while sending a file"@,
            ServeError::RegistryFull => "Every file id has been handed out"@,
        }
    }

    /// A sentence that says what went wrong.
    pub fn description(&self) -> (r: &'static str)
        ensures
            r@ == self.spec_description(),
    {
        match self {
            ServeError::Io(_) => "An I/O error occurred during serving",
            ServeError::Connection(_) => "A low level error occurred while processing connection",
            ServeError::Enumeration(_) => "While enumerating interfaces",
            ServeError::Bind(_, _, _) => "Error while binding connection",
            ServeError::SendingFile(_, _, _) => "Error while sending a file",
            ServeError::RegistryFull => "Every file id has been handed out",
        }
    }
}

impl FetchError {
    pub open spec fn spec_description(&self) -> Seq<char> {
        match self {
            FetchError::InvalidTransport(_) => "The given transport was invalid"@,
            FetchError::FileExists(_) => "The specified file already exists"@,
            FetchError::Io(_) => "An I/O error occurred during serving"@,
            FetchError::Connection(_, _, _) => "A connection error occurred"@,
            FetchError::ReadMessage(_) => "An error occurred while reading the file messages from the network"@,
            FetchError::ReadContent(_) => "An error occurred while reading the file contents from the network"@,
            FetchError::WriteContent(_) => "An error occurred while writing the file contents to the disk"@,
        }
    }

    /// A sentence that says what went wrong.
    pub fn description(&self) -> (r: &'static str)
        ensures
            r@ == self.spec_description(),
    {
        match self {
            FetchError::InvalidTransport(_) => "The given transport was invalid",
            FetchError::FileExists(_) => "The specified file already exists",
            FetchError::Io(_) => "An I/O error occurred during serving",
            FetchError::Connection(_, _, _) => "A connection error occurred",
            FetchError::ReadMessage(_) => "An error occurred while reading the file messages from the network",
            FetchError::ReadContent(_) => "An error occurred while reading the file contents from the network",
            FetchError::WriteContent(_) => "An error occurred while writing the file contents to the disk",
        }
    }
}

impl SerializationError {
    pub open spec fn spec_message(&self) -> Seq<char> {
        match self {
            SerializationError::Io(_) => "An I/O error occurred"@,
            SerializationError::IncompleteRead(actual, expected) => "A read didn't get the expected amount of data [Expected "@
                + decimal(*expected as nat) + ", Actual "@ + decimal(*actual as nat) + "]"@,
            SerializationError::InvalidName(_) => "The name in the message is not valid UTF-8"@,
        }
    }

    /// What went wrong, with its particulars; the I/O error's own text is
    /// not part of it.
    pub fn message(&self) -> (r: String)
        ensures
            r@ == self.spec_message(),
    {
        match self {
            SerializationError::Io(_) => "An I/O error occurred".to_owned(),
            SerializationError::IncompleteRead(actual, expected) => {
                let mut s = "A read didn't get the expected amount of data [Expected ".to_owned();
                s.append(decimal_text(*expected as u64).as_str());
                s.append(", Actual ");
                s.append(decimal_text(*actual as u64).as_str());
                s.append("]");
                s
            },
            SerializationError::InvalidName(_) => "The name in the message is not valid UTF-8".to_owned(),
        }
    }
}

impl SendError {
    pub open spec fn spec_message(&self) -> Seq<char> {
        match self {
            SendError::Io(_) => "An I/O error occurred"@,
            SendError::Serialization(_) => "While sending the message"@,
            SendError::PathConversion => "Failed converting the path to a string"@,
            SendError::FileTooLarge(len) => "The file is too large to send: "@ + decimal(*len as nat)
                + " bytes"@,
            SendError::UnknownFile(id) => "The client requested an unknown file with id "@ + decimal(
                *id as nat,
            ),
        }
    }

    /// What went wrong, with its particulars.
    pub fn message(&self) -> (r: String)
        ensures
            r@ == self.spec_message(),
    {
        match self {
            SendError::Io(_) => "An I/O error occurred".to_owned(),
            SendError::Serialization(_) => "While sending the message".to_owned(),
            SendError::PathConversion => "Failed converting the path to a string".to_owned(),
            SendError::FileTooLarge(len) => {
                let mut s = "The file is too large to send: ".to_owned();
                s.append(decimal_text(*len).as_str());
                s.append(" bytes");
                s
            },
            SendError::UnknownFile(id) => {
                let mut s = "The client requested an unknown file with id ".to_owned();
                s.append(decimal_text(*id as u64).as_str());
                s
            },
        }
    }
}

impl NetworkError {
    pub open spec fn spec_message(&self) -> Seq<char> {
        match self {
            NetworkError::Io(_) => "IO Error"@,
            NetworkError::INet(code) => "INet Error "@ + signed_decimal(*code as int),
            NetworkError::Str(_) => "Failed to convert an interface name to a string"@,
        }
    }

    /// What went wrong, with its particulars.
    pub fn message(&self) -> (r: String)
        ensures
            r@ == self.spec_message(),
    {
        match self {
            NetworkError::Io(_) => "IO Error".to_owned(),
            NetworkError::INet(code) => {
                let mut s = "INet Error ".to_owned();
                s.append(signed_decimal_text(*code as i64).as_str());
                s
            },
            NetworkError::Str(_) => "Failed to convert an interface name to a string".to_owned(),
        }
    }
}

impl ServeError {
    pub open spec fn spec_message(&self) -> Seq<char> {
        match self {
            ServeError::Io(_) => "An I/O error occurred"@,
            ServeError::Connection(_) => "While processing connection"@,
            ServeError::Enumeration(_) => "While enumerating interfaces"@,
            ServeError::Bind(_, addr, port) => "While binding to "@ + dotted(*addr) + ":"@ + decimal(
                *port as nat,
            ),
            ServeError::SendingFile(_, addr, port) => "While sending to "@ + dotted(*addr) + ":"@
                + decimal(*port as nat),
            ServeError::RegistryFull => "Every file id has been handed out"@,
        }
    }

    /// What went wrong, with its particulars.
    pub fn message(&self) -> (r: String)
        ensures
            r@ == self.spec_message(),
    {
        match self {
            ServeError::Io(_) => "An I/O error occurred".to_owned(),
            ServeError::Connection(_) => "While processing connection".to_owned(),
            ServeError::Enumeration(_) => "While enumerating interfaces".to_owned(),
            ServeError::Bind(_, addr, port) => {
                let mut s = "While binding to ".to_owned();
                s.append(addr.dotted().as_str());
                s.append(":");
                s.append(decimal_text(*port as u64).as_str());
                s
            },
            ServeError::SendingFile(_, addr, port) => {
                let mut s = "While sending to ".to_owned();
                s.append(addr.dotted().as_str());
                s.append(":");
                s.append(decimal_text(*port as u64).as_str());
                s
            },
            ServeError::RegistryFull => "Every file id has been handed out".to_owned(),
        }
    }
}

impl FetchError {
    pub open spec fn spec_message(&self) -> Seq<char> {
        match self {
            FetchError::InvalidTransport(word) => "The transport \""@ + word@ + "\" isn't valid"@,
            FetchError::FileExists(path) => "File already exists: "@ + path@,
            FetchError::Io(_) => "An I/O error occurred"@,
            FetchError::Connection(_, addr, port) => "While connecting to "@ + dotted(*addr) + ":"@
                + decimal(*port as nat),
            FetchError::ReadMessage(_) => "While reading file message from network"@,
            FetchError::ReadContent(_) => "While reading content of file from network"@,
            FetchError::WriteContent(_) => "While writing content of file to disk"@,
        }
    }

    /// What went wrong, with its particulars.
    pub fn message(&self) -> (r: String)
        ensures
            r@ == self.spec_message(),
    {
        match self {
            FetchError::InvalidTransport(word) => {
                let mut s = "The transport \"".to_owned();
                s.append(word.as_str());
                s.append("\" isn't valid");
                s
            },
            FetchError::FileExists(path) => {
                let mut s = "File already exists: ".to_owned();
                s.append(path.as_str());
                s
            },
            FetchError::Io(_) => "An I/O error occurred".to_owned(),
            FetchError::Connection(_, addr, port) => {
                let mut s = "While connecting to ".to_owned();
                s.append(addr.dotted().as_str());
                s.append(":");
                s.append(decimal_text(*port as u64).as_str());
                s
            },
            FetchError::ReadMessage(_) => "While reading file message from network".to_owned(),
            FetchError::ReadContent(_) => "While reading content of file from network".to_owned(),
            FetchError::WriteContent(_) => "While writing content of file to disk".to_owned(),
        }
    }
}

} // verus!
