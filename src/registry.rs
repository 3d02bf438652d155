//! The registry of servable files that one network interface owns, and what
//! it sends on each connection.

use vstd::prelude::*;
use vstd::utf8::*;
use std::collections::HashMap;
use crate::errors::{SendError, ServeError};
use crate::framing::FileMessage;
use crate::network::Interface;
use crate::transport::{ServerTransport, Transport, Transportable};

verus! {

broadcast use vstd::std_specs::hash::group_hash_axioms;

/// The id of the file that every connection is sent: the serving side
/// does not yet let a client pick a file.
pub const SERVED_FILE: u32 = 0;

/// The last component of a path, where it names a file (not `/` or `..`).
pub uninterp spec fn path_file_name(path: Seq<char>) -> Option<Seq<char>>;

/// Relies on `std::path::Path::file_name`: the last component of the path,
/// or nothing where the path ends in `..` or is a root; on a `&str` path
/// the component is valid UTF-8, and it depends on the path alone.
#[verifier::external_body]
fn file_name_of(path: &str) -> (r: Option<String>)
    ensures
        match r {
            Some(n) => path_file_name(path@) == Some(n@),
            None => path_file_name(path@) is None,
        },
{
    std::path::Path::new(path).file_name().and_then(|n| n.to_str()).map(|n| n.to_owned())
}

/// A file as it was when it was registered: its path and its length.
#[derive(Clone)]
pub struct FileInfo {
    path: String,
    len: u64,
}

impl FileInfo {
    pub closed spec fn spec_path(&self) -> Seq<char> {
        self.path@
    }

    pub closed spec fn spec_len(&self) -> u64 {
        self.len
    }

    pub fn new(path: String, len: u64) -> (r: FileInfo)
        ensures
            r.spec_path() == path@,
            r.spec_len() == len,
    {
        FileInfo { path, len }
    }

    pub fn path(&self) -> (r: &str)
        ensures
            r@ == self.spec_path(),
    {
        self.path.as_str()
    }

    pub fn len(&self) -> (r: u64)
        ensures
            r == self.spec_len(),
    {
        self.len
    }

    /// The header that announces this file: its name is the last component
    /// of its path.
    pub fn message(&self) -> (r: Result<FileMessage, SendError>)
        ensures
            match path_file_name(self.spec_path()) {
                None => r matches Err(SendError::PathConversion),
                Some(name) => message_outcome(name, self.spec_len(), r),
            },
    {
        let name = file_name_of(self.path.as_str());
        file_message(name, self.len)
    }
}

/// `r` is what announcing a file named `name` of `len` bytes gives: the
/// name must fit the 32-bit name length field, and the length the 32-bit
/// content length field.
pub open spec fn message_outcome(
    name: Seq<char>,
    len: u64,
    r: Result<FileMessage, SendError>,
) -> bool {
    if encode_utf8(name).len() > u32::MAX {
        r matches Err(SendError::PathConversion)
    } else if len > u32::MAX {
        r matches Err(SendError::FileTooLarge(l)) && l == len
    } else {
        r matches Ok(m) && m.wf() && m.spec_name() == name && m.spec_size() == len
    }
}

/// The header for a file whose name came out as `name`, `len` bytes long.
pub fn file_message(name: Option<String>, len: u64) -> (r: Result<FileMessage, SendError>)
    ensures
        match name {
            None => r matches Err(SendError::PathConversion),
            Some(n) => message_outcome(n@, len, r),
        },
{
    let n = match name {
        Some(n) => n,
        None => {
            return Err(SendError::PathConversion);
        },
    };
    if n.as_str().as_bytes().len() > u32::MAX as usize {
        return Err(SendError::PathConversion);
    }
    if len > u32::MAX as u64 {
        return Err(SendError::FileTooLarge(len));
    }
    Ok(FileMessage::new(n, len as u32))
}

/// The files that one interface serves, by the id each was given, and the
/// interface itself. Ids are handed out in order from 0.
pub struct FileRepository {
    files: HashMap<u32, FileInfo>,
    pub interface: Interface,
    next_id: u64,
}

impl FileRepository {
    pub closed spec fn spec_files(&self) -> Map<u32, FileInfo> {
        self.files@
    }

    pub closed spec fn spec_interface(&self) -> Interface {
        self.interface
    }

    pub fn interface(&self) -> (r: &Interface)
        ensures
            *r == self.spec_interface(),
    {
        &self.interface
    }

    /// The id that the next registration gets.
    pub closed spec fn spec_next_id(&self) -> nat {
        self.next_id as nat
    }

    /// Every id below the next one is taken, and no other.
    pub closed spec fn wf(&self) -> bool {
        &&& self.next_id <= 0x1_0000_0000
        &&& forall|id: u32| #[trigger] self.files@.contains_key(id) <==> id < self.next_id
    }

    /// An empty registry for `interface`.
    pub fn new(interface: Interface) -> (r: FileRepository)
        ensures
            r.wf(),
            r.spec_files() == Map::<u32, FileInfo>::empty(),
            r.spec_next_id() == 0,
            r.spec_interface() == interface,
    {
        FileRepository { files: HashMap::new(), interface, next_id: 0 }
    }

    /// Registers `file` under the next id and gives the transport state of
    /// the interface's address, which is what a client decodes to reach
    /// this host. Fails once every 32-bit id is taken.
    pub fn add_file(&mut self, file: FileInfo) -> (r: Result<ServerTransport, ServeError>)
        requires
            old(self).wf(),
        ensures
            final(self).wf(),
            final(self).spec_interface() == old(self).spec_interface(),
            match r {
                Ok(t) => {
                    &&& old(self).spec_next_id() <= u32::MAX
                    &&& final(self).spec_files() == old(self).spec_files().insert(
                        old(self).spec_next_id() as u32,
                        file,
                    )
                    &&& final(self).spec_next_id() == old(self).spec_next_id() + 1
                    &&& t.spec_state() == old(self).spec_interface().addr.transport_state()
                    &&& t.spec_max_state() == u32::MAX
                },
                Err(e) => {
                    &&& e is RegistryFull
                    &&& old(self).spec_next_id() > u32::MAX
                    &&& final(self).spec_files() == old(self).spec_files()
                    &&& final(self).spec_next_id() == old(self).spec_next_id()
                },
            },
    {
        if self.next_id > u32::MAX as u64 {
            return Err(ServeError::RegistryFull);
        }
        let id = self.next_id as u32;
        self.files.insert(id, file);
        self.next_id = self.next_id + 1;
        assert forall|k: u32| #[trigger] self.files@.contains_key(k) <==> k < self.next_id by {
            if k == id {
            } else {
                assert(self.files@.contains_key(k) == old(self).files@.contains_key(k));
            }
        }
        Ok(self.interface.addr.make_transport())
    }

    /// The file registered under `index`.
    pub fn get_file(&self, index: u32) -> (r: Result<&FileInfo, SendError>)
        ensures
            match r {
                Ok(f) => self.spec_files().contains_key(index) && *f == self.spec_files()[index],
                Err(e) => e matches SendError::UnknownFile(i) && i == index
                    && !self.spec_files().contains_key(index),
            },
    {
        match self.files.get(&index) {
            Some(f) => Ok(f),
            None => Err(SendError::UnknownFile(index)),
        }
    }

    /// What to send on a new connection: the served file, to stream after
    /// the header, and the header itself.
    pub fn transfer(&self) -> (r: Result<(&FileInfo, FileMessage), SendError>)
        ensures
            !self.spec_files().contains_key(SERVED_FILE) ==> (r matches Err(
                SendError::UnknownFile(i),
            ) && i == SERVED_FILE),
            self.spec_files().contains_key(SERVED_FILE) ==> {
                let f = self.spec_files()[SERVED_FILE];
                match path_file_name(f.spec_path()) {
                    None => r matches Err(SendError::PathConversion),
                    Some(name) => {
                        match r {
                            Ok((g, h)) => *g == f && message_outcome(name, f.spec_len(), Ok(h)),
                            Err(e) => message_outcome(name, f.spec_len(), Err(e)),
                        }
                    },
                }
            },
    {
        let file = self.get_file(SERVED_FILE)?;
        let m = file.message()?;
        Ok((file, m))
    }
}

} // verus!
