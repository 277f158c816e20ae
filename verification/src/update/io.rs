//! Content sources for migration units. A unit never holds its payload:
//! it holds a capability that resolves the payload on demand, so that
//! discovery can enumerate many units without loading any of them.
//!
//! Two adapters exist. [`BytesIntoRead`] wraps a fixed buffer and always
//! succeeds; it backs the in-memory units used by tests and embedded
//! migrations. [`FileIntoRead`] records a path; because resolving it means
//! touching the filesystem, which stays outside the verified library, the
//! actual read lives with the caller that owns the file access, reached
//! through [`FileIntoRead::path`].

use vstd::prelude::*;
use crate::update::error::Error;

verus! {

/// A deferred content source: resolving it yields the payload bytes of
/// one migration unit, or an error.
pub trait IntoRead {
    /// Resolves the source to the full payload.
    fn into_read(&self) -> Result<Vec<u8>, Error>;
}

/// A file-backed content source: stores a path at construction and does
/// no I/O of its own.
#[derive(Debug, Clone)]
pub struct FileIntoRead {
    path: String,
}

impl View for FileIntoRead {
    type V = Seq<char>;

    closed spec fn view(&self) -> Seq<char> {
        self.path@
    }
}

impl FileIntoRead {
    /// Records `path`; the file is not opened here.
    pub fn new(path: &str) -> (r: FileIntoRead)
        ensures
            r@ == path@,
    {
        FileIntoRead { path: path.to_owned() }
    }

    /// The recorded path.
    pub fn path(&self) -> (r: &String)
        ensures
            r@ == self@,
    {
        &self.path
    }
}

/// An in-memory content source wrapping a fixed buffer; resolution always
/// succeeds and yields the buffer.
#[derive(Debug, Clone)]
pub struct BytesIntoRead {
    data: Vec<u8>,
}

impl View for BytesIntoRead {
    type V = Seq<u8>;

    closed spec fn view(&self) -> Seq<u8> {
        self.data@
    }
}

impl BytesIntoRead {
    /// Wraps `data` as a content source.
    pub fn new(data: Vec<u8>) -> (r: BytesIntoRead)
        ensures
            r@ == data@,
    {
        BytesIntoRead { data }
    }

    /// The wrapped buffer.
    pub fn bytes(&self) -> (r: &Vec<u8>)
        ensures
            r@ == self@,
    {
        &self.data
    }
}

impl IntoRead for BytesIntoRead {
    fn into_read(&self) -> (r: Result<Vec<u8>, Error>)
        ensures
            r matches Ok(v) && v@ == self@,
    {
        let mut out: Vec<u8> = Vec::new();
        let n = self.data.len();
        let mut i: usize = 0;
        while i < n
            invariant
                n == self.data@.len(),
                i <= n,
                out@ == self.data@.subrange(0, i as int),
            decreases n - i,
        {
            out.push(self.data[i]);
            proof {
                assert(out@ =~= self.data@.subrange(0, i + 1));
            }
            i += 1;
        }
        proof {
            assert(out@ =~= self.data@);
        }
        Ok(out)
    }
}

} // verus!
