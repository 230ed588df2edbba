//! File metadata and the decisions around reading files below the root.

use vstd::prelude::*;
use crate::text::push_str;

verus! {

/// A point in time on the system clock.
#[verifier::external_type_specification]
#[verifier::external_body]
pub struct ExSystemTime(std::time::SystemTime);

/// The category of an I/O error.
#[verifier::external_type_specification]
#[verifier::external_body]
pub struct ExErrorKind(std::io::ErrorKind);

/// Why a modification time could not be read: the error's kind and message.
#[derive(Debug)]
pub struct ModifiedError {
    pub kind: std::io::ErrorKind,
    pub message: String,
}

/// What the file service needs to know of a file.
pub struct FileMetadata {
    is_dir: bool,
    len: u64,
    modified: Result<std::time::SystemTime, ModifiedError>,
}

impl FileMetadata {
    pub closed spec fn spec_is_dir(&self) -> bool {
        self.is_dir
    }

    pub closed spec fn spec_len(&self) -> u64 {
        self.len
    }

    pub closed spec fn spec_modified(&self) -> Result<std::time::SystemTime, (std::io::ErrorKind, Seq<char>)> {
        match &self.modified {
            Ok(t) => Ok(*t),
            Err(e) => Err((e.kind, e.message@)),
        }
    }

    /// Metadata from its parts.
    pub fn new(is_dir: bool, len: u64, modified: Result<std::time::SystemTime, ModifiedError>) -> (res: Self)
        ensures
            res.spec_is_dir() == is_dir,
            res.spec_len() == len,
            res.spec_modified() == match &modified {
                Ok(t) => Ok::<_, (std::io::ErrorKind, Seq<char>)>(*t),
                Err(e) => Err((e.kind, e.message@)),
            },
    {
        FileMetadata { is_dir, len, modified }
    }

    /// Whether the file is a directory.
    pub fn is_dir(&self) -> (res: bool)
        ensures
            res == self.spec_is_dir(),
    {
        self.is_dir
    }

    /// The file's length in bytes.
    pub fn len(&self) -> (res: u64)
        ensures
            res == self.spec_len(),
    {
        self.len
    }

    /// The modification time, or the error met reading it, repeated.
    pub fn modified(&self) -> (res: Result<std::time::SystemTime, ModifiedError>)
        ensures
            match &res {
                Ok(t) => self.spec_modified() == Ok::<_, (std::io::ErrorKind, Seq<char>)>(*t),
                Err(e) => self.spec_modified() == Err::<std::time::SystemTime, _>((e.kind, e.message@)),
            },
    {
        match &self.modified {
            Ok(t) => Ok(*t),
            Err(e) => {
                let mut message = String::new();
                push_str(&mut message, e.message.as_str());
                Err(ModifiedError { kind: e.kind, message })
            },
        }
    }
}

/// Whether a file of `len` bytes may be read under a bound of `max_bytes`.
pub fn within_bound(len: u64, max_bytes: u64) -> (res: bool)
    ensures
        res == (len <= max_bytes),
{
    len <= max_bytes
}

/// How many bytes to read at most for a bounded read: one more than the
/// bound, so that a file that grew past it is noticed.
pub fn read_limit(max_bytes: u64) -> (res: u64)
    ensures
        res == if max_bytes == u64::MAX { max_bytes as int } else { max_bytes + 1 },
{
    max_bytes.saturating_add(1)
}

/// The directory to list for a relative path: `.` for the empty path.
pub fn listing_dir(path: &str) -> (res: String)
    ensures
        res@ == if path@.len() == 0 { seq!['.'] } else { path@ },
{
    let mut res = String::new();
    if path.is_empty() {
        crate::text::push_char(&mut res, '.');
    } else {
        push_str(&mut res, path);
    }
    res
}

} // verus!
