//! What can go wrong.

use bincode::error::{DecodeError, EncodeError};
use std::io::Error as IoError;
use vstd::prelude::*;

verus! {

/// `std::io::Error`: a failure of the file system.
#[verifier::external_type_specification]
#[verifier::external_body]
pub struct ExIoError(IoError);

/// `bincode::error::EncodeError`: why a value could not be written as bytes.
#[verifier::external_type_specification]
#[verifier::external_body]
pub struct ExEncodeError(EncodeError);

/// `bincode::error::DecodeError`: why bytes could not be read as a value.
#[verifier::external_type_specification]
#[verifier::external_body]
pub struct ExDecodeError(DecodeError);

/// Failures of snapshots and of the log.
#[derive(Debug)]
pub enum PersistenceError {
    /// The file system failed.
    Io(IoError),
    /// A record could not be written as bytes.
    Serialization(EncodeError),
    /// Bytes could not be read as a record; an end in the middle of one does not count.
    Deserialization(DecodeError),
    /// The log could not be locked.
    LockFailed(String),
}

/// Failures of transactions.
#[derive(Debug)]
pub enum Error {
    /// The transaction was committed or cancelled before.
    TxClosed,
    /// Another transaction has committed a write to a key that this one wrote.
    KeyWriteConflict,
    /// Another transaction has committed a write to a key that this one read.
    KeyReadConflict,
    /// The transaction may only read.
    TxNotWritable,
    /// The key has a value already.
    KeyAlreadyExists,
    /// The log could not be written, and the commit was taken back.
    TxCommitNotPersisted(PersistenceError),
}

/// Some system puts an I/O error into these words.
pub uninterp spec fn io_error_says(e: IoError, text: Seq<char>) -> bool;

/// Some system puts an encoding error into these words.
pub uninterp spec fn encode_error_says(e: EncodeError, text: Seq<char>) -> bool;

/// Some system puts a decoding error into these words.
pub uninterp spec fn decode_error_says(e: DecodeError, text: Seq<char>) -> bool;

/// Calls `to_string` on an I/O error. The wording depends on the system, so all that is said of it
/// is that it is one of this error.
#[verifier::external_body]
fn io_error_text(e: &IoError) -> (r: String)
    ensures
        io_error_says(*e, r@),
{
    e.to_string()
}

/// Calls `to_string` on an encoding error, which may hold an I/O error. The wording depends on the
/// system, so all that is said of it is that it is one of this error.
#[verifier::external_body]
fn encode_error_text(e: &EncodeError) -> (r: String)
    ensures
        encode_error_says(*e, r@),
{
    e.to_string()
}

/// Calls `to_string` on a decoding error, which may hold an I/O error. The wording depends on the
/// system, so all that is said of it is that it is one of this error.
#[verifier::external_body]
fn decode_error_text(e: &DecodeError) -> (r: String)
    ensures
        decode_error_says(*e, r@),
{
    e.to_string()
}

/// A text followed by another one.
fn joined(a: &str, b: &str) -> (r: String)
    ensures
        r@ == a@ + b@,
{
    let mut r = a.to_owned();
    r.append(b);
    r
}

impl vstd::std_specs::convert::FromSpecImpl<IoError> for PersistenceError {
    open spec fn obeys_from_spec() -> bool {
        true
    }

    open spec fn from_spec(e: IoError) -> PersistenceError {
        PersistenceError::Io(e)
    }
}

impl From<IoError> for PersistenceError {
    fn from(e: IoError) -> (r: Self) {
        PersistenceError::Io(e)
    }
}

impl vstd::std_specs::convert::FromSpecImpl<EncodeError> for PersistenceError {
    open spec fn obeys_from_spec() -> bool {
        true
    }

    open spec fn from_spec(e: EncodeError) -> PersistenceError {
        PersistenceError::Serialization(e)
    }
}

impl From<EncodeError> for PersistenceError {
    fn from(e: EncodeError) -> (r: Self) {
        PersistenceError::Serialization(e)
    }
}

impl vstd::std_specs::convert::FromSpecImpl<DecodeError> for PersistenceError {
    open spec fn obeys_from_spec() -> bool {
        true
    }

    open spec fn from_spec(e: DecodeError) -> PersistenceError {
        PersistenceError::Deserialization(e)
    }
}

impl From<DecodeError> for PersistenceError {
    fn from(e: DecodeError) -> (r: Self) {
        PersistenceError::Deserialization(e)
    }
}

impl PersistenceError {
    /// What the cause says of itself; nothing where the log could not be locked.
    pub open spec fn says(&self, text: Seq<char>) -> bool {
        match self {
            PersistenceError::Io(e) => io_error_says(*e, text),
            PersistenceError::Serialization(e) => encode_error_says(*e, text),
            PersistenceError::Deserialization(e) => decode_error_says(*e, text),
            PersistenceError::LockFailed(_) => text.len() == 0,
        }
    }

    /// What the message of an error begins with.
    pub open spec fn heading(&self) -> Seq<char> {
        match self {
            PersistenceError::Io(_) => "IO error: "@,
            PersistenceError::Serialization(_) => "Serialization error: "@,
            PersistenceError::Deserialization(_) => "Deserialization error: "@,
            PersistenceError::LockFailed(_) => "Lock acquisition failed"@,
        }
    }

    /// The message of the error: the heading, and then what the cause says of itself.
    pub open spec fn worded(&self, message: Seq<char>) -> bool {
        exists|text: Seq<char>| #[trigger] self.says(text) && message == self.heading() + text
    }

    /// The error in words: the heading, and then what the cause says of itself.
    pub fn message(&self) -> (r: String)
        ensures
            self.worded(r@),
    {
        let (heading, text) = match self {
            PersistenceError::Io(e) => ("IO error: ", io_error_text(e)),
            PersistenceError::Serialization(e) => ("Serialization error: ", encode_error_text(e)),
            PersistenceError::Deserialization(e) => (
                "Deserialization error: ",
                decode_error_text(e),
            ),
            PersistenceError::LockFailed(_) => ("Lock acquisition failed", String::new()),
        };
        assert(self.says(text@));
        joined(heading, text.as_str())
    }
}

impl Error {
    /// The message of the error. Where the log failed, it ends with what is said of that.
    pub open spec fn worded(&self, message: Seq<char>) -> bool {
        match self {
            Error::TxClosed => message == "transaction is closed"@,
            Error::KeyWriteConflict => message == "Write conflict, retry the transaction"@,
            Error::KeyReadConflict => message == "Read conflict, retry the transaction"@,
            Error::TxNotWritable => message == "Transaction is not writable"@,
            Error::KeyAlreadyExists => message == "Key already exists, cannot be overwritten"@,
            Error::TxCommitNotPersisted(e) => exists|m: Seq<char>| #[trigger]
                e.worded(m) && message == "Transaction commit AOL persistence failed: "@ + m,
        }
    }

    /// The error in words.
    pub fn message(&self) -> (r: String)
        ensures
            self.worded(r@),
    {
        match self {
            Error::TxClosed => "transaction is closed".to_owned(),
            Error::KeyWriteConflict => "Write conflict, retry the transaction".to_owned(),
            Error::KeyReadConflict => "Read conflict, retry the transaction".to_owned(),
            Error::TxNotWritable => "Transaction is not writable".to_owned(),
            Error::KeyAlreadyExists => "Key already exists, cannot be overwritten".to_owned(),
            Error::TxCommitNotPersisted(e) => joined(
                "Transaction commit AOL persistence failed: ",
                e.message().as_str(),
            ),
        }
    }
}

} // verus!
