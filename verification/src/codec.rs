//! The records of snapshots and of the log as bytes: `bincode` in its standard configuration.

use bincode::error::{DecodeError, EncodeError};
use bytes::Bytes;
use vstd::prelude::*;

use crate::chain::ChainModel;
use crate::kv::{bytes_view, value_view};
use crate::versions::pairs_view;

verus! {

/// What a read of a snapshot comes to.
pub enum SnapshotStep {
    /// A key with its chain, in the first `used` bytes.
    Entry { key: Seq<u8>, chain: ChainModel, used: nat },
    /// The bytes end before an entry does.
    End,
    /// The bytes are no entry.
    Broken,
}

/// What a read of the log comes to.
pub enum LogStep {
    /// A write, in the first `used` bytes.
    Record { key: Seq<u8>, version: u64, value: Option<Seq<u8>>, used: nat },
    /// The bytes end before a record does.
    End,
    /// The bytes are no record.
    Broken,
}

/// What was read of a snapshot.
pub enum SnapshotRead {
    /// A key with its versions, and how many bytes they took.
    Entry { key: Bytes, versions: Vec<(u64, Option<Bytes>)>, used: usize },
    /// The bytes end before an entry does.
    End,
    /// The bytes are no entry.
    Broken(DecodeError),
}

impl View for SnapshotRead {
    type V = SnapshotStep;

    open spec fn view(&self) -> SnapshotStep {
        match self {
            SnapshotRead::Entry { key, versions, used } => SnapshotStep::Entry {
                key: bytes_view(*key),
                chain: pairs_view(versions@),
                used: *used as nat,
            },
            SnapshotRead::End => SnapshotStep::End,
            SnapshotRead::Broken(_) => SnapshotStep::Broken,
        }
    }
}

/// What was read of the log.
pub enum LogRead {
    /// A write, and how many bytes it took.
    Record { key: Bytes, version: u64, value: Option<Bytes>, used: usize },
    /// The bytes end before a record does.
    End,
    /// The bytes are no record.
    Broken(DecodeError),
}

impl View for LogRead {
    type V = LogStep;

    open spec fn view(&self) -> LogStep {
        match self {
            LogRead::Record { key, version, value, used } => LogStep::Record {
                key: bytes_view(*key),
                version: *version,
                value: value_view(*value),
                used: *used as nat,
            },
            LogRead::End => LogStep::End,
            LogRead::Broken(_) => LogStep::Broken,
        }
    }
}

/// There are bytes, and the input begins with them.
pub open spec fn starts_with(input: Seq<u8>, bytes: Option<Seq<u8>>) -> bool {
    bytes is Some && bytes->0.is_prefix_of(input)
}

/// The bytes are the beginning of a write, and not all of it.
pub open spec fn torn_record(bytes: Seq<u8>) -> bool {
    exists|key: Seq<u8>, version: u64, value: Option<Seq<u8>>|
        torn_from(bytes, #[trigger] log_bytes(key, version, value))
}

/// The bytes are the beginning of `whole`, and not all of it.
pub open spec fn torn_from(bytes: Seq<u8>, whole: Option<Seq<u8>>) -> bool {
    whole is Some && bytes.len() < whole->0.len() && bytes.is_prefix_of(whole->0)
}

/// A key with its chain as bytes, where it can be written as bytes.
pub uninterp spec fn snapshot_bytes(
    key: Seq<u8>,
    chain: Seq<(u64, Option<Seq<u8>>)>,
) -> Option<Seq<u8>>;

/// What stands at the beginning of the bytes of a snapshot.
pub uninterp spec fn snapshot_step(input: Seq<u8>) -> SnapshotStep;

/// A write as bytes, where it can be written as bytes.
pub uninterp spec fn log_bytes(key: Seq<u8>, version: u64, value: Option<Seq<u8>>) -> Option<
    Seq<u8>,
>;

/// What stands at the beginning of the bytes of a log.
pub uninterp spec fn log_step(input: Seq<u8>) -> LogStep;

/// Calls `bincode::serde::encode_into_std_write` on a key and its versions.
#[verifier::external_body]
pub(crate) fn encode_snapshot_entry(key: &Bytes, versions: &Vec<(u64, Option<Bytes>)>) -> (r: Result<
    Vec<u8>,
    EncodeError,
>)
    ensures
        match r {
            Ok(b) => snapshot_bytes(bytes_view(*key), pairs_view(versions@)) == Some(b@),
            Err(_) => snapshot_bytes(bytes_view(*key), pairs_view(versions@)) is None,
        },
{
    let mut out = Vec::new();
    bincode::serde::encode_into_std_write((key, versions), &mut out, bincode::config::standard())?;
    Ok(out)
}

/// Calls `bincode::serde::borrow_decode_from_slice` for a key and its versions. Where the bytes
/// begin with what a key and its versions are written as, these are read, and just these bytes
/// are used; no bytes at all are an end.
#[verifier::external_body]
pub(crate) fn decode_snapshot_entry(input: &[u8]) -> (r: SnapshotRead)
    ensures
        r@ == snapshot_step(input@),
        input@.len() == 0 ==> r is End,
        r matches SnapshotRead::Entry { used, .. } ==> 0 < used <= input@.len(),
        forall|key: Seq<u8>, chain: ChainModel|
            starts_with(input@, #[trigger] snapshot_bytes(key, chain)) ==> r@
                == (SnapshotStep::Entry { key, chain, used: snapshot_bytes(key, chain)->0.len() }),
{
    match bincode::serde::borrow_decode_from_slice::<(&[u8], Vec<(u64, Option<&[u8]>)>), _>(
        input,
        bincode::config::standard(),
    ) {
        Ok(((k, list), used)) => SnapshotRead::Entry {
            key: Bytes::copy_from_slice(k),
            versions: list.into_iter().map(|(v, x)| (v, x.map(Bytes::copy_from_slice))).collect(),
            used,
        },
        Err(DecodeError::UnexpectedEnd { .. }) => SnapshotRead::End,
        Err(e) => SnapshotRead::Broken(e),
    }
}

/// Calls `bincode::serde::encode_into_std_write` on a key, a version and a value.
#[verifier::external_body]
pub(crate) fn encode_log_record(key: &Bytes, version: u64, value: &Option<Bytes>) -> (r: Result<
    Vec<u8>,
    EncodeError,
>)
    ensures
        match r {
            Ok(b) => log_bytes(bytes_view(*key), version, value_view(*value)) == Some(b@),
            Err(_) => log_bytes(bytes_view(*key), version, value_view(*value)) is None,
        },
{
    let mut out = Vec::new();
    bincode::serde::encode_into_std_write(
        (key, version, value),
        &mut out,
        bincode::config::standard(),
    )?;
    Ok(out)
}

/// Calls `bincode::serde::borrow_decode_from_slice` for a key, a version and a value. Where the
/// bytes begin with what such a write is written as, it is read, and just these bytes are used;
/// no bytes at all are an end, and so is a part of what a write is written as.
#[verifier::external_body]
pub(crate) fn decode_log_record(input: &[u8]) -> (r: LogRead)
    ensures
        r@ == log_step(input@),
        input@.len() == 0 ==> r is End,
        torn_record(input@) ==> r is End,
        r matches LogRead::Record { used, .. } ==> 0 < used <= input@.len(),
        forall|key: Seq<u8>, version: u64, value: Option<Seq<u8>>|
            starts_with(input@, #[trigger] log_bytes(key, version, value)) ==> r@
                == (LogStep::Record {
                key,
                version,
                value,
                used: log_bytes(key, version, value)->0.len(),
            }),
{
    match bincode::serde::borrow_decode_from_slice::<(&[u8], u64, Option<&[u8]>), _>(
        input,
        bincode::config::standard(),
    ) {
        Ok(((k, version, x), used)) => LogRead::Record {
            key: Bytes::copy_from_slice(k),
            version,
            value: x.map(Bytes::copy_from_slice),
            used,
        },
        Err(DecodeError::UnexpectedEnd { .. }) => LogRead::End,
        Err(e) => LogRead::Broken(e),
    }
}

/// What was read is told as it is.
pub proof fn law_reads_are_told_as_they_are(
    key: Bytes,
    version: u64,
    value: Option<Bytes>,
    versions: Vec<(u64, Option<Bytes>)>,
    used: usize,
)
    ensures
        (LogRead::Record { key, version, value, used })@ == (LogStep::Record {
            key: bytes_view(key),
            version,
            value: value_view(value),
            used: used as nat,
        }),
        (SnapshotRead::Entry { key, versions, used })@ == (SnapshotStep::Entry {
            key: bytes_view(key),
            chain: pairs_view(versions@),
            used: used as nat,
        }),
        LogRead::End@ == LogStep::End,
        SnapshotRead::End@ == SnapshotStep::End,
{
}

} // verus!
