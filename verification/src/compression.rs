//! Compression of snapshots.

use bincode::error::DecodeError;
use std::io::{Error as IoError, Read, Write};
use vstd::prelude::*;

verus! {

/// Whether and how a snapshot is compressed.
#[derive(Debug, Clone, Copy, PartialEq, Eq, Structural)]
pub enum CompressionMode {
    /// Not at all.
    Uncompressed,
    /// As an LZ4 frame.
    Lz4,
}

impl Default for CompressionMode {
    fn default() -> (r: Self)
        ensures
            r == CompressionMode::Uncompressed,
    {
        CompressionMode::Uncompressed
    }
}

/// How hard LZ4 tries.
pub const LZ4_LEVEL: u32 = 7;

/// The bytes that an LZ4 frame begins with.
pub open spec fn lz4_magic() -> Seq<u8> {
    seq![0x04u8, 0x22u8, 0x4Du8, 0x18u8]
}

/// The LZ4 frame that holds some bytes, where it could be made. It is flushed, and not ended.
pub uninterp spec fn lz4_frame(data: Seq<u8>, level: u32) -> Option<Seq<u8>>;

/// The bytes that an LZ4 frame holds, where it could be read.
pub uninterp spec fn lz4_content(frame: Seq<u8>) -> Option<Seq<u8>>;

/// Calls `lz4::EncoderBuilder::build` over a vector, and writes and flushes all of `data`. The
/// frame begins with the magic number.
#[verifier::external_body]
fn lz4_compress(data: &[u8], level: u32) -> (r: Result<Vec<u8>, IoError>)
    ensures
        match r {
            Ok(v) => lz4_frame(data@, level) == Some(v@) && lz4_magic().is_prefix_of(v@),
            Err(_) => lz4_frame(data@, level) is None,
        },
{
    let mut encoder = lz4::EncoderBuilder::new().level(level).build(Vec::new())?;
    encoder.write_all(data)?;
    encoder.flush()?;
    Ok(encoder.writer().clone())
}

/// Calls `lz4::Decoder::new` over the bytes and reads to the end. A frame gives back what it was
/// made of.
#[verifier::external_body]
fn lz4_decompress(data: &[u8]) -> (r: Result<Vec<u8>, IoError>)
    ensures
        match r {
            Ok(v) => lz4_content(data@) == Some(v@),
            Err(_) => lz4_content(data@) is None,
        },
        forall|d: Seq<u8>, level: u32| #[trigger]
            lz4_frame(d, level) == Some(data@) ==> r is Ok && r->Ok_0@ == d,
{
    let mut out = Vec::new();
    lz4::Decoder::new(data)?.read_to_end(&mut out)?;
    Ok(out)
}

/// Makes the `bincode` error that stands for a failed read.
#[verifier::external_body]
fn read_failure(inner: IoError) -> (r: DecodeError) {
    DecodeError::Io { inner, additional: 0 }
}

/// What a snapshot's bytes become on their way to disk.
pub open spec fn packed(data: Seq<u8>, mode: CompressionMode) -> Option<Seq<u8>> {
    match mode {
        CompressionMode::Uncompressed => Some(data),
        CompressionMode::Lz4 => lz4_frame(data, LZ4_LEVEL),
    }
}

/// How the bytes of a file are taken to be compressed: by what they begin with.
pub open spec fn detected(data: Seq<u8>) -> CompressionMode {
    if lz4_magic().is_prefix_of(data) {
        CompressionMode::Lz4
    } else {
        CompressionMode::Uncompressed
    }
}

/// What the bytes of a file hold.
pub open spec fn unpacked(data: Seq<u8>) -> Option<Seq<u8>> {
    match detected(data) {
        CompressionMode::Uncompressed => Some(data),
        CompressionMode::Lz4 => lz4_content(data),
    }
}

/// Collects bytes and compresses them at the end.
pub struct CompressedWriter {
    data: Vec<u8>,
    mode: CompressionMode,
}

impl CompressedWriter {
    /// What was written so far.
    pub closed spec fn written(&self) -> Seq<u8> {
        self.data@
    }

    /// Whether and how it will be compressed.
    pub closed spec fn compression(&self) -> CompressionMode {
        self.mode
    }

    /// A writer that nothing was written to.
    pub fn new(mode: CompressionMode) -> (r: Self)
        ensures
            r.written() == Seq::<u8>::empty(),
            r.compression() == mode,
    {
        CompressedWriter { data: Vec::new(), mode }
    }

    /// Writes some more bytes.
    pub fn write(&mut self, buf: &[u8])
        ensures
            final(self).written() == old(self).written() + buf@,
            final(self).compression() == old(self).compression(),
    {
        self.data.extend_from_slice(buf);
        assert(self.data@ =~= old(self).data@ + buf@);
    }

    /// What goes to disk.
    pub fn finish(self) -> (r: Result<Vec<u8>, IoError>)
        ensures
            match r {
                Ok(v) => packed(self.written(), self.compression()) == Some(v@),
                Err(_) => packed(self.written(), self.compression()) is None,
            },
            self.compression() == CompressionMode::Uncompressed ==> r is Ok,
            self.compression() == CompressionMode::Lz4 ==> (r matches Ok(v) ==> detected(v@)
                == CompressionMode::Lz4),
    {
        match self.mode {
            CompressionMode::Uncompressed => Ok(self.data),
            CompressionMode::Lz4 => lz4_compress(self.data.as_slice(), LZ4_LEVEL),
        }
    }
}

/// How the bytes of a file are taken to be compressed.
pub fn detect(data: &[u8]) -> (r: CompressionMode)
    ensures
        r == detected(data@),
{
    if data.len() >= 4 && data[0] == 0x04 && data[1] == 0x22 && data[2] == 0x4D && data[3] == 0x18 {
        assert(lz4_magic().is_prefix_of(data@));
        CompressionMode::Lz4
    } else {
        proof {
            if lz4_magic().is_prefix_of(data@) {
                let m = lz4_magic();
                assert(m.len() == 4 && m[0] == data@[0] && m[1] == data@[1] && m[2] == data@[2]
                    && m[3] == data@[3]);
            }
        }
        CompressionMode::Uncompressed
    }
}

/// Reads what the bytes of a file hold, whichever way they are compressed. What was packed comes
/// back, unless it was left uncompressed and happens to begin like an LZ4 frame.
pub fn read_packed(data: &[u8]) -> (r: Result<Vec<u8>, DecodeError>)
    ensures
        match r {
            Ok(v) => unpacked(data@) == Some(v@),
            Err(_) => unpacked(data@) is None,
        },
        forall|d: Seq<u8>, mode: CompressionMode| #[trigger]
            packed(d, mode) == Some(data@) && detected(data@) == mode ==> r is Ok && r->Ok_0@ == d,
{
    match detect(data) {
        CompressionMode::Uncompressed => {
            let mut out: Vec<u8> = Vec::new();
            out.extend_from_slice(data);
            assert(out@ =~= data@);
            Ok(out)
        },
        CompressionMode::Lz4 => {
            match lz4_decompress(data) {
                Ok(v) => Ok(v),
                Err(e) => Err(read_failure(e)),
            }
        },
    }
}

} // verus!
