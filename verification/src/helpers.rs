//! Stream helpers shared by every transport: write a whole buffer and
//! flush, read exactly as many bytes as a buffer holds, and the shared
//! read-only configuration. Failures carry the caller's error text.

use vstd::prelude::*;
use std::io::Read;
use std::io::Write;

verus! {

/// The uniform error type of the per-connection code: a short static
/// message; every error terminates only its own connection.
pub type Res = Result<(), &'static str>;

/// Shared read-only configuration, constructed once at startup: the
/// directory that holds one file per chat.
pub struct Globals {
    pub data_dir: String,
}

/// Relies on std::io::Write::write_all: writes the whole buffer to the
/// stream or fails.
#[verifier::external_body]
fn io_write_all<W: Write>(stream: &mut W, buf: &[u8]) -> (r: Result<(), ()>) {
    match stream.write_all(buf) {
        Ok(()) => Ok(()),
        Err(_) => Err(()),
    }
}

/// Relies on std::io::Write::flush.
#[verifier::external_body]
fn io_flush<W: Write>(stream: &mut W) -> (r: Result<(), ()>) {
    match stream.flush() {
        Ok(()) => Ok(()),
        Err(_) => Err(()),
    }
}

/// Relies on std::io::Read::read_exact: fills the whole buffer with bytes
/// from the stream, or fails; either way the buffer keeps its length.
#[verifier::external_body]
fn io_read_exact<R: Read>(stream: &mut R, buf: &mut Vec<u8>) -> (r: Result<(), ()>)
    ensures
        final(buf)@.len() == old(buf)@.len(),
{
    match stream.read_exact(buf.as_mut_slice()) {
        Ok(()) => Ok(()),
        Err(_) => Err(()),
    }
}

/// Write the whole buffer to the stream and flush it; any failure is
/// reported as the given error.
pub fn full_write<W: Write>(stream: &mut W, buf: &[u8], err: &'static str) -> (r: Res)
    ensures
        r matches Err(e) ==> e == err,
{
    match io_write_all(stream, buf) {
        Ok(()) => match io_flush(stream) {
            Ok(()) => Ok(()),
            Err(()) => Err(err),
        },
        Err(()) => Err(err),
    }
}

/// Read exactly as many bytes as the buffer holds; any failure is reported
/// as the given error. The buffer keeps its length either way.
pub fn read_exact<R: Read>(stream: &mut R, buf: &mut Vec<u8>, err: &'static str) -> (r: Res)
    ensures
        final(buf)@.len() == old(buf)@.len(),
        r matches Err(e) ==> e == err,
{
    match io_read_exact(stream, buf) {
        Ok(()) => Ok(()),
        Err(()) => Err(err),
    }
}

} // verus!
