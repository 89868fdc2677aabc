//! Decompression and checksum verification of compressed responses.
use crate::errors::Error;
use std::io::Read;
use vstd::prelude::*;

verus! {

/// The largest decompressed size that a response may declare (one mebibyte).
pub const MAX_DECOMPRESSED: u32 = 1048576;

/// The first `n` bytes that bzip2-decoding `data` yields, or `None` where the
/// stream is malformed or decodes to fewer bytes.
pub uninterp spec fn bz2_read(data: Seq<u8>, n: nat) -> Option<Seq<u8>>;

/// The CRC-32 (ISO-HDLC, as used by zip and ethernet) of `b`.
pub uninterp spec fn crc32_of(b: Seq<u8>) -> u32;

/// Relies on `bzip2::read::BzDecoder` with `Read::read_exact`: fills `buf`
/// with the first `buf.len()` bytes that the stream decodes to, and fails
/// where the stream is malformed or short. The result depends on the bytes
/// alone.
#[verifier::external_body]
fn bz2_read_exact(data: &[u8], buf: &mut Vec<u8>) -> (r: bool)
    ensures
        final(buf)@.len() == old(buf)@.len(),
        r == bz2_read(data@, old(buf)@.len()) is Some,
        r ==> bz2_read(data@, old(buf)@.len()) == Some(final(buf)@),
{
    bzip2::read::BzDecoder::new(data).read_exact(buf.as_mut_slice()).is_ok()
}

/// Relies on `crc::Crc::<u32>::checksum` with the `CRC_32_ISO_HDLC` algorithm.
#[verifier::external_body]
fn crc32(b: &[u8]) -> (r: u32)
    ensures
        r == crc32_of(b@),
{
    crc::Crc::<u32>::new(&crc::CRC_32_ISO_HDLC).checksum(b)
}

/// What decompressing `compressed` to `size` bytes and checking it against
/// `checksum` gives, the allocation of the buffer aside.
pub open spec fn decompressed(compressed: Seq<u8>, size: u32, checksum: u32) -> Result<Seq<u8>, Error> {
    if size > MAX_DECOMPRESSED {
        Err(Error::InvalidBz2Size)
    } else {
        match bz2_read(compressed, size as nat) {
            None => Err(Error::Decompress),
            Some(v) => if crc32_of(v) == checksum {
                Ok(v)
            } else {
                Err(Error::CheckSumMismatch)
            },
        }
    }
}

/// `r` is `expected`, or a refused buffer reservation.
pub open spec fn outcome(r: Result<Vec<u8>, Error>, expected: Result<Seq<u8>, Error>) -> bool {
    match r {
        Ok(v) => expected == Ok::<Seq<u8>, Error>(v@),
        Err(e) => e == Error::AllocationFailure || expected == Err::<Seq<u8>, Error>(e),
    }
}

/// Accepts decompressed bytes only where their checksum `computed` equals the
/// `declared` one.
pub fn accept_checked(bytes: Vec<u8>, computed: u32, declared: u32) -> (r: Result<Vec<u8>, Error>)
    ensures
        computed == declared ==> (r matches Ok(v) && v@ == bytes@),
        computed != declared ==> r == Err::<Vec<u8>, Error>(Error::CheckSumMismatch),
{
    if computed == declared {
        Ok(bytes)
    } else {
        Err(Error::CheckSumMismatch)
    }
}

/// Decompresses a reassembled compressed payload to its declared size and
/// verifies its declared checksum; bytes that fail the check are dropped.
pub fn decompress_payload(compressed: &[u8], size: u32, checksum: u32) -> (r: Result<Vec<u8>, Error>)
    ensures
        size > MAX_DECOMPRESSED ==> r == Err::<Vec<u8>, Error>(Error::InvalidBz2Size),
        outcome(r, decompressed(compressed@, size, checksum)),
        r matches Ok(v) ==> v@.len() == size,
        size <= MAX_DECOMPRESSED && (bz2_read(compressed@, size as nat) matches Some(v) && crc32_of(v)
            != checksum) ==> (r matches Err(e) && (e == Error::CheckSumMismatch || e
            == Error::AllocationFailure)),
        r matches Err(e) && e == Error::AllocationFailure ==> size <= MAX_DECOMPRESSED,
{
    if size > MAX_DECOMPRESSED {
        return Err(Error::InvalidBz2Size);
    }
    let n = size as usize;
    let mut buf: Vec<u8> = Vec::new();
    if buf.try_reserve(n).is_err() {
        return Err(Error::AllocationFailure);
    }
    buf.resize(n, 0u8);
    if !bz2_read_exact(compressed, &mut buf) {
        return Err(Error::Decompress);
    }
    let computed = crc32(buf.as_slice());
    accept_checked(buf, computed, checksum)
}

} // verus!
