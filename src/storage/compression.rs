use crate::error::StorageError;
use vstd::prelude::*;
use vstd::slice::slice_to_vec;

verus! {

/// The gzip stream that the encoder writes for a byte sequence at the default level.
pub uninterp spec fn gzip_of(data: Seq<u8>) -> Seq<u8>;

/// What the gzip decoder reads out of a byte sequence, if it is a gzip stream.
pub uninterp spec fn gunzip_of(data: Seq<u8>) -> Option<Seq<u8>>;

/// Relies on flate2::write::GzEncoder with `Compression::default()`, writing
/// into a `Vec`, which cannot fail: the stream depends on the input alone,
/// and the decoder reads the input back out of it.
#[verifier::external_body]
fn gzip(data: &[u8]) -> (r: Result<Vec<u8>, String>)
    ensures
        r is Ok,
        r matches Ok(z) ==> z@ == gzip_of(data@) && gunzip_of(z@) == Some(data@),
{
    let mut encoder = flate2::write::GzEncoder::new(Vec::new(), flate2::Compression::default());
    std::io::Write::write_all(&mut encoder, data).map_err(|e| e.to_string())?;
    encoder.finish().map_err(|e| e.to_string())
}

/// Relies on flate2::read::GzDecoder and `Read::read_to_end`: the bytes that
/// the stream holds, or an error where it is no gzip stream.
#[verifier::external_body]
fn gunzip(data: &[u8]) -> (r: Result<Vec<u8>, String>)
    ensures
        r is Ok <==> gunzip_of(data@) is Some,
        r matches Ok(v) ==> gunzip_of(data@) == Some(v@),
{
    let mut decoder = flate2::read::GzDecoder::new(data);
    let mut out = Vec::new();
    std::io::Read::read_to_end(&mut decoder, &mut out).map_err(|e| e.to_string())?;
    Ok(out)
}

/// Reversible compression of byte buffers, which can be switched off.
pub struct CompressionManager {
    enabled: bool,
}

impl CompressionManager {
    pub closed spec fn is_enabled(&self) -> bool {
        self.enabled
    }

    /// `y` is a compressed form of `x`: the gzip stream of `x`, which decodes
    /// back to `x`, when enabled; `x` itself when not.
    pub open spec fn compresses(&self, x: Seq<u8>, y: Seq<u8>) -> bool {
        if self.is_enabled() {
            y == gzip_of(x) && gunzip_of(y) == Some(x)
        } else {
            y == x
        }
    }

    /// What decompressing `y` gives, if it succeeds.
    pub open spec fn decompressed(&self, y: Seq<u8>) -> Option<Seq<u8>> {
        if self.is_enabled() {
            gunzip_of(y)
        } else {
            Some(y)
        }
    }

    pub fn new(enabled: bool) -> (r: Self)
        ensures
            r.is_enabled() == enabled,
    {
        CompressionManager { enabled }
    }

    /// Compresses with gzip when enabled; hands the bytes back when not.
    pub fn compress(&self, data: &[u8]) -> (r: Result<Vec<u8>, StorageError>)
        ensures
            r is Ok,
            r matches Ok(y) ==> self.compresses(data@, y@),
    {
        if !self.enabled {
            return Ok(slice_to_vec(data));
        }
        match gzip(data) {
            Ok(z) => Ok(z),
            Err(m) => Err(StorageError::Storage(m)),
        }
    }

    /// Decompresses a gzip stream when enabled; hands the bytes back when not.
    pub fn decompress(&self, data: &[u8]) -> (r: Result<Vec<u8>, StorageError>)
        ensures
            r is Ok <==> self.decompressed(data@) is Some,
            r matches Ok(x) ==> self.decompressed(data@) == Some(x@),
            r matches Err(e) ==> e is Storage,
    {
        if !self.enabled {
            return Ok(slice_to_vec(data));
        }
        match gunzip(data) {
            Ok(x) => Ok(x),
            Err(m) => Err(StorageError::Storage(m)),
        }
    }
}

/// Decompressing what compression produced gives back the uncompressed bytes.
pub proof fn lemma_compression_round_trip(c: CompressionManager, x: Seq<u8>, y: Seq<u8>)
    requires
        c.compresses(x, y),
    ensures
        c.decompressed(y) == Some(x),
{
}

} // verus!
