//! The encodings under which a serialized context travels.

use crate::error::FlockError;
use vstd::prelude::*;

verus! {

/// How the bytes of a context are encoded inside an envelope.
#[derive(Debug, Clone, Copy, PartialEq, Eq, Structural)]
pub enum Encoding {
    /// Snappy block compression.
    Snappy,
    /// LZ4 compression; a known tag that the runtime cannot encode.
    Lz4,
    /// Zstandard compression; a known tag that the runtime cannot encode.
    Zstd,
    /// The bytes as they are.
    Identity,
}

/// The block that `snap::raw::Encoder::compress_vec` makes of the input.
pub uninterp spec fn snappy_compressed(input: Seq<u8>) -> Seq<u8>;

/// What `snap::raw::Decoder::decompress_vec` recovers from a block, if it
/// accepts the block.
pub uninterp spec fn snappy_decompressed(input: Seq<u8>) -> Option<Seq<u8>>;

/// Whether an input of this length is small enough for one Snappy block:
/// its largest possible block must fit in 32 bits.
pub open spec fn fits_snappy(len: nat) -> bool {
    32 + len + len / 6 <= 0xFFFF_FFFF
}

/// Calls `snap::raw::Encoder::compress_vec`. Trusted: it succeeds exactly
/// on inputs that fit one block, with the block named `snappy_compressed`.
#[verifier::external_body]
fn snappy_compress(input: &Vec<u8>) -> (r: Option<Vec<u8>>)
    ensures
        r is Some <==> fits_snappy(input@.len()),
        r matches Some(block) ==> block@ == snappy_compressed(input@),
{
    snap::raw::Encoder::new().compress_vec(input).ok()
}

/// Calls `snap::raw::Decoder::decompress_vec`. Trusted: it yields what is
/// named `snappy_decompressed` for the input, and nothing where the input
/// is refused.
#[verifier::external_body]
fn snappy_decompress(input: &Vec<u8>) -> (r: Option<Vec<u8>>)
    ensures
        r is Some <==> snappy_decompressed(input@) is Some,
        r matches Some(bytes) ==> bytes@ == snappy_decompressed(input@).unwrap(),
{
    snap::raw::Decoder::new().decompress_vec(input).ok()
}

/// Copies a sequence of bytes.
pub fn copy_bytes(bytes: &Vec<u8>) -> (r: Vec<u8>)
    ensures
        r@ == bytes@,
{
    let mut out: Vec<u8> = Vec::new();
    let mut i: usize = 0;
    while i < bytes.len()
        invariant
            i <= bytes.len(),
            out@ == bytes@.take(i as int),
        decreases bytes.len() - i,
    {
        out.push(bytes[i]);
        assert(bytes@.take(i + 1) =~= bytes@.take(i as int).push(bytes@[i as int]));
        i = i + 1;
    }
    assert(bytes@.take(bytes.len() as int) =~= bytes@);
    out
}

impl Encoding {
    /// The runtime can encode and decode under this encoding.
    pub open spec fn supported(self) -> bool {
        self == Encoding::Snappy || self == Encoding::Identity
    }

    /// The encoder takes these bytes: the encoding is supported, and under
    /// Snappy the bytes fit one block.
    pub open spec fn encodable(self, bytes: Seq<u8>) -> bool {
        self.supported() && (self == Encoding::Snappy ==> fits_snappy(bytes.len()))
    }

    /// The bytes under this encoding.
    pub open spec fn encoded(self, bytes: Seq<u8>) -> Seq<u8> {
        if self == Encoding::Snappy {
            snappy_compressed(bytes)
        } else {
            bytes
        }
    }

    /// The bytes that were encoded under this encoding: `MalformedEnvelope`
    /// where the codec refuses them, `UnsupportedEncoding` where the
    /// runtime has no codec.
    pub open spec fn decoded(self, bytes: Seq<u8>) -> Result<Seq<u8>, FlockError> {
        match self {
            Encoding::Identity => Ok(bytes),
            Encoding::Snappy => match snappy_decompressed(bytes) {
                Some(plain) => Ok(plain),
                None => Err(FlockError::MalformedEnvelope),
            },
            _ => Err(FlockError::UnsupportedEncoding),
        }
    }

    /// Tells whether the runtime can encode and decode under this encoding.
    pub fn is_supported(&self) -> (r: bool)
        ensures
            r == self.supported(),
    {
        match self {
            Encoding::Snappy => true,
            Encoding::Identity => true,
            _ => false,
        }
    }

    /// Tells whether the encoder takes these bytes.
    pub fn can_encode(&self, bytes: &Vec<u8>) -> (r: bool)
        ensures
            r == self.encodable(bytes@),
    {
        match self {
            Encoding::Snappy => {
                let len: usize = bytes.len();
                len <= 0xFFFF_FFFF && 32 + (len as u64) + (len as u64) / 6 <= 0xFFFF_FFFF
            },
            Encoding::Identity => true,
            _ => false,
        }
    }

    /// Encodes the bytes.
    pub fn encoder(&self, bytes: &Vec<u8>) -> (r: Vec<u8>)
        requires
            self.encodable(bytes@),
        ensures
            r@ == self.encoded(bytes@),
    {
        match self {
            Encoding::Snappy => snappy_compress(bytes).unwrap(),
            _ => copy_bytes(bytes),
        }
    }

    /// Decodes the bytes.
    pub fn decoder(&self, bytes: &Vec<u8>) -> (r: Result<Vec<u8>, FlockError>)
        ensures
            r is Ok <==> self.decoded(bytes@) is Ok,
            r matches Ok(plain) ==> self.decoded(bytes@) == Ok::<Seq<u8>, FlockError>(plain@),
            r matches Err(e) ==> self.decoded(bytes@) == Err::<Seq<u8>, FlockError>(e),
    {
        match self {
            Encoding::Identity => Ok(copy_bytes(bytes)),
            Encoding::Snappy => match snappy_decompress(bytes) {
                Some(plain) => Ok(plain),
                None => Err(FlockError::MalformedEnvelope),
            },
            _ => Err(FlockError::UnsupportedEncoding),
        }
    }
}

} // verus!
