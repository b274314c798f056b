//! What ClientHello and ServerHello have in common (RFC 5246, section 7.4.1).

use p256::elliptic_curve::rand_core::{OsRng, RngCore};

use vstd::prelude::*;

use crate::transports::dtls::error::DtlsError;
use crate::transports::dtls::vector::{
    get_vector16, read_vector16, read_vector16_iff_written, vector16,
};

verus! {

/// Bytes of a hello in front of its session id: the version and the random.
pub const HELLO_PREFIX_LEN: usize = 34;

/// The 32 bytes that a station contributes to the keys.
#[derive(Debug, Clone, Copy, PartialEq, Eq)]
pub struct Random {
    pub bytes: [u8; 32],
}

/// `OsRng::try_fill_bytes`: 32 bytes from the operating system's random
/// generator, or none if it fails. Nothing is claimed of the bytes.
#[verifier::external_body]
fn os_random_bytes() -> (bytes: Option<[u8; 32]>) {
    let mut bytes = [0u8; 32];
    match OsRng.try_fill_bytes(&mut bytes) {
        Ok(()) => Some(bytes),
        Err(_) => None,
    }
}

impl Random {
    /// Fresh random bytes. Fails only if the operating system has none to give.
    pub fn new() -> (random: Result<Random, DtlsError>)
        ensures
            random matches Err(error) ==> error == DtlsError::RandomUnavailable,
    {
        Self::from_drawn(os_random_bytes())
    }

    /// The random made of the bytes that were drawn, or the error if none could be.
    pub fn from_drawn(drawn: Option<[u8; 32]>) -> (random: Result<Random, DtlsError>)
        ensures
            random == match drawn {
                Some(bytes) => Ok(Random { bytes }),
                None => Err(DtlsError::RandomUnavailable),
            },
    {
        match drawn {
            Some(bytes) => Ok(Random { bytes }),
            None => Err(DtlsError::RandomUnavailable),
        }
    }

    /// The 32 bytes.
    pub fn to_bytes(&self) -> (bytes: [u8; 32])
        ensures
            bytes == self.bytes,
    {
        self.bytes
    }

    /// Reads the random of a hello.
    pub(crate) fn read(data: &[u8]) -> (random: Random)
        requires
            data@.len() >= HELLO_PREFIX_LEN,
        ensures
            random.bytes@ == data@.subrange(2, HELLO_PREFIX_LEN as int),
    {
        let mut bytes: [u8; 32] = [0;32];
        for i in 0..32usize
            invariant
                data@.len() >= HELLO_PREFIX_LEN,
                forall|j: int| 0 <= j < i ==> bytes@[j] == data@[2 + j],
        {
            bytes[i] = data[2 + i];
        }
        assert(bytes@ =~= data@.subrange(2, HELLO_PREFIX_LEN as int));
        Random { bytes }
    }
}

/// The extensions of a hello on the wire: left out if there are none.
pub open spec fn extension_block(extensions: Seq<u8>) -> Seq<u8> {
    if extensions.len() == 0 {
        Seq::empty()
    } else {
        vector16(extensions)
    }
}

/// The extensions at the end of a hello, if they fill the rest of it. A hello
/// without extensions ends at `at`, or holds a vector of length zero.
pub open spec fn read_extensions(data: Seq<u8>, at: int) -> Option<Seq<u8>> {
    if at == data.len() {
        Some(Seq::empty())
    } else {
        match read_vector16(data, at) {
            Some(extensions) if at + 2 + extensions.len() == data.len() => Some(extensions),
            _ => None,
        }
    }
}

/// Whether `tail` is what ends a hello with these extensions.
pub open spec fn ends_with_extensions(tail: Seq<u8>, extensions: Seq<u8>) -> bool {
    ||| tail == extension_block(extensions)
    ||| tail == vector16(extensions)
}

/// Extensions are read exactly if they were written.
pub proof fn read_extensions_iff_written(data: Seq<u8>, at: int, extensions: Seq<u8>)
    requires
        0 <= at <= data.len(),
    ensures
        read_extensions(data, at) == Some(extensions) <==> extensions.len() < 0x10000
            && ends_with_extensions(data.skip(at), extensions),
{
    read_vector16_iff_written(data, at, extensions);
    if at == data.len() {
        assert(data.skip(at) =~= Seq::empty());
        if extensions.len() == 0 {
            assert(extensions =~= Seq::empty());
        }
        assert(vector16(extensions).len() == 2 + extensions.len());
        assert(data.skip(at).len() == 0);
    } else {
        assert(data.skip(at).len() == data.len() - at);
        if read_extensions(data, at) == Some(extensions) {
            assert(data.skip(at) =~= data.subrange(at, at + 2 + extensions.len()));
        }
        if extensions.len() < 0x10000 && ends_with_extensions(data.skip(at), extensions) {
            assert(data.skip(at) == vector16(extensions));
            assert(vector16(extensions).len() == 2 + extensions.len());
            assert(data.subrange(at, at + 2 + extensions.len()) =~= data.skip(at));
        }
    }
}

/// Reads the extensions at the end of a hello.
pub(crate) fn get_extensions(data: &[u8], at: usize) -> (extensions: Option<Vec<u8>>)
    requires
        at <= data@.len(),
    ensures
        match extensions {
            Some(extensions) => read_extensions(data@, at as int) == Some(extensions@),
            None => read_extensions(data@, at as int) is None,
        },
{
    if at == data.len() {
        return Some(Vec::new());
    }
    match get_vector16(data, at) {
        Some(extensions) => if data.len() - at - 2 == extensions.len() {
            Some(extensions)
        } else {
            None
        },
        None => None,
    }
}

} // verus!
