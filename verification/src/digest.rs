//! Content digests: twenty bytes that stand for a command's definition or
//! for its identity.

use std::marker::PhantomData;
use vstd::std_specs::cmp::PartialEqSpecImpl;
use vstd::prelude::*;
use vstd::string::*;

verus! {

pub const DIGEST_LEN: usize = 20;

/// The error of the `hex` crate, carried through unread.
#[verifier::external_type_specification]
#[verifier::external_body]
pub struct ExFromHexError(hex::FromHexError);

pub enum DigestError {
    /// The text is not an even number of hexadecimal digits.
    FromHexError(hex::FromHexError),
    WrongPayloadSize { expected: usize, observed: usize },
    FileReadFailure,
    OpenFileFailure,
}

/// The value of a hexadecimal digit given as an ASCII byte.
pub open spec fn hex_value(c: u8) -> Option<int> {
    if 0x30 <= c <= 0x39 {
        Some(c - 0x30)
    } else if 0x61 <= c <= 0x66 {
        Some(c - 0x61 + 10)
    } else if 0x41 <= c <= 0x46 {
        Some(c - 0x41 + 10)
    } else {
        None
    }
}

/// Whether the bytes are an even number of hexadecimal digits.
pub open spec fn is_hex(data: Seq<u8>) -> bool {
    &&& data.len() % 2 == 0
    &&& forall|i: int| 0 <= i < data.len() ==> (#[trigger] hex_value(data[i])) is Some
}

/// The bytes that the hexadecimal digits write, two digits to a byte, the
/// high one first.
pub open spec fn hex_decoded(data: Seq<u8>) -> Seq<u8> {
    Seq::new(
        data.len() / 2,
        |i: int| (hex_value(data[2 * i])->0 * 16 + hex_value(data[2 * i + 1])->0) as u8,
    )
}

/// Calls `hex::decode`.  It succeeds exactly on an even number of
/// hexadecimal digits, upper or lower case, and then gives one byte for each
/// pair of digits, the high digit first.
#[verifier::external_body]
fn hex_decode(data: &[u8]) -> (out: Result<Vec<u8>, hex::FromHexError>)
    ensures
        out is Ok <==> is_hex(data@),
        out matches Ok(bytes) ==> bytes@ == hex_decoded(data@),
{
    hex::decode(data)
}

/// What `Sha1::digest` gives for the data: its SHA-1 hash, twenty bytes.
pub uninterp spec fn sha1_of(data: Seq<u8>) -> Seq<u8>;

/// Calls `Sha1::digest` of the `sha1` crate on the data.  The result is
/// taken to depend on the data alone.
#[verifier::external_body]
pub(crate) fn sha1_digest(data: &[u8]) -> (out: [u8; 20])
    ensures
        out@ == sha1_of(data@),
{
    <sha1::Sha1 as sha1::Digest>::digest(data).into()
}

/// The kind of digest that stands for what a command is defined to do.
pub struct CommandDefDigestKind {
    _private: (),
}

/// The kind of digest that stands for which command it is.
pub struct CommandIdDigestKind {
    _private: (),
}

pub struct CasDigest<Kind> {
    payload: [u8; 20],
    kind: PhantomData<Kind>,
}

pub type CommandDefDigest = CasDigest<CommandDefDigestKind>;

pub type CommandIdDigest = CasDigest<CommandIdDigestKind>;

impl<Kind> View for CasDigest<Kind> {
    type V = Seq<u8>;

    closed spec fn view(&self) -> Seq<u8> {
        self.payload@
    }
}

impl<Kind> PartialEq for CasDigest<Kind> {
    /// Two digests are equal when their payloads are.
    fn eq(&self, other: &Self) -> (same: bool) {
        let mut i: usize = 0;
        while i < DIGEST_LEN
            invariant
                i <= DIGEST_LEN,
                forall|j: int| 0 <= j < i ==> self.payload@[j] == other.payload@[j],
            decreases DIGEST_LEN - i,
        {
            if self.payload[i] != other.payload[i] {
                assert(self.payload@[i as int] != other.payload@[i as int]);
                return false;
            }
            i += 1;
        }
        assert(self.payload@ =~= other.payload@);
        true
    }
}

impl<Kind> PartialEqSpecImpl for CasDigest<Kind> {
    open spec fn obeys_eq_spec() -> bool {
        true
    }

    open spec fn eq_spec(&self, other: &Self) -> bool {
        self@ == other@
    }
}

impl<Kind> CasDigest<Kind> {
    pub fn new(payload: [u8; 20]) -> (out: Self)
        ensures
            out@ == payload@,
    {
        Self { payload, kind: PhantomData }
    }

    pub fn get_payload(&self) -> (out: &[u8; 20])
        ensures
            out@ == self@,
    {
        &self.payload
    }

    /// Reads a digest written as forty hexadecimal digits.
    pub fn from_str(value: &str) -> (out: Result<Self, DigestError>)
        ensures
            match out {
                Ok(digest) => is_hex(value.spec_bytes()) && value.spec_bytes().len() == 40
                    && digest@ == hex_decoded(value.spec_bytes()),
                Err(DigestError::FromHexError(_)) => !is_hex(value.spec_bytes()),
                Err(DigestError::WrongPayloadSize { expected, observed }) => is_hex(
                    value.spec_bytes(),
                ) && value.spec_bytes().len() != 40 && expected == 20 && observed
                    == value.spec_bytes().len() / 2,
                Err(_) => false,
            },
    {
        match hex_decode(value.as_bytes()) {
            Err(err) => Err(DigestError::FromHexError(err)),
            Ok(bytes) => {
                if bytes.len() != DIGEST_LEN {
                    return Err(
                        DigestError::WrongPayloadSize {
                            expected: DIGEST_LEN,
                            observed: bytes.len(),
                        },
                    );
                }
                let mut payload: [u8; 20] = [0u8; 20];
                let mut i: usize = 0;
                while i < DIGEST_LEN
                    invariant
                        i <= DIGEST_LEN,
                        bytes.len() == DIGEST_LEN,
                        forall|j: int| 0 <= j < i ==> payload@[j] == bytes@[j],
                    decreases DIGEST_LEN - i,
                {
                    payload[i] = bytes[i];
                    i += 1;
                }
                assert(payload@ =~= bytes@);
                Ok(Self::new(payload))
            },
        }
    }
}

} // verus!
