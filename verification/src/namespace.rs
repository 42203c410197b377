//! Data-availability namespaces: a 29-byte identifier made of a version
//! byte and a 28-byte ID.

use base64::Engine;
use vstd::prelude::*;
use vstd::string::StringSliceAdditionalSpecFns;

verus! {

/// The number of bytes of a namespace ID.
pub const NAMESPACE_ID_LEN: usize = 28;

/// Errors raised by namespace handling.
#[derive(Debug, Clone, PartialEq, Eq)]
pub enum NamespaceError {
    /// The raw form did not have the expected length.
    WrongLength { expected: usize, got: usize },
}

/// The standard base64 rendering (with padding) of a byte sequence.
pub uninterp spec fn base64_of(bytes: Seq<u8>) -> Seq<char>;

/// Relies on base64's STANDARD engine: the rendering depends on the
/// bytes alone.
#[verifier::external_body]
fn base64_encode(data: &[u8]) -> (r: String)
    ensures
        r@ == base64_of(data@),
{
    base64::engine::general_purpose::STANDARD.encode(data)
}

/// A data-availability namespace: a version byte (0 for user
/// namespaces) and a 28-byte ID.
#[derive(Debug, Clone, PartialEq, Eq)]
pub struct Namespace {
    /// Version byte.
    pub version: u8,
    /// 28-byte namespace ID.
    pub id: [u8; 28],
}

impl Namespace {
    /// The 29-byte raw form: the version byte followed by the ID.
    pub open spec fn spec_bytes(self) -> Seq<u8> {
        seq![self.version] + self.id@
    }

    /// Create a user namespace from a human-readable name: up to 28 of
    /// its bytes sit right-aligned in the ID, zero-padded on the left.
    pub fn from_string(name: &str) -> (r: Self)
        ensures
            r.version == 0,
            ({
                let n = if name.spec_bytes().len() <= 28 {
                    name.spec_bytes().len() as int
                } else {
                    28
                };
                &&& forall|i: int| 0 <= i < 28 - n ==> r.id@[i] == 0
                &&& forall|i: int|
                    28 - n <= i < 28 ==> r.id@[i] == name.spec_bytes()[i - (28 - n)]
            }),
    {
        let mut id: [u8; 28] = [0u8; 28];
        let bytes = name.as_bytes();
        let len: usize = if bytes.len() < 28 {
            bytes.len()
        } else {
            28
        };
        let mut i: usize = 0;
        proof {
            broadcast use vstd::array::group_array_axioms;

        }
        while i < len
            invariant
                i <= len <= 28,
                len <= bytes@.len(),
                bytes@ == name.spec_bytes(),
                id@.len() == 28,
                forall|j: int| 0 <= j < 28 - len ==> id@[j] == 0,
                forall|j: int| 28 - len <= j < 28 - len + i ==> id@[j] == bytes@[j - (28 - len)],
                forall|j: int| 28 - len + i <= j < 28 ==> id@[j] == 0,
            decreases len - i,
        {
            id[28 - len + i] = bytes[i];
            i += 1;
        }
        Namespace { version: 0, id }
    }

    /// Parse the 29-byte raw form.
    pub fn from_bytes(bytes: &[u8]) -> (r: Result<Self, NamespaceError>)
        ensures
            match r {
                Ok(ns) => bytes@.len() == 29 && ns.spec_bytes() == bytes@,
                Err(_) => bytes@.len() != 29,
            },
    {
        if bytes.len() != 29 {
            return Err(NamespaceError::WrongLength { expected: 29, got: bytes.len() });
        }
        let version = bytes[0];
        let mut id: [u8; 28] = [0u8; 28];
        let mut i: usize = 0;
        proof {
            broadcast use vstd::array::group_array_axioms;

        }
        while i < 28
            invariant
                i <= 28,
                bytes@.len() == 29,
                id@.len() == 28,
                forall|j: int| 0 <= j < i ==> id@[j] == bytes@[j + 1],
            decreases 28 - i,
        {
            id[i] = bytes[i + 1];
            i += 1;
        }
        let ns = Namespace { version, id };
        proof {
            assert(ns.spec_bytes() =~= bytes@);
        }
        Ok(ns)
    }

    /// The 29-byte raw form.
    pub fn to_bytes(&self) -> (r: Vec<u8>)
        ensures
            r@ == self.spec_bytes(),
    {
        let mut bytes: Vec<u8> = Vec::new();
        bytes.push(self.version);
        bytes.extend_from_slice(self.id.as_slice());
        proof {
            assert(bytes@ =~= self.spec_bytes());
        }
        bytes
    }

    /// The base64 rendering of the raw form, as the DA API expects it.
    pub fn to_base64(&self) -> (r: String)
        ensures
            r@ == base64_of(self.spec_bytes()),
    {
        let bytes = self.to_bytes();
        base64_encode(bytes.as_slice())
    }
}

} // verus!
