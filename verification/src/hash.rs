//! The identifiers that the mapping relates: git commit hashes, changeset ids and
//! repository ids.

use vstd::prelude::*;
use vstd::string::StringSliceAdditionalSpecFns;
use crate::bytes_order::{be_value, lemma_be_value_injective, less_than, same_bytes};
use crate::errors::ParseError;
use crate::hex::{decode, decode_hex, encode, encode_hex, first_non_hex, is_hex};

verus! {

/// Number of bytes of a git SHA-1 hash.
pub const GIT_SHA1_LEN: usize = 20;

/// Number of bytes of a changeset id.
pub const CHANGESET_ID_LEN: usize = 32;

/// Identifier of a repository. Every row of the mapping belongs to one repository.
#[derive(Clone, Copy, Debug, PartialEq, Eq, Hash, Structural)]
pub struct RepositoryId(pub i32);

impl RepositoryId {
    pub fn new(id: i32) -> (r: Self)
        ensures
            r.0 == id,
    {
        RepositoryId(id)
    }

    pub fn id(&self) -> (id: i32)
        ensures
            id == self.0,
    {
        self.0
    }
}

/// A git commit hash: the 20 bytes of a SHA-1 digest.
#[derive(Clone, Copy, Debug, PartialEq, Eq, Hash)]
pub struct GitSha1(pub [u8; 20]);

impl View for GitSha1 {
    type V = Seq<u8>;

    open spec fn view(&self) -> Seq<u8> {
        self.0@
    }
}

impl GitSha1 {
    /// The hash read as a 160-bit number, most significant byte first. Hashes are ordered
    /// by this number.
    pub open spec fn value(&self) -> nat {
        be_value(self@)
    }

    /// Two hashes with the same bytes are the same hash.
    pub proof fn lemma_eq_by_view(a: GitSha1, b: GitSha1)
        ensures
            a@.len() == 20,
            (a@ == b@) <==> (a == b),
            (a.value() == b.value()) <==> (a == b),
    {
        if a@ == b@ {
            assert(a.0 =~= b.0);
        }
        if a.value() == b.value() {
            lemma_be_value_injective(a@, b@);
            assert(a.0 =~= b.0);
        }
    }

    /// Whether this is the same hash as `other`.
    pub fn equals(&self, other: &GitSha1) -> (r: bool)
        ensures
            r == (*self == *other),
    {
        let r = same_bytes(self.0.as_slice(), other.0.as_slice());
        proof {
            if r {
                assert(self.0 =~= other.0);
            }
        }
        r
    }

    /// The hash with exactly these bytes.
    pub fn from_byte_array(bytes: [u8; 20]) -> (r: Self)
        ensures
            r.0 == bytes,
    {
        GitSha1(bytes)
    }

    /// The hash with the bytes of `bytes`, which must be 20.
    pub fn from_bytes(bytes: &[u8]) -> (r: Result<Self, ParseError>)
        ensures
            match r {
                Ok(h) => bytes@.len() == 20 && h@ == bytes@,
                Err(e) => bytes@.len() != 20 && e == (ParseError::InvalidLength {
                    len: bytes@.len() as usize,
                }),
            },
    {
        if bytes.len() != GIT_SHA1_LEN {
            return Err(ParseError::InvalidLength { len: bytes.len() });
        }
        let mut out: [u8; 20] = [0u8;20];
        let mut i: usize = 0;
        while i < 20
            invariant
                bytes@.len() == 20,
                0 <= i <= 20,
                forall|j: int| 0 <= j < i ==> out@[j] == bytes@[j],
            decreases 20 - i,
        {
            out[i] = bytes[i];
            i += 1;
        }
        assert(out@ =~= bytes@);
        Ok(GitSha1(out))
    }

    /// Parses 40 hexadecimal digits, of either case.
    pub fn from_hex(text: &[u8]) -> (r: Result<Self, ParseError>)
        ensures
            match r {
                Ok(h) => text@.len() == 40 && is_hex(text@) && h@ == decode_hex(text@),
                Err(ParseError::InvalidLength { len }) => text@.len() != 40 && len == text@.len(),
                Err(ParseError::InvalidHex { position }) => text@.len() == 40 && !is_hex(text@)
                    && position == first_non_hex(text@),
                Err(ParseError::NotAscii { .. }) => false,
            },
    {
        if text.len() != 2 * GIT_SHA1_LEN {
            return Err(ParseError::InvalidLength { len: text.len() });
        }
        match decode(text) {
            Ok(bytes) => {
                match Self::from_bytes(bytes.as_slice()) {
                    Ok(h) => Ok(h),
                    Err(e) => {
                        assert(false);
                        Err(e)
                    },
                }
            },
            Err(e) => Err(e),
        }
    }

    /// Parses the 40 hexadecimal digits that `s` holds.
    pub fn from_str(s: &str) -> (r: Result<Self, ParseError>)
        ensures
            match r {
                Ok(h) => s.spec_bytes().len() == 40 && is_hex(s.spec_bytes()) && h@ == decode_hex(
                    s.spec_bytes(),
                ),
                Err(ParseError::InvalidLength { len }) => s.spec_bytes().len() != 40 && len
                    == s.spec_bytes().len(),
                Err(ParseError::InvalidHex { position }) => s.spec_bytes().len() == 40 && !is_hex(
                    s.spec_bytes(),
                ) && position == first_non_hex(s.spec_bytes()),
                Err(ParseError::NotAscii { .. }) => false,
            },
    {
        Self::from_hex(s.as_bytes())
    }

    /// The bytes of the hash.
    pub fn as_bytes(&self) -> (bytes: &[u8])
        ensures
            bytes@ == self@,
    {
        self.0.as_slice()
    }

    /// The hash as 40 lower-case hexadecimal digits.
    pub fn to_hex(&self) -> (text: Vec<u8>)
        ensures
            text@ == encode_hex(self@),
            text@.len() == 40,
    {
        encode(self.0.as_slice())
    }

    /// Whether this hash comes before `other`.
    pub fn precedes(&self, other: &GitSha1) -> (r: bool)
        ensures
            r == (self.value() < other.value()),
    {
        less_than(self.0.as_slice(), other.0.as_slice())
    }

    /// Whether this hash lies in the closed range from `low` to `high`.
    pub fn is_within(&self, low: &GitSha1, high: &GitSha1) -> (r: bool)
        ensures
            r == (low.value() <= self.value() <= high.value()),
    {
        !self.precedes(low) && !high.precedes(self)
    }
}

/// The native identifier of a commit: the 32 bytes of its content hash.
#[derive(Clone, Copy, Debug, PartialEq, Eq, Hash)]
pub struct ChangesetId(pub [u8; 32]);

impl View for ChangesetId {
    type V = Seq<u8>;

    open spec fn view(&self) -> Seq<u8> {
        self.0@
    }
}

impl ChangesetId {
    /// Two changeset ids with the same bytes are the same id.
    pub proof fn lemma_eq_by_view(a: ChangesetId, b: ChangesetId)
        ensures
            a@.len() == 32,
            (a@ == b@) <==> (a == b),
    {
        if a@ == b@ {
            assert(a.0 =~= b.0);
        }
    }

    /// Whether this is the same changeset id as `other`.
    pub fn equals(&self, other: &ChangesetId) -> (r: bool)
        ensures
            r == (*self == *other),
    {
        let r = same_bytes(self.0.as_slice(), other.0.as_slice());
        proof {
            if r {
                assert(self.0 =~= other.0);
            }
        }
        r
    }

    /// The changeset id with exactly these bytes.
    pub fn new(bytes: [u8; 32]) -> (r: Self)
        ensures
            r.0 == bytes,
    {
        ChangesetId(bytes)
    }

    /// The changeset id with the bytes of `bytes`, which must be 32.
    pub fn from_bytes(bytes: &[u8]) -> (r: Result<Self, ParseError>)
        ensures
            match r {
                Ok(h) => bytes@.len() == 32 && h@ == bytes@,
                Err(e) => bytes@.len() != 32 && e == (ParseError::InvalidLength {
                    len: bytes@.len() as usize,
                }),
            },
    {
        if bytes.len() != CHANGESET_ID_LEN {
            return Err(ParseError::InvalidLength { len: bytes.len() });
        }
        let mut out: [u8; 32] = [0u8;32];
        let mut i: usize = 0;
        while i < 32
            invariant
                bytes@.len() == 32,
                0 <= i <= 32,
                forall|j: int| 0 <= j < i ==> out@[j] == bytes@[j],
            decreases 32 - i,
        {
            out[i] = bytes[i];
            i += 1;
        }
        assert(out@ =~= bytes@);
        Ok(ChangesetId(out))
    }

    /// Parses 64 hexadecimal digits, of either case.
    pub fn from_hex(text: &[u8]) -> (r: Result<Self, ParseError>)
        ensures
            match r {
                Ok(h) => text@.len() == 64 && is_hex(text@) && h@ == decode_hex(text@),
                Err(ParseError::InvalidLength { len }) => text@.len() != 64 && len == text@.len(),
                Err(ParseError::InvalidHex { position }) => text@.len() == 64 && !is_hex(text@)
                    && position == first_non_hex(text@),
                Err(ParseError::NotAscii { .. }) => false,
            },
    {
        if text.len() != 2 * CHANGESET_ID_LEN {
            return Err(ParseError::InvalidLength { len: text.len() });
        }
        match decode(text) {
            Ok(bytes) => {
                match Self::from_bytes(bytes.as_slice()) {
                    Ok(h) => Ok(h),
                    Err(e) => {
                        assert(false);
                        Err(e)
                    },
                }
            },
            Err(e) => Err(e),
        }
    }

    /// The bytes of the id.
    pub fn as_bytes(&self) -> (bytes: &[u8])
        ensures
            bytes@ == self@,
    {
        self.0.as_slice()
    }

    /// The id as 64 lower-case hexadecimal digits.
    pub fn to_hex(&self) -> (text: Vec<u8>)
        ensures
            text@ == encode_hex(self@),
            text@.len() == 64,
    {
        encode(self.0.as_slice())
    }
}

} // verus!
