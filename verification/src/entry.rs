//! One row of the mapping, and the key that a lookup is made with.

use vstd::prelude::*;
use crate::errors::ParseError;
use crate::hash::{ChangesetId, GitSha1};

verus! {

/// One row of the mapping: a git commit hash and the changeset id that it belongs to.
#[derive(Clone, Copy, Debug, PartialEq, Eq, Hash)]
pub struct BonsaiGitMappingEntry {
    pub git_sha1: GitSha1,
    pub bcs_id: ChangesetId,
}

impl BonsaiGitMappingEntry {
    pub fn new(git_sha1: GitSha1, bcs_id: ChangesetId) -> (r: Self)
        ensures
            r.git_sha1 == git_sha1,
            r.bcs_id == bcs_id,
    {
        BonsaiGitMappingEntry { git_sha1, bcs_id }
    }

    /// Whether this is the same entry as `other`.
    pub fn equals(&self, other: &BonsaiGitMappingEntry) -> (r: bool)
        ensures
            r == (*self == *other),
    {
        self.git_sha1.equals(&other.git_sha1) && self.bcs_id.equals(&other.bcs_id)
    }
}

/// The key of a lookup: either changeset ids or git hashes.
#[derive(Clone, Debug, PartialEq, Eq, Hash)]
pub enum BonsaisOrGitShas {
    Bonsai(Vec<ChangesetId>),
    GitSha1(Vec<GitSha1>),
}

/// Makes `gix_hash::ObjectId` known as a type whose values are carried through unread.
#[verifier::external_type_specification]
#[verifier::external_body]
pub struct ExObjectId(gix_hash::ObjectId);

/// Calls `gix_hash::ObjectId::as_slice` and copies what it returns. An object id of this
/// crate's version holds a SHA-1 digest and nothing else, so 20 bytes come back.
#[verifier::external_body]
fn object_id_digest(oid: &gix_hash::ObjectId) -> (digest: Vec<u8>)
    ensures
        digest@.len() == 20,
{
    oid.as_slice().to_vec()
}

/// The first index at which `digests` holds something that is not 20 bytes long, or the
/// length of `digests`.
pub open spec fn first_bad_digest(digests: Seq<Vec<u8>>) -> int
    decreases digests.len(),
{
    if digests.len() == 0 {
        0
    } else if first_bad_digest(digests.drop_last()) < digests.len() - 1 {
        first_bad_digest(digests.drop_last())
    } else if digests.last()@.len() == 20 {
        digests.len() as int
    } else {
        digests.len() - 1
    }
}

/// `first_bad_digest` is an index or the length, and everything before it has 20 bytes.
pub proof fn lemma_first_bad_digest(digests: Seq<Vec<u8>>)
    ensures
        0 <= first_bad_digest(digests) <= digests.len(),
        forall|j: int| 0 <= j < first_bad_digest(digests) ==> (#[trigger] digests[j])@.len() == 20,
        first_bad_digest(digests) < digests.len() ==> digests[first_bad_digest(digests)]@.len()
            != 20,
    decreases digests.len(),
{
    if digests.len() > 0 {
        let front = digests.drop_last();
        lemma_first_bad_digest(front);
        assert forall|j: int| 0 <= j < first_bad_digest(digests) implies (
        #[trigger] digests[j])@.len() == 20 by {
            if j < front.len() {
                assert(digests[j] == front[j]);
            }
        }
        if first_bad_digest(front) < front.len() {
            assert(digests[first_bad_digest(front)] == front[first_bad_digest(front)]);
        }
    }
}

impl BonsaisOrGitShas {
    /// How many ids the key holds.
    pub open spec fn spec_count(&self) -> nat {
        match self {
            BonsaisOrGitShas::Bonsai(v) => v@.len(),
            BonsaisOrGitShas::GitSha1(v) => v@.len(),
        }
    }

    /// The key asks for `entry`: it names the entry's changeset id or its git hash.
    pub open spec fn selects(&self, entry: BonsaiGitMappingEntry) -> bool {
        match self {
            BonsaisOrGitShas::Bonsai(v) => v@.contains(entry.bcs_id),
            BonsaisOrGitShas::GitSha1(v) => v@.contains(entry.git_sha1),
        }
    }

    /// The key made of git object ids.
    pub fn from_object_ids(oids: &[gix_hash::ObjectId]) -> (r: Result<Self, ParseError>)
        ensures
            r matches Ok(BonsaisOrGitShas::GitSha1(v)) && v@.len() == oids@.len(),
    {
        let mut digests: Vec<Vec<u8>> = Vec::with_capacity(oids.len());
        let mut i: usize = 0;
        while i < oids.len()
            invariant
                0 <= i <= oids@.len(),
                digests@.len() == i,
                forall|j: int| 0 <= j < i ==> (#[trigger] digests@[j])@.len() == 20,
            decreases oids@.len() - i,
        {
            digests.push(object_id_digest(&oids[i]));
            i += 1;
        }
        proof {
            lemma_first_bad_digest(digests@);
        }
        Self::from_sha1_digests(&digests)
    }

    /// The key made of SHA-1 digests, each given as its 20 bytes. The first digest of
    /// another length is refused.
    pub fn from_sha1_digests(digests: &Vec<Vec<u8>>) -> (r: Result<Self, ParseError>)
        ensures
            match r {
                Ok(key) => first_bad_digest(digests@) == digests@.len() && (
                key matches BonsaisOrGitShas::GitSha1(v) && v@.len() == digests@.len() && forall|
                    j: int,
                |
                    0 <= j < v@.len() ==> (#[trigger] v@[j])@ == digests@[j]@),
                Err(e) => first_bad_digest(digests@) < digests@.len() && e
                    == (ParseError::InvalidLength {
                    len: digests@[first_bad_digest(digests@)]@.len() as usize,
                }),
            },
    {
        proof {
            lemma_first_bad_digest(digests@);
        }
        let mut shas: Vec<GitSha1> = Vec::with_capacity(digests.len());
        let mut i: usize = 0;
        while i < digests.len()
            invariant
                0 <= i <= digests@.len(),
                i <= first_bad_digest(digests@) <= digests@.len(),
                forall|j: int|
                    0 <= j < first_bad_digest(digests@) ==> (#[trigger] digests@[j])@.len() == 20,
                first_bad_digest(digests@) < digests@.len() ==> digests@[first_bad_digest(
                    digests@,
                )]@.len() != 20,
                shas@.len() == i,
                forall|j: int| 0 <= j < i ==> (#[trigger] shas@[j])@ == digests@[j]@,
            decreases digests@.len() - i,
        {
            match GitSha1::from_bytes(digests[i].as_slice()) {
                Ok(sha) => {
                    shas.push(sha);
                },
                Err(e) => {
                    return Err(e);
                },
            }
            i += 1;
        }
        Ok(BonsaisOrGitShas::GitSha1(shas))
    }

    #[verifier::when_used_as_spec(spec_is_empty)]
    pub fn is_empty(&self) -> (r: bool)
        ensures
            r == (self.spec_count() == 0),
    {
        match self {
            BonsaisOrGitShas::Bonsai(v) => v.len() == 0,
            BonsaisOrGitShas::GitSha1(v) => v.len() == 0,
        }
    }

    /// The key holds no id.
    pub open spec fn spec_is_empty(&self) -> bool {
        self.spec_count() == 0
    }

    pub fn count(&self) -> (n: usize)
        ensures
            n == self.spec_count(),
    {
        match self {
            BonsaisOrGitShas::Bonsai(v) => v.len(),
            BonsaisOrGitShas::GitSha1(v) => v.len(),
        }
    }
}

impl From<ChangesetId> for BonsaisOrGitShas {
    fn from(cs_id: ChangesetId) -> (r: Self)
        ensures
            r matches BonsaisOrGitShas::Bonsai(v) && v@ == seq![cs_id],
    {
        BonsaisOrGitShas::Bonsai(vec![cs_id])
    }
}

/// A key holds vectors, which no specification expression can build: what the conversion
/// gives is stated on `from` itself.
impl vstd::std_specs::convert::FromSpecImpl<ChangesetId> for BonsaisOrGitShas {
    open spec fn obeys_from_spec() -> bool {
        false
    }

    open spec fn from_spec(cs_id: ChangesetId) -> Self {
        arbitrary()
    }
}

impl From<Vec<ChangesetId>> for BonsaisOrGitShas {
    fn from(cs_ids: Vec<ChangesetId>) -> (r: Self)
        ensures
            r matches BonsaisOrGitShas::Bonsai(v) && v@ == cs_ids@,
    {
        BonsaisOrGitShas::Bonsai(cs_ids)
    }
}

/// A key holds vectors, which no specification expression can build: what the conversion
/// gives is stated on `from` itself.
impl vstd::std_specs::convert::FromSpecImpl<Vec<ChangesetId>> for BonsaisOrGitShas {
    open spec fn obeys_from_spec() -> bool {
        false
    }

    open spec fn from_spec(cs_ids: Vec<ChangesetId>) -> Self {
        arbitrary()
    }
}

impl From<GitSha1> for BonsaisOrGitShas {
    fn from(git_sha1: GitSha1) -> (r: Self)
        ensures
            r matches BonsaisOrGitShas::GitSha1(v) && v@ == seq![git_sha1],
    {
        BonsaisOrGitShas::GitSha1(vec![git_sha1])
    }
}

/// A key holds vectors, which no specification expression can build: what the conversion
/// gives is stated on `from` itself.
impl vstd::std_specs::convert::FromSpecImpl<GitSha1> for BonsaisOrGitShas {
    open spec fn obeys_from_spec() -> bool {
        false
    }

    open spec fn from_spec(git_sha1: GitSha1) -> Self {
        arbitrary()
    }
}

impl From<Vec<GitSha1>> for BonsaisOrGitShas {
    fn from(revs: Vec<GitSha1>) -> (r: Self)
        ensures
            r matches BonsaisOrGitShas::GitSha1(v) && v@ == revs@,
    {
        BonsaisOrGitShas::GitSha1(revs)
    }
}

/// A key holds vectors, which no specification expression can build: what the conversion
/// gives is stated on `from` itself.
impl vstd::std_specs::convert::FromSpecImpl<Vec<GitSha1>> for BonsaisOrGitShas {
    open spec fn obeys_from_spec() -> bool {
        false
    }

    open spec fn from_spec(revs: Vec<GitSha1>) -> Self {
        arbitrary()
    }
}

} // verus!
