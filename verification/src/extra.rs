//! Git hashes that commits carry in their extras.

use vstd::prelude::*;
use vstd::string::StringSliceAdditionalSpecFns;
use vstd::utf8::encode_utf8_decode_utf8;
use crate::bytes_order::same_bytes;
use crate::entry::BonsaiGitMappingEntry;
use crate::errors::ParseError;
use crate::hash::{ChangesetId, GitSha1};
use crate::hex::{decode_hex, first_non_hex, is_hex, lemma_first_non_hex};

verus! {

/// The extra that names the system a commit was converted from.
pub const HGGIT_SOURCE_EXTRA: &'static str = "hg-git-rename-source";

/// The extra that holds the hash that the commit had in that system.
pub const CONVERT_REVISION_EXTRA: &'static str = "convert_revision";

/// The value of `HGGIT_SOURCE_EXTRA` that marks a commit as converted from git.
pub const GIT_SOURCE: &'static str = "git";

/// The index of the first byte of `bytes` that is not ASCII, or `bytes.len()`.
pub open spec fn first_non_ascii(bytes: Seq<u8>) -> int
    decreases bytes.len(),
{
    if bytes.len() == 0 || bytes[0] >= 128 {
        0
    } else {
        1 + first_non_ascii(bytes.drop_first())
    }
}

/// `first_non_ascii` is an index into the bytes or their number, everything before it is
/// ASCII, and the byte at it, if there is one, is not.
pub proof fn lemma_first_non_ascii(bytes: Seq<u8>)
    ensures
        0 <= first_non_ascii(bytes) <= bytes.len(),
        forall|j: int| 0 <= j < first_non_ascii(bytes) ==> #[trigger] bytes[j] < 128,
        first_non_ascii(bytes) < bytes.len() ==> bytes[first_non_ascii(bytes)] >= 128,
    decreases bytes.len(),
{
    if bytes.len() == 0 || bytes[0] >= 128 {
    } else {
        let rest = bytes.drop_first();
        lemma_first_non_ascii(rest);
        assert forall|j: int| 0 <= j < first_non_ascii(bytes) implies #[trigger] bytes[j]
            < 128 by {
            if j > 0 {
                assert(bytes[j] == rest[j - 1]);
            }
        }
        assert(first_non_ascii(bytes) == bytes.len() || bytes[first_non_ascii(bytes)]
            == rest[first_non_ascii(rest)]);
    }
}

/// Calls `ascii::AsciiStr::from_ascii` and, where it accepts, `AsciiStr::as_str`. The bytes
/// are accepted if and only if each is below 128, and the string then holds those same
/// bytes. Where they are refused, the error's `valid_up_to` is handed back: the index of the
/// first byte that is not ASCII.
#[verifier::external_body]
fn ascii_str_from_bytes(bytes: &[u8]) -> (r: Result<&str, usize>)
    ensures
        match r {
            Ok(s) => first_non_ascii(bytes@) == bytes@.len() && s.spec_bytes() == bytes@,
            Err(i) => first_non_ascii(bytes@) < bytes@.len() && i == first_non_ascii(bytes@),
        },
{
    match ascii::AsciiStr::from_ascii(bytes) {
        Ok(s) => Ok(s.as_str()),
        Err(e) => Err(e.valid_up_to()),
    }
}

/// Whether two strings are the same.
pub fn same_str(a: &str, b: &str) -> (r: bool)
    ensures
        r == (a@ == b@),
{
    let r = same_bytes(a.as_bytes(), b.as_bytes());
    proof {
        encode_utf8_decode_utf8(a@);
        encode_utf8_decode_utf8(b@);
    }
    r
}

/// The value that a scan of `extra` from its start to its end sees last under `key`.
pub open spec fn last_value(extra: Seq<(String, Vec<u8>)>, key: Seq<char>) -> Option<Seq<u8>>
    decreases extra.len(),
{
    if extra.len() == 0 {
        None
    } else if extra.last().0@ == key {
        Some(extra.last().1@)
    } else {
        last_value(extra.drop_last(), key)
    }
}

/// The text of the git hash that the extras announce: the revision extra, where the source
/// extra is there and says `git`.
pub open spec fn announced_revision(extra: Seq<(String, Vec<u8>)>) -> Option<Seq<u8>> {
    if last_value(extra, HGGIT_SOURCE_EXTRA@) == Some(GIT_SOURCE.spec_bytes()) {
        last_value(extra, CONVERT_REVISION_EXTRA@)
    } else {
        None
    }
}

/// The bytes of the hash that `text` spells, where it is 40 hexadecimal digits, and else
/// the reason why it spells none.
pub open spec fn parse_revision(text: Seq<u8>) -> Result<Seq<u8>, ParseError> {
    if first_non_ascii(text) < text.len() {
        Err(ParseError::NotAscii { valid_up_to: first_non_ascii(text) as usize })
    } else if text.len() != 40 {
        Err(ParseError::InvalidLength { len: text.len() as usize })
    } else if !is_hex(text) {
        Err(ParseError::InvalidHex { position: first_non_hex(text) as usize })
    } else {
        Ok(decode_hex(text))
    }
}

/// The bytes of the git hash that the extras of a commit embed: none where they announce
/// none, and an error where what they announce is no hash.
pub open spec fn embedded_git_sha1(extra: Seq<(String, Vec<u8>)>) -> Result<
    Option<Seq<u8>>,
    ParseError,
> {
    match announced_revision(extra) {
        None => Ok(None),
        Some(text) => match parse_revision(text) {
            Ok(bytes) => Ok(Some(bytes)),
            Err(e) => Err(e),
        },
    }
}

/// The bytes of the hash in a result of `extract_git_sha1_from_bonsai_extra`.
pub open spec fn extracted_bytes(r: Result<Option<GitSha1>, ParseError>) -> Result<
    Option<Seq<u8>>,
    ParseError,
> {
    match r {
        Ok(Some(h)) => Ok(Some(h@)),
        Ok(None) => Ok(None),
        Err(e) => Err(e),
    }
}

/// Parses the text of a git hash as the extras hold it.
pub fn git_sha1_from_revision(text: &[u8]) -> (r: Result<GitSha1, ParseError>)
    ensures
        match r {
            Ok(h) => parse_revision(text@) == Ok::<Seq<u8>, ParseError>(h@),
            Err(e) => parse_revision(text@) == Err::<Seq<u8>, ParseError>(e),
        },
{
    proof {
        lemma_first_non_hex(text@);
    }
    match ascii_str_from_bytes(text) {
        Err(valid_up_to) => Err(ParseError::NotAscii { valid_up_to }),
        Ok(s) => GitSha1::from_str(s),
    }
}

/// Reads the git hash that the extras of a commit embed.
///
/// The pairs are scanned once, and of each of the two watched keys the value seen last
/// counts. The result is `None` unless the source extra says `git` and the revision extra is
/// there; then the revision extra must be a git hash in 40 hexadecimal digits.
pub fn extract_git_sha1_from_bonsai_extra(extra: &[(String, Vec<u8>)]) -> (r: Result<
    Option<GitSha1>,
    ParseError,
>)
    ensures
        extracted_bytes(r) == embedded_git_sha1(extra@),
{
    let mut hggit_source_extra: Option<usize> = None;
    let mut convert_revision_extra: Option<usize> = None;
    let mut i: usize = 0;
    while i < extra.len()
        invariant
            0 <= i <= extra@.len(),
            match hggit_source_extra {
                Some(k) => k < i && last_value(extra@.take(i as int), HGGIT_SOURCE_EXTRA@) == Some(
                    extra@[k as int].1@,
                ),
                None => last_value(extra@.take(i as int), HGGIT_SOURCE_EXTRA@) is None,
            },
            match convert_revision_extra {
                Some(k) => k < i && last_value(extra@.take(i as int), CONVERT_REVISION_EXTRA@)
                    == Some(extra@[k as int].1@),
                None => last_value(extra@.take(i as int), CONVERT_REVISION_EXTRA@) is None,
            },
        decreases extra@.len() - i,
    {
        proof {
            assert(extra@.take(i + 1).drop_last() =~= extra@.take(i as int));
            assert(extra@.take(i + 1).last() == extra@[i as int]);
        }
        if same_str(extra[i].0.as_str(), HGGIT_SOURCE_EXTRA) {
            hggit_source_extra = Some(i);
        }
        if same_str(extra[i].0.as_str(), CONVERT_REVISION_EXTRA) {
            convert_revision_extra = Some(i);
        }
        i += 1;
    }
    assert(extra@.take(i as int) =~= extra@);
    let from_git = match hggit_source_extra {
        Some(k) => same_bytes(extra[k].1.as_slice(), GIT_SOURCE.as_bytes()),
        None => false,
    };
    if from_git {
        if let Some(k) = convert_revision_extra {
            return match git_sha1_from_revision(extra[k].1.as_slice()) {
                Ok(h) => Ok(Some(h)),
                Err(e) => Err(e),
            };
        }
    }
    Ok(None)
}

/// What the import reads of a commit: its id and its extras.
#[derive(Clone, Debug, PartialEq, Eq)]
pub struct BonsaiChangeset {
    pub changeset_id: ChangesetId,
    pub hg_extra: Vec<(String, Vec<u8>)>,
}

impl BonsaiChangeset {
    pub fn new(changeset_id: ChangesetId, hg_extra: Vec<(String, Vec<u8>)>) -> (r: Self)
        ensures
            r.changeset_id == changeset_id,
            r.hg_extra == hg_extra,
    {
        BonsaiChangeset { changeset_id, hg_extra }
    }

    pub fn get_changeset_id(&self) -> (id: ChangesetId)
        ensures
            id == self.changeset_id,
    {
        self.changeset_id
    }

    pub fn hg_extra(&self) -> (extra: &[(String, Vec<u8>)])
        ensures
            extra@ == self.hg_extra@,
    {
        self.hg_extra.as_slice()
    }
}

/// Why the import passes a commit over.
#[derive(Clone, Copy, Debug, PartialEq, Eq, Structural)]
pub enum SkipReason {
    /// The extras of the commit embed no git hash.
    MissingMapping,
    /// The extras announce a git hash, and what they hold is none.
    Malformed(ParseError),
}

/// A commit that the import passes over.
#[derive(Clone, Copy, Debug, PartialEq, Eq)]
pub struct SkippedChangeset {
    pub changeset_id: ChangesetId,
    pub reason: SkipReason,
}

/// The plan for bringing commits in: the rows to add, and the commits that give none.
#[derive(Clone, Debug, PartialEq, Eq)]
pub struct ImportPlan {
    pub entries: Vec<BonsaiGitMappingEntry>,
    pub skipped: Vec<SkippedChangeset>,
}

/// For each commit whose extras embed a git hash, in the order of the commits, the bytes of
/// that hash and the id of the commit.
pub open spec fn importable(changesets: Seq<BonsaiChangeset>) -> Seq<(Seq<u8>, ChangesetId)>
    decreases changesets.len(),
{
    if changesets.len() == 0 {
        Seq::empty()
    } else {
        let front = importable(changesets.drop_last());
        let last = changesets.last();
        match embedded_git_sha1(last.hg_extra@) {
            Ok(Some(bytes)) => front.push((bytes, last.changeset_id)),
            _ => front,
        }
    }
}

/// The commits whose extras embed no git hash, in the order of the commits, each with the
/// reason.
pub open spec fn not_importable(changesets: Seq<BonsaiChangeset>) -> Seq<SkippedChangeset>
    decreases changesets.len(),
{
    if changesets.len() == 0 {
        Seq::empty()
    } else {
        let front = not_importable(changesets.drop_last());
        let last = changesets.last();
        match embedded_git_sha1(last.hg_extra@) {
            Ok(Some(_)) => front,
            Ok(None) => front.push(
                SkippedChangeset {
                    changeset_id: last.changeset_id,
                    reason: SkipReason::MissingMapping,
                },
            ),
            Err(e) => front.push(
                SkippedChangeset { changeset_id: last.changeset_id, reason: SkipReason::Malformed(e) },
            ),
        }
    }
}

/// The bytes of the git hash and the changeset id of each entry.
pub open spec fn entry_keys(entries: Seq<BonsaiGitMappingEntry>) -> Seq<(Seq<u8>, ChangesetId)> {
    entries.map_values(|e: BonsaiGitMappingEntry| (e.git_sha1@, e.bcs_id))
}

/// Reads the extras of each commit and plans the import: a row for each commit that embeds
/// a git hash; the others are passed over, whatever the reason, and do not stop the import.
pub fn plan_import(changesets: &[BonsaiChangeset]) -> (plan: ImportPlan)
    ensures
        entry_keys(plan.entries@) == importable(changesets@),
        plan.skipped@ == not_importable(changesets@),
{
    let mut entries: Vec<BonsaiGitMappingEntry> = Vec::new();
    let mut skipped: Vec<SkippedChangeset> = Vec::new();
    let mut i: usize = 0;
    while i < changesets.len()
        invariant
            0 <= i <= changesets@.len(),
            entry_keys(entries@) == importable(changesets@.take(i as int)),
            skipped@ == not_importable(changesets@.take(i as int)),
        decreases changesets@.len() - i,
    {
        proof {
            assert(changesets@.take(i + 1).drop_last() =~= changesets@.take(i as int));
            assert(changesets@.take(i + 1).last() == changesets@[i as int]);
        }
        let bcs = &changesets[i];
        let ghost before = entries@;
        match extract_git_sha1_from_bonsai_extra(bcs.hg_extra()) {
            Ok(Some(git_sha1)) => {
                entries.push(BonsaiGitMappingEntry::new(git_sha1, bcs.get_changeset_id()));
                assert(entry_keys(entries@) =~= entry_keys(before).push(
                    (git_sha1@, bcs.changeset_id),
                ));
            },
            Ok(None) => {
                skipped.push(
                    SkippedChangeset {
                        changeset_id: bcs.get_changeset_id(),
                        reason: SkipReason::MissingMapping,
                    },
                );
            },
            Err(e) => {
                skipped.push(
                    SkippedChangeset {
                        changeset_id: bcs.get_changeset_id(),
                        reason: SkipReason::Malformed(e),
                    },
                );
            },
        }
        i += 1;
    }
    assert(changesets@.take(i as int) =~= changesets@);
    ImportPlan { entries, skipped }
}

} // verus!
