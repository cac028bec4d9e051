//! Converting batches of ids with the rows that a lookup returned.

use vstd::prelude::*;
use crate::entry::{BonsaiGitMappingEntry, BonsaisOrGitShas};
use crate::hash::{ChangesetId, GitSha1};

verus! {

/// The git hashes of `rows`, in their order.
pub open spec fn git_sha1s_of(rows: Seq<BonsaiGitMappingEntry>) -> Seq<GitSha1> {
    rows.map_values(|e: BonsaiGitMappingEntry| e.git_sha1)
}

/// The changeset ids of `rows`, in their order.
pub open spec fn bcs_ids_of(rows: Seq<BonsaiGitMappingEntry>) -> Seq<ChangesetId> {
    rows.map_values(|e: BonsaiGitMappingEntry| e.bcs_id)
}

/// The ids of `requested` that are not among `resolved`, each once, in the order in which
/// `requested` first names them.
pub open spec fn unresolved<K>(requested: Seq<K>, resolved: Seq<K>) -> Seq<K>
    decreases requested.len(),
{
    if requested.len() == 0 {
        Seq::empty()
    } else {
        let front = unresolved(requested.drop_last(), resolved);
        let id = requested.last();
        if resolved.contains(id) || front.contains(id) {
            front
        } else {
            front.push(id)
        }
    }
}

/// `unresolved` names nothing twice, and names exactly the requested ids that are not resolved.
pub proof fn lemma_unresolved<K>(requested: Seq<K>, resolved: Seq<K>)
    ensures
        unresolved(requested, resolved).no_duplicates(),
        forall|id: K| #[trigger]
            unresolved(requested, resolved).contains(id) <==> requested.contains(id)
                && !resolved.contains(id),
    decreases requested.len(),
{
    let out = unresolved(requested, resolved);
    if requested.len() > 0 {
        let front_in = requested.drop_last();
        let front = unresolved(front_in, resolved);
        let last = requested.last();
        lemma_unresolved(front_in, resolved);
        assert forall|id: K| #[trigger] out.contains(id) <==> requested.contains(id)
            && !resolved.contains(id) by {
            if out.contains(id) {
                if front.contains(id) {
                    let k = choose|k: int| 0 <= k < front_in.len() && front_in[k] == id;
                    assert(requested[k] == id);
                } else {
                    let k = choose|k: int| 0 <= k < out.len() && out[k] == id;
                    assert(k == front.len());
                    assert(requested[requested.len() - 1] == id);
                }
            }
            if requested.contains(id) && !resolved.contains(id) {
                let k = choose|k: int| 0 <= k < requested.len() && requested[k] == id;
                if k < front_in.len() {
                    assert(front_in[k] == id);
                    assert(front.contains(id));
                    let j = choose|j: int| 0 <= j < front.len() && front[j] == id;
                    assert(out[j] == id);
                } else {
                    if front.contains(id) {
                        let j = choose|j: int| 0 <= j < front.len() && front[j] == id;
                        assert(out[j] == id);
                    } else {
                        assert(out[front.len() as int] == id);
                    }
                }
            }
        }
    }
}

/// Whether `ids` holds `id`.
pub fn contains_git_sha1(ids: &Vec<GitSha1>, id: &GitSha1) -> (r: bool)
    ensures
        r == ids@.contains(*id),
{
    let mut i: usize = 0;
    while i < ids.len()
        invariant
            0 <= i <= ids@.len(),
            forall|j: int| 0 <= j < i ==> ids@[j] != *id,
        decreases ids@.len() - i,
    {
        if ids[i].equals(id) {
            return true;
        }
        i += 1;
    }
    false
}

/// Whether `ids` holds `id`.
pub fn contains_bcs_id(ids: &Vec<ChangesetId>, id: &ChangesetId) -> (r: bool)
    ensures
        r == ids@.contains(*id),
{
    let mut i: usize = 0;
    while i < ids.len()
        invariant
            0 <= i <= ids@.len(),
            forall|j: int| 0 <= j < i ==> ids@[j] != *id,
        decreases ids@.len() - i,
    {
        if ids[i].equals(id) {
            return true;
        }
        i += 1;
    }
    false
}

/// The changeset ids of the rows, in their order.
pub fn to_bcs_ids(rows: &Vec<BonsaiGitMappingEntry>) -> (ids: Vec<ChangesetId>)
    ensures
        ids@ == bcs_ids_of(rows@),
{
    let mut ids: Vec<ChangesetId> = Vec::with_capacity(rows.len());
    let mut i: usize = 0;
    while i < rows.len()
        invariant
            0 <= i <= rows@.len(),
            ids@.len() == i,
            forall|j: int| 0 <= j < i ==> ids@[j] == rows@[j].bcs_id,
        decreases rows@.len() - i,
    {
        ids.push(rows[i].bcs_id);
        i += 1;
    }
    assert(ids@ =~= bcs_ids_of(rows@));
    ids
}

/// The git hashes of the rows, in their order.
pub fn to_git_sha1s(rows: &Vec<BonsaiGitMappingEntry>) -> (ids: Vec<GitSha1>)
    ensures
        ids@ == git_sha1s_of(rows@),
{
    let mut ids: Vec<GitSha1> = Vec::with_capacity(rows.len());
    let mut i: usize = 0;
    while i < rows.len()
        invariant
            0 <= i <= rows@.len(),
            ids@.len() == i,
            forall|j: int| 0 <= j < i ==> ids@[j] == rows@[j].git_sha1,
        decreases rows@.len() - i,
    {
        ids.push(rows[i].git_sha1);
        i += 1;
    }
    assert(ids@ =~= git_sha1s_of(rows@));
    ids
}

/// The git hashes of `requested` for which `rows` holds no row, each once.
pub fn missing_git_sha1s(requested: &Vec<GitSha1>, rows: &Vec<BonsaiGitMappingEntry>) -> (missing:
    Vec<GitSha1>)
    ensures
        missing@ == unresolved(requested@, git_sha1s_of(rows@)),
{
    let resolved = to_git_sha1s(rows);
    let mut missing: Vec<GitSha1> = Vec::new();
    let mut i: usize = 0;
    while i < requested.len()
        invariant
            0 <= i <= requested@.len(),
            resolved@ == git_sha1s_of(rows@),
            missing@ == unresolved(requested@.take(i as int), resolved@),
        decreases requested@.len() - i,
    {
        proof {
            assert(requested@.take(i + 1).drop_last() =~= requested@.take(i as int));
        }
        let id = requested[i];
        if !contains_git_sha1(&resolved, &id) && !contains_git_sha1(&missing, &id) {
            missing.push(id);
        }
        i += 1;
    }
    assert(requested@.take(i as int) =~= requested@);
    missing
}

/// The changeset ids of `requested` for which `rows` holds no row, each once.
pub fn missing_bcs_ids(requested: &Vec<ChangesetId>, rows: &Vec<BonsaiGitMappingEntry>) -> (missing:
    Vec<ChangesetId>)
    ensures
        missing@ == unresolved(requested@, bcs_ids_of(rows@)),
{
    let resolved = to_bcs_ids(rows);
    let mut missing: Vec<ChangesetId> = Vec::new();
    let mut i: usize = 0;
    while i < requested.len()
        invariant
            0 <= i <= requested@.len(),
            resolved@ == bcs_ids_of(rows@),
            missing@ == unresolved(requested@.take(i as int), resolved@),
        decreases requested@.len() - i,
    {
        proof {
            assert(requested@.take(i + 1).drop_last() =~= requested@.take(i as int));
        }
        let id = requested[i];
        if !contains_bcs_id(&resolved, &id) && !contains_bcs_id(&missing, &id) {
            missing.push(id);
        }
        i += 1;
    }
    assert(requested@.take(i as int) =~= requested@);
    missing
}

/// Converts all of `git_sha1s` with the rows that a lookup of them returned: to the
/// changeset ids of the rows, unless some hash has no row.
pub fn all_git_to_bonsai(git_sha1s: &Vec<GitSha1>, rows: &Vec<BonsaiGitMappingEntry>) -> (r:
    Result<Vec<ChangesetId>, BonsaisOrGitShas>)
    ensures
        match r {
            Ok(ids) => unresolved(git_sha1s@, git_sha1s_of(rows@)).len() == 0 && ids@
                == bcs_ids_of(rows@),
            Err(missing) => missing matches BonsaisOrGitShas::GitSha1(ids) && ids@.len() > 0
                && ids@ == unresolved(git_sha1s@, git_sha1s_of(rows@)),
        },
{
    let missing = missing_git_sha1s(git_sha1s, rows);
    if missing.len() == 0 {
        Ok(to_bcs_ids(rows))
    } else {
        Err(BonsaisOrGitShas::GitSha1(missing))
    }
}

/// Converts all of `bcs_ids` with the rows that a lookup of them returned: to the git
/// hashes of the rows, unless some changeset id has no row.
pub fn all_bonsai_to_git(bcs_ids: &Vec<ChangesetId>, rows: &Vec<BonsaiGitMappingEntry>) -> (r:
    Result<Vec<GitSha1>, BonsaisOrGitShas>)
    ensures
        match r {
            Ok(ids) => unresolved(bcs_ids@, bcs_ids_of(rows@)).len() == 0 && ids@ == git_sha1s_of(
                rows@,
            ),
            Err(missing) => missing matches BonsaisOrGitShas::Bonsai(ids) && ids@.len() > 0 && ids@
                == unresolved(bcs_ids@, bcs_ids_of(rows@)),
        },
{
    let missing = missing_bcs_ids(bcs_ids, rows);
    if missing.len() == 0 {
        Ok(to_git_sha1s(rows))
    } else {
        Err(BonsaisOrGitShas::Bonsai(missing))
    }
}

} // verus!
