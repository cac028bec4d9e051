//! The association from changeset ids to git hashes that a batch lookup gives.

use vstd::prelude::*;
use crate::entry::BonsaiGitMappingEntry;
use crate::hash::{ChangesetId, GitSha1};

verus! {

/// The map that inserting the pairs one after the other gives: of two pairs with one key
/// the later counts.
pub open spec fn pairs_to_map(pairs: Seq<(ChangesetId, GitSha1)>) -> Map<ChangesetId, GitSha1>
    decreases pairs.len(),
{
    if pairs.len() == 0 {
        Map::empty()
    } else {
        pairs_to_map(pairs.drop_last()).insert(pairs.last().0, pairs.last().1)
    }
}

/// The map from the changeset id of each entry to its git hash: of two entries with one
/// changeset id the later counts.
pub open spec fn entries_to_map(entries: Seq<BonsaiGitMappingEntry>) -> Map<ChangesetId, GitSha1> {
    pairs_to_map(entries.map_values(|e: BonsaiGitMappingEntry| (e.bcs_id, e.git_sha1)))
}

/// No two of the pairs have the same key.
pub open spec fn distinct_keys(pairs: Seq<(ChangesetId, GitSha1)>) -> bool {
    forall|i: int, j: int|
        #![trigger pairs[i], pairs[j]]
        0 <= i < j < pairs.len() ==> pairs[i].0 != pairs[j].0
}

/// Of pairs with distinct keys the map holds exactly the pairs, and as many keys as there
/// are pairs.
pub proof fn lemma_pairs_to_map(pairs: Seq<(ChangesetId, GitSha1)>)
    requires
        distinct_keys(pairs),
    ensures
        forall|k: ChangesetId, v: GitSha1| #[trigger]
            pairs_to_map(pairs).contains_pair(k, v) <==> pairs.contains((k, v)),
        forall|k: ChangesetId| #[trigger]
            pairs_to_map(pairs).contains_key(k) <==> exists|i: int|
                0 <= i < pairs.len() && (#[trigger] pairs[i]).0 == k,
        pairs_to_map(pairs).dom().finite(),
        pairs_to_map(pairs).dom().len() == pairs.len(),
    decreases pairs.len(),
{
    let map = pairs_to_map(pairs);
    if pairs.len() == 0 {
        assert(map.dom() =~= Set::empty());
    } else {
        let front = pairs.drop_last();
        let last = pairs.last();
        assert(distinct_keys(front)) by {
            assert forall|i: int, j: int|
                #![trigger front[i], front[j]]
                0 <= i < j < front.len() implies front[i].0 != front[j].0 by {
                assert(pairs[i].0 != pairs[j].0);
            }
        }
        lemma_pairs_to_map(front);
        let m0 = pairs_to_map(front);
        assert(!m0.contains_key(last.0)) by {
            if m0.contains_key(last.0) {
                let i = choose|i: int| 0 <= i < front.len() && (#[trigger] front[i]).0 == last.0;
                assert(pairs[i].0 != pairs[pairs.len() - 1].0);
            }
        }
        assert(map.dom() =~= m0.dom().insert(last.0));
        assert forall|k: ChangesetId| #[trigger]
            map.contains_key(k) <==> exists|i: int|
                0 <= i < pairs.len() && (#[trigger] pairs[i]).0 == k by {
            if map.contains_key(k) {
                if k == last.0 {
                    assert(pairs[pairs.len() - 1].0 == k);
                } else {
                    assert(m0.contains_key(k));
                    let i = choose|i: int| 0 <= i < front.len() && (#[trigger] front[i]).0 == k;
                    assert(pairs[i].0 == k);
                }
            }
            if exists|i: int| 0 <= i < pairs.len() && (#[trigger] pairs[i]).0 == k {
                let i = choose|i: int| 0 <= i < pairs.len() && (#[trigger] pairs[i]).0 == k;
                if i < front.len() {
                    assert(front[i].0 == k);
                }
            }
        }
        assert forall|k: ChangesetId, v: GitSha1| #[trigger]
            map.contains_pair(k, v) <==> pairs.contains((k, v)) by {
            if map.contains_pair(k, v) {
                if k == last.0 {
                    assert(pairs[pairs.len() - 1] == (k, v));
                } else {
                    assert(m0.contains_pair(k, v));
                    let i = choose|i: int| 0 <= i < front.len() && front[i] == (k, v);
                    assert(pairs[i] == (k, v));
                }
            }
            if pairs.contains((k, v)) {
                let i = choose|i: int| 0 <= i < pairs.len() && pairs[i] == (k, v);
                if i < front.len() {
                    assert(front[i] == (k, v));
                    assert(m0.contains_pair(k, v));
                    assert(pairs[i].0 != pairs[pairs.len() - 1].0);
                }
            }
        }
    }
}

/// Writing a new value over the pair at `i` is inserting it under that pair's key.
pub proof fn lemma_pairs_to_map_update(pairs: Seq<(ChangesetId, GitSha1)>, i: int, value: GitSha1)
    requires
        distinct_keys(pairs),
        0 <= i < pairs.len(),
    ensures
        distinct_keys(pairs.update(i, (pairs[i].0, value))),
        pairs_to_map(pairs.update(i, (pairs[i].0, value))) == pairs_to_map(pairs).insert(
            pairs[i].0,
            value,
        ),
    decreases pairs.len(),
{
    let key = pairs[i].0;
    let updated = pairs.update(i, (key, value));
    assert(distinct_keys(updated)) by {
        assert forall|a: int, b: int|
            #![trigger updated[a], updated[b]]
            0 <= a < b < updated.len() implies updated[a].0 != updated[b].0 by {
            assert(pairs[a].0 != pairs[b].0);
        }
    }
    let front = pairs.drop_last();
    if i == pairs.len() - 1 {
        assert(updated.drop_last() =~= front);
        assert(pairs_to_map(updated) =~= pairs_to_map(pairs).insert(key, value));
    } else {
        assert(distinct_keys(front)) by {
            assert forall|a: int, b: int|
                #![trigger front[a], front[b]]
                0 <= a < b < front.len() implies front[a].0 != front[b].0 by {
                assert(pairs[a].0 != pairs[b].0);
            }
        }
        lemma_pairs_to_map_update(front, i, value);
        assert(updated.drop_last() =~= front.update(i, (key, value)));
        assert(pairs[i].0 != pairs[pairs.len() - 1].0);
        assert(pairs_to_map(updated) =~= pairs_to_map(pairs).insert(key, value));
    }
}

/// Of entries with distinct changeset ids the map holds exactly the entries.
pub proof fn lemma_entries_to_map(entries: Seq<BonsaiGitMappingEntry>)
    requires
        forall|i: int, j: int|
            #![trigger entries[i], entries[j]]
            0 <= i < j < entries.len() ==> entries[i].bcs_id != entries[j].bcs_id,
    ensures
        forall|bcs_id: ChangesetId, git_sha1: GitSha1| #[trigger]
            entries_to_map(entries).contains_pair(bcs_id, git_sha1) <==> entries.contains(
                BonsaiGitMappingEntry { git_sha1, bcs_id },
            ),
{
    let pairs = entries.map_values(|e: BonsaiGitMappingEntry| (e.bcs_id, e.git_sha1));
    assert(distinct_keys(pairs)) by {
        assert forall|i: int, j: int|
            #![trigger pairs[i], pairs[j]]
            0 <= i < j < pairs.len() implies pairs[i].0 != pairs[j].0 by {
            assert(entries[i].bcs_id != entries[j].bcs_id);
        }
    }
    lemma_pairs_to_map(pairs);
    assert forall|bcs_id: ChangesetId, git_sha1: GitSha1| #[trigger]
        entries_to_map(entries).contains_pair(bcs_id, git_sha1) <==> entries.contains(
            BonsaiGitMappingEntry { git_sha1, bcs_id },
        ) by {
        let e = BonsaiGitMappingEntry { git_sha1, bcs_id };
        if pairs.contains((bcs_id, git_sha1)) {
            let i = choose|i: int| 0 <= i < pairs.len() && pairs[i] == (bcs_id, git_sha1);
            assert(entries[i] == e);
        }
        if entries.contains(e) {
            let i = choose|i: int| 0 <= i < entries.len() && entries[i] == e;
            assert(pairs[i] == (bcs_id, git_sha1));
        }
    }
}

/// An association from changeset ids to git hashes, with each changeset id once.
#[derive(Clone, Debug)]
pub struct BonsaiToGitMap {
    pairs: Vec<(ChangesetId, GitSha1)>,
}

impl View for BonsaiToGitMap {
    type V = Map<ChangesetId, GitSha1>;

    closed spec fn view(&self) -> Map<ChangesetId, GitSha1> {
        pairs_to_map(self.pairs@)
    }
}

impl BonsaiToGitMap {
    /// The invariant: no changeset id stands twice.
    pub closed spec fn wf(&self) -> bool {
        distinct_keys(self.pairs@)
    }

    /// The association without pairs.
    pub fn new() -> (r: Self)
        ensures
            r.wf(),
            r@ == Map::<ChangesetId, GitSha1>::empty(),
    {
        BonsaiToGitMap { pairs: Vec::new() }
    }

    /// Where `key` stands among the pairs.
    fn position(&self, key: &ChangesetId) -> (r: Option<usize>)
        ensures
            match r {
                Some(i) => i < self.pairs@.len() && self.pairs@[i as int].0 == *key,
                None => forall|i: int|
                    0 <= i < self.pairs@.len() ==> (#[trigger] self.pairs@[i]).0 != *key,
            },
    {
        let mut i: usize = 0;
        while i < self.pairs.len()
            invariant
                0 <= i <= self.pairs@.len(),
                forall|j: int| 0 <= j < i ==> (#[trigger] self.pairs@[j]).0 != *key,
            decreases self.pairs@.len() - i,
        {
            if self.pairs[i].0.equals(key) {
                return Some(i);
            }
            i += 1;
        }
        None
    }

    /// Associates `value` with `key`, in place of what `key` had.
    pub fn insert(&mut self, key: ChangesetId, value: GitSha1)
        requires
            old(self).wf(),
        ensures
            final(self).wf(),
            final(self)@ == old(self)@.insert(key, value),
    {
        match self.position(&key) {
            Some(i) => {
                proof {
                    lemma_pairs_to_map_update(self.pairs@, i as int, value);
                }
                self.pairs[i] = (key, value);
            },
            None => {
                let ghost before = self.pairs@;
                self.pairs.push((key, value));
                proof {
                    assert(self.pairs@.drop_last() =~= before);
                    assert forall|a: int, b: int|
                        #![trigger self.pairs@[a], self.pairs@[b]]
                        0 <= a < b < self.pairs@.len() implies self.pairs@[a].0
                        != self.pairs@[b].0 by {
                        if b < before.len() {
                            assert(before[a].0 != before[b].0);
                        } else {
                            assert(before[a].0 != key);
                        }
                    }
                }
            },
        }
    }

    /// The association that inserting the entries one after the other gives.
    pub fn from_entries(entries: &Vec<BonsaiGitMappingEntry>) -> (r: Self)
        ensures
            r.wf(),
            r@ == entries_to_map(entries@),
    {
        let mut map = BonsaiToGitMap::new();
        let ghost all = entries@.map_values(|e: BonsaiGitMappingEntry| (e.bcs_id, e.git_sha1));
        let mut i: usize = 0;
        while i < entries.len()
            invariant
                0 <= i <= entries@.len(),
                all == entries@.map_values(|e: BonsaiGitMappingEntry| (e.bcs_id, e.git_sha1)),
                map.wf(),
                map@ == pairs_to_map(all.take(i as int)),
            decreases entries@.len() - i,
        {
            proof {
                assert(all.take(i + 1).drop_last() =~= all.take(i as int));
                assert(all.take(i + 1).last() == (
                    entries@[i as int].bcs_id,
                    entries@[i as int].git_sha1,
                ));
            }
            map.insert(entries[i].bcs_id, entries[i].git_sha1);
            i += 1;
        }
        assert(all.take(i as int) =~= all);
        map
    }

    /// The git hash that `key` is associated with.
    pub fn get(&self, key: &ChangesetId) -> (r: Option<GitSha1>)
        requires
            self.wf(),
        ensures
            r == if self@.contains_key(*key) {
                Some(self@[*key])
            } else {
                None
            },
    {
        proof {
            lemma_pairs_to_map(self.pairs@);
        }
        match self.position(key) {
            Some(i) => {
                assert(self.pairs@.contains((*key, self.pairs@[i as int].1))) by {
                    assert(self.pairs@[i as int] == (*key, self.pairs@[i as int].1));
                }
                assert(self@.contains_pair(*key, self.pairs@[i as int].1));
                Some(self.pairs[i].1)
            },
            None => None,
        }
    }

    /// The number of changeset ids that are associated with a git hash.
    pub fn len(&self) -> (n: usize)
        requires
            self.wf(),
        ensures
            self@.dom().finite(),
            n == self@.dom().len(),
    {
        proof {
            lemma_pairs_to_map(self.pairs@);
        }
        self.pairs.len()
    }

    /// The pairs of the association, each changeset id once.
    pub fn into_pairs(self) -> (pairs: Vec<(ChangesetId, GitSha1)>)
        requires
            self.wf(),
        ensures
            distinct_keys(pairs@),
            pairs_to_map(pairs@) == self@,
    {
        self.pairs
    }
}

} // verus!
