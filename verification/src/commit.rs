//! Commits, as far as history editing looks at them.

use vstd::prelude::*;

verus! {

/// The identifier of a commit: the bytes of its hash.
#[derive(Debug)]
pub struct CommitId {
    pub bytes: Vec<u8>,
}

/// What a [`CommitId`] stands for.
pub type Id = Seq<u8>;

impl View for CommitId {
    type V = Id;

    open spec fn view(&self) -> Id {
        self.bytes@
    }
}

impl CommitId {
    /// Wraps the bytes of a hash.
    pub fn new(bytes: Vec<u8>) -> (id: CommitId)
        ensures
            id@ == bytes@,
    {
        CommitId { bytes }
    }

    /// Tells whether two identifiers hold the same bytes.
    pub fn same(&self, other: &CommitId) -> (same: bool)
        ensures
            same == (self@ == other@),
    {
        if self.bytes.len() != other.bytes.len() {
            return false;
        }
        let mut i: usize = 0;
        while i < self.bytes.len()
            invariant
                i <= self.bytes.len(),
                self.bytes.len() == other.bytes.len(),
                forall|j: int| 0 <= j < i ==> self@[j] == other@[j],
            decreases self.bytes.len() - i,
        {
            if self.bytes[i] != other.bytes[i] {
                return false;
            }
            i += 1;
        }
        assert(self@ =~= other@);
        true
    }
}

impl Clone for CommitId {
    fn clone(&self) -> (copy: CommitId)
        ensures
            copy@ == self@,
    {
        let bytes = self.bytes.clone();
        assert(bytes@ =~= self.bytes@);
        CommitId { bytes }
    }
}

/// The identifiers that a list of [`CommitId`]s stands for.
pub open spec fn ids(list: Seq<CommitId>) -> Seq<Id> {
    list.map_values(|id: CommitId| id@)
}

/// Adding to a list adds to what it stands for.
pub proof fn lemma_ids_push(list: Seq<CommitId>, id: CommitId)
    ensures
        ids(list.push(id)) == ids(list).push(id@),
{
    assert(ids(list.push(id)) =~= ids(list).push(id@));
}

/// Copies a list of identifiers.
pub fn clone_ids(list: &Vec<CommitId>) -> (copy: Vec<CommitId>)
    ensures
        ids(copy@) == ids(list@),
{
    let mut copy: Vec<CommitId> = Vec::new();
    let mut i: usize = 0;
    while i < list.len()
        invariant
            i <= list.len(),
            ids(copy@) == ids(list@).take(i as int),
        decreases list.len() - i,
    {
        let id = list[i].clone();
        proof {
            lemma_ids_push(copy@, id);
        }
        copy.push(id);
        i += 1;
        assert(ids(copy@) =~= ids(list@).take(i as int));
    }
    assert(ids(list@).take(i as int) =~= ids(list@));
    copy
}

/// A commit: its identifier and those of its parents.
#[derive(Debug)]
pub struct Commit {
    pub id: CommitId,
    pub parent_ids: Vec<CommitId>,
}

/// What a [`Commit`] stands for.
#[verifier::ext_equal]
pub struct CommitView {
    pub id: Id,
    pub parent_ids: Seq<Id>,
}

impl View for Commit {
    type V = CommitView;

    open spec fn view(&self) -> CommitView {
        CommitView { id: self.id@, parent_ids: ids(self.parent_ids@) }
    }
}

impl Commit {
    /// Makes a commit out of its parts.
    pub fn new(id: CommitId, parent_ids: Vec<CommitId>) -> (commit: Commit)
        ensures
            commit@ == (CommitView { id: id@, parent_ids: ids(parent_ids@) }),
    {
        Commit { id, parent_ids }
    }
}

impl Clone for Commit {
    fn clone(&self) -> (copy: Commit)
        ensures
            copy@ == self@,
    {
        Commit { id: self.id.clone(), parent_ids: clone_ids(&self.parent_ids) }
    }
}

/// The commits that a list of [`Commit`]s stands for.
pub open spec fn commit_views(list: Seq<Commit>) -> Seq<CommitView> {
    list.map_values(|commit: Commit| commit@)
}

/// A list of commits stands for them one for one, with the bytes of each
/// identifier and all parents.
pub proof fn law_commits_one_for_one(list: Seq<Commit>, i: int)
    requires
        0 <= i < list.len(),
    ensures
        commit_views(list).len() == list.len(),
        commit_views(list)[i].id == list[i].id.bytes@,
        commit_views(list)[i].parent_ids.len() == list[i].parent_ids@.len(),
        forall|j: int|
            0 <= j < list[i].parent_ids@.len() ==> (#[trigger] commit_views(list)[i].parent_ids[j])
                == list[i].parent_ids@[j].bytes@,
{
}

} // verus!
