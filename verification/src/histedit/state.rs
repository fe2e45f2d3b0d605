//! The commits under edit and how they hang together.

use vstd::prelude::*;

use crate::commit::Commit;
use crate::commit::CommitId;
use crate::commit::CommitView;
use crate::commit::Id;
use crate::commit::clone_ids;
use crate::commit::commit_views;
use crate::commit::ids;
use crate::commit::lemma_ids_push;
use crate::dag_walk;
use crate::dag_walk::Graph;
use crate::dag_walk::closed;
use crate::dag_walk::edge;
use crate::dag_walk::is_head;
use crate::dag_walk::on_cycle;
use crate::dag_walk::reached;
use crate::dag_walk::topo_order;
use crate::id_map::IdMap;
use crate::id_map::IdSet;
use crate::id_map::id_lists;

verus! {

/// What a history editor knows of the commits that it edits.
pub struct State {
    pub commits: IdMap<Commit>,
    /// The commits in the order in which they were given.
    pub original_order: Vec<CommitId>,
    /// The commits in the order in which they are shown.
    pub current_order: Vec<CommitId>,
    pub parents: IdMap<Vec<CommitId>>,
    pub children: IdMap<Vec<CommitId>>,
    /// Parents of the commits that are not edited themselves.
    pub external_parents: IdSet,
    /// Children of the commits that are not edited themselves.
    pub external_children: IdSet,
}

/// What a [`State`] stands for.
#[verifier::ext_equal]
pub struct StateView {
    pub commits: Map<Id, CommitView>,
    pub original_order: Seq<Id>,
    pub current_order: Seq<Id>,
    pub parents: Map<Id, Seq<Id>>,
    pub children: Map<Id, Seq<Id>>,
    pub external_parents: Set<Id>,
    pub external_children: Set<Id>,
}

impl View for State {
    type V = StateView;

    open spec fn view(&self) -> StateView {
        StateView {
            commits: self.commits@.map_values(|commit: Commit| commit@),
            original_order: ids(self.original_order@),
            current_order: ids(self.current_order@),
            parents: id_lists(self.parents@),
            children: id_lists(self.children@),
            external_parents: self.external_parents@,
            external_children: self.external_children@,
        }
    }
}

impl StateView {
    /// Both orders name commits under edit, the original one all of them, and
    /// the parents and children of each are known.
    pub open spec fn wf(self) -> bool {
        &&& self.commits.dom().finite()
        &&& self.original_order.to_set() == self.commits.dom()
        &&& self.current_order.to_set().subset_of(self.commits.dom())
        &&& self.parents.dom() == self.commits.dom()
        &&& self.children.dom() == self.commits.dom()
    }

    /// The edited commits with those of their parents that are edited too.
    pub open spec fn graph(self) -> Graph {
        self.parents.map_values(
            |list: Seq<Id>| list.filter(|id: Id| self.commits.contains_key(id)),
        )
    }

    /// The edited commits without an edited child, in the original order.
    pub open spec fn heads(self) -> Seq<Id> {
        self.original_order.filter(|id: Id| is_head(self.graph(), id))
    }

    /// No commit is an ancestor of itself.
    pub open spec fn acyclic(self) -> bool {
        forall|id: Id| !#[trigger] on_cycle(self.graph(), id)
    }

    /// The state with its commits put in order.
    pub open spec fn reordered(self) -> StateView {
        StateView { current_order: topo_order(self.graph(), self.heads()), ..self }
    }
}

/// The commits of a list by identifier. Of two with the same one the later
/// counts.
pub open spec fn commit_map(commits: Seq<CommitView>) -> Map<Id, CommitView>
    decreases commits.len(),
{
    if commits.len() == 0 {
        Map::empty()
    } else {
        commit_map(commits.drop_last()).insert(commits.last().id, commits.last())
    }
}

/// The identifiers of a list of commits.
pub open spec fn commit_ids(commits: Seq<CommitView>) -> Seq<Id> {
    commits.map_values(|commit: CommitView| commit.id)
}

/// The members of a list, each where it comes first.
pub open spec fn distinct(list: Seq<Id>) -> Seq<Id>
    decreases list.len(),
{
    if list.len() == 0 {
        Seq::empty()
    } else {
        let front = distinct(list.drop_last());
        if front.contains(list.last()) {
            front
        } else {
            front.push(list.last())
        }
    }
}

/// The commits of a list, each once, from the last to the first.
pub open spec fn from_last(commits: Seq<CommitView>) -> Seq<CommitView> {
    distinct(commit_ids(commits)).reverse().map_values(|id: Id| commit_map(commits)[id])
}

/// The pairs of a commit and a parent of it, commit by commit.
pub open spec fn parent_pairs(commits: Seq<CommitView>) -> Seq<(Id, Id)>
    decreases commits.len(),
{
    if commits.len() == 0 {
        Seq::empty()
    } else {
        parent_pairs(commits.drop_last()) + commits.last().parent_ids.map_values(
            |parent: Id| (commits.last().id, parent),
        )
    }
}

/// The commits that are paired with the parent `id`, in the order of the
/// pairs.
pub open spec fn children_in(pairs: Seq<(Id, Id)>, id: Id) -> Seq<Id>
    decreases pairs.len(),
{
    if pairs.len() == 0 {
        Seq::empty()
    } else {
        let front = children_in(pairs.drop_last(), id);
        if pairs.last().1 == id {
            front.push(pairs.last().0)
        } else {
            front
        }
    }
}

spec fn children_map(dom: Set<Id>, pairs: Seq<(Id, Id)>) -> Map<Id, Seq<Id>> {
    Map::new(|id: Id| dom.contains(id), |id: Id| children_in(pairs, id))
}

spec fn outer_parents(dom: Set<Id>, pairs: Seq<(Id, Id)>) -> Set<Id> {
    Set::new(|id: Id| !dom.contains(id) && has_parent(pairs, id))
}

spec fn has_parent(pairs: Seq<(Id, Id)>, id: Id) -> bool {
    exists|i: int| 0 <= i < pairs.len() && (#[trigger] pairs[i]).1 == id
}

/// What is known of commits that are yet to be edited. A commit's children are
/// those among the commits, from the last given to the first, and then those
/// among the external children.
pub open spec fn fresh(commits: Seq<CommitView>, external_children: Seq<CommitView>) -> StateView {
    let map = commit_map(commits);
    let pairs = parent_pairs(from_last(commits)) + parent_pairs(external_children);
    StateView {
        commits: map,
        original_order: commit_ids(commits),
        current_order: commit_ids(commits),
        parents: map.map_values(|commit: CommitView| commit.parent_ids),
        children: Map::new(|id: Id| map.contains_key(id), |id: Id| children_in(pairs, id)),
        external_parents: Set::new(
            |id: Id|
                !map.contains_key(id) && exists|child: Id|
                    map.contains_key(child) && (#[trigger] map[child]).parent_ids.contains(id),
        ),
        external_children: commit_ids(external_children).to_set(),
    }
}

proof fn lemma_pair_added(dom: Set<Id>, pairs: Seq<(Id, Id)>, child: Id, parent: Id)
    ensures
        dom.contains(parent) ==> children_map(dom, pairs.push((child, parent))) == children_map(
            dom,
            pairs,
        ).insert(parent, children_map(dom, pairs)[parent].push(child)),
        dom.contains(parent) ==> outer_parents(dom, pairs.push((child, parent))) == outer_parents(
            dom,
            pairs,
        ),
        !dom.contains(parent) ==> children_map(dom, pairs.push((child, parent))) == children_map(
            dom,
            pairs,
        ),
        !dom.contains(parent) ==> outer_parents(dom, pairs.push((child, parent)))
            == outer_parents(dom, pairs).insert(parent),
{
    let more = pairs.push((child, parent));
    assert(more.drop_last() =~= pairs);
    assert(more.last() == (child, parent));
    assert forall|id: Id| children_in(more, id) == if id == parent {
        children_in(pairs, id).push(child)
    } else {
        children_in(pairs, id)
    } by {}
    assert forall|id: Id| has_parent(more, id) <==> has_parent(pairs, id) || id == parent by {
        if has_parent(pairs, id) {
            let i = choose|i: int| 0 <= i < pairs.len() && (#[trigger] pairs[i]).1 == id;
            assert(more[i].1 == id);
        }
        if id == parent {
            assert(more[pairs.len() as int].1 == id);
        }
    }
    if dom.contains(parent) {
        assert(children_map(dom, more) =~= children_map(dom, pairs).insert(
            parent,
            children_map(dom, pairs)[parent].push(child),
        ));
        assert(outer_parents(dom, more) =~= outer_parents(dom, pairs));
    } else {
        assert(children_map(dom, more) =~= children_map(dom, pairs));
        assert(outer_parents(dom, more) =~= outer_parents(dom, pairs).insert(parent));
    }
}

/// The distinct members of a list are its members.
proof fn lemma_distinct(list: Seq<Id>)
    ensures
        distinct(list).no_duplicates(),
        distinct(list).to_set() == list.to_set(),
    decreases list.len(),
{
    if list.len() > 0 {
        let front = list.drop_last();
        lemma_distinct(front);
        assert(list =~= front.push(list.last()));
        front.lemma_push_to_set_commute(list.last());
        let rest = distinct(front);
        if rest.contains(list.last()) {
            assert(rest.to_set().contains(list.last()));
            assert(front.to_set().insert(list.last()) =~= front.to_set());
        } else {
            rest.lemma_push_to_set_commute(list.last());
        }
    } else {
        assert(distinct(list).to_set() =~= list.to_set());
    }
}

/// The keys of the map are the identifiers of the commits.
proof fn lemma_commit_map(commits: Seq<CommitView>)
    ensures
        commit_map(commits).dom().finite(),
        commit_map(commits).dom() == commit_ids(commits).to_set(),
        forall|id: Id| #[trigger]
            commit_map(commits).contains_key(id) ==> commit_map(commits)[id].id == id,
    decreases commits.len(),
{
    if commits.len() > 0 {
        let front = commits.drop_last();
        lemma_commit_map(front);
        assert(commit_ids(commits) =~= commit_ids(front).push(commits.last().id));
        commit_ids(front).lemma_push_to_set_commute(commits.last().id);
        assert(commit_map(commits).dom() =~= commit_ids(commits).to_set());
    } else {
        assert(commit_map(commits).dom() =~= commit_ids(commits).to_set());
    }
}

/// A commit is paired with its parents and with nothing else.
proof fn lemma_parent_pairs(commits: Seq<CommitView>)
    ensures
        forall|id: Id| #[trigger]
            has_parent(parent_pairs(commits), id) <==> exists|i: int|
                0 <= i < commits.len() && (#[trigger] commits[i]).parent_ids.contains(id),
        forall|child: Id, id: Id| #[trigger]
            children_in(parent_pairs(commits), id).contains(child) <==> exists|i: int|
                0 <= i < commits.len() && (#[trigger] commits[i]).id == child
                    && commits[i].parent_ids.contains(id),
    decreases commits.len(),
{
    let pairs = parent_pairs(commits);
    lemma_children_in(pairs);
    if commits.len() > 0 {
        let front = commits.drop_last();
        let last = commits.last();
        let before = parent_pairs(front);
        let added = last.parent_ids.map_values(|parent: Id| (last.id, parent));
        lemma_parent_pairs(front);
        lemma_children_in(before);
        assert(pairs == before + added);
        assert(commits[commits.len() - 1] == last);
        assert forall|child: Id, id: Id| paired(pairs, child, id) <==> paired(before, child, id) || (
        child == last.id && last.parent_ids.contains(id)) by {
            if paired(before, child, id) {
                let i = choose|i: int| 0 <= i < before.len() && #[trigger] before[i] == (child, id);
                assert(pairs[i] == (child, id));
            }
            if child == last.id && last.parent_ids.contains(id) {
                let k = last.parent_ids.index_of(id);
                assert(pairs[before.len() + k] == (child, id));
            }
            if paired(pairs, child, id) {
                let i = choose|i: int| 0 <= i < pairs.len() && #[trigger] pairs[i] == (child, id);
                if i < before.len() {
                    assert(before[i] == (child, id));
                } else {
                    assert(last.parent_ids[i - before.len()] == id);
                }
            }
        }
        assert forall|child: Id, id: Id| #[trigger]
            children_in(pairs, id).contains(child) <==> exists|i: int|
                0 <= i < commits.len() && (#[trigger] commits[i]).id == child
                    && commits[i].parent_ids.contains(id) by {
            assert(children_in(pairs, id).contains(child) <==> paired(pairs, child, id));
            assert(children_in(before, id).contains(child) <==> paired(before, child, id));
            if paired(before, child, id) {
                let i = choose|i: int|
                    0 <= i < front.len() && (#[trigger] front[i]).id == child
                        && front[i].parent_ids.contains(id);
                assert(commits[i].id == child);
            }
            if exists|i: int|
                0 <= i < commits.len() && (#[trigger] commits[i]).id == child
                    && commits[i].parent_ids.contains(id) {
                let i = choose|i: int|
                    0 <= i < commits.len() && (#[trigger] commits[i]).id == child
                        && commits[i].parent_ids.contains(id);
                if i < front.len() {
                    assert(front[i].id == child);
                }
            }
        }
        assert forall|id: Id| #[trigger] has_parent(pairs, id) <==> exists|i: int|
            0 <= i < commits.len() && (#[trigger] commits[i]).parent_ids.contains(id) by {
            if has_parent(pairs, id) {
                let k = choose|k: int| 0 <= k < pairs.len() && (#[trigger] pairs[k]).1 == id;
                assert(paired(pairs, pairs[k].0, id));
                assert(children_in(pairs, id).contains(pairs[k].0));
            }
            if exists|i: int|
                0 <= i < commits.len() && (#[trigger] commits[i]).parent_ids.contains(id) {
                let i = choose|i: int|
                    0 <= i < commits.len() && (#[trigger] commits[i]).parent_ids.contains(id);
                assert(children_in(pairs, id).contains(commits[i].id));
                assert(paired(pairs, commits[i].id, id));
                let k = choose|k: int|
                    0 <= k < pairs.len() && #[trigger] pairs[k] == (commits[i].id, id);
                assert(pairs[k].1 == id);
            }
        }
    }
}

spec fn paired(pairs: Seq<(Id, Id)>, child: Id, id: Id) -> bool {
    exists|i: int| 0 <= i < pairs.len() && #[trigger] pairs[i] == (child, id)
}

proof fn lemma_children_in(pairs: Seq<(Id, Id)>)
    ensures
        forall|child: Id, id: Id| #[trigger]
            children_in(pairs, id).contains(child) <==> paired(pairs, child, id),
    decreases pairs.len(),
{
    if pairs.len() > 0 {
        let front = pairs.drop_last();
        lemma_children_in(front);
        assert forall|child: Id, id: Id| #[trigger]
            children_in(pairs, id).contains(child) <==> paired(pairs, child, id) by {
            let before = children_in(front, id);
            let after = children_in(pairs, id);
            assert(before.contains(child) <==> paired(front, child, id));
            if after.contains(child) {
                let k = after.index_of(child);
                if k < before.len() {
                    assert(before[k] == child);
                    let i = choose|i: int| 0 <= i < front.len() && #[trigger] front[i] == (child, id);
                    assert(pairs[i] == (child, id));
                } else {
                    assert(pairs[pairs.len() - 1] == (child, id));
                }
            }
            if paired(pairs, child, id) {
                let i = choose|i: int| 0 <= i < pairs.len() && #[trigger] pairs[i] == (child, id);
                if i < front.len() {
                    assert(front[i] == (child, id));
                    assert(after[before.index_of(child)] == child);
                } else {
                    assert(after[before.len() as int] == child);
                }
            }
        }
    }
}

impl State {
    /// The invariant of the state.
    pub open spec fn wf(self) -> bool {
        &&& self.commits.wf()
        &&& self.parents.wf()
        &&& self.children.wf()
        &&& self.external_parents.wf()
        &&& self.external_children.wf()
        &&& self@.wf()
    }

    /// Gets ready to edit `commits`. The commits in `external_children` are
    /// children of theirs that are not edited.
    pub fn new(commits: Vec<Commit>, external_children: Vec<Commit>) -> (state: State)
        ensures
            state.wf(),
            state@ == fresh(commit_views(commits@), commit_views(external_children@)),
    {
        let ghost given = commit_views(commits@);
        let ghost outside = commit_views(external_children@);
        let (map, original_order) = index_commits(&commits);
        let ghost dom = commit_map(given).dom();
        let (mut parents, mut children) = without_children(&map);
        let mut external_parents = IdSet::new();
        let ghost mut pairs: Seq<(Id, Id)> = Seq::empty();
        let ghost views = map@.map_values(|commit: Commit| commit@);
        let ghost walked = from_last(given);
        proof {
            lemma_commit_map(given);
            map.lemma_keys();
            assert(views.dom() =~= map@.dom());
            assert(children_map(dom, pairs) =~= id_lists(children@));
            assert(outer_parents(dom, pairs) =~= Set::<Id>::empty());
            assert(walked.take(0) =~= Seq::<CommitView>::empty());
        }
        let mut i: usize = map.len();
        while i > 0
            invariant
                i <= map.keys().len(),
                map.wf(),
                children.wf(),
                external_parents.wf(),
                views == map@.map_values(|commit: Commit| commit@),
                views == commit_map(given),
                dom == views.dom(),
                map.keys() == distinct(commit_ids(given)),
                walked == from_last(given),
                pairs == parent_pairs(walked.take(map.keys().len() - i)),
                id_lists(children@) == children_map(dom, pairs),
                external_parents@ == outer_parents(dom, pairs),
            decreases i,
        {
            i -= 1;
            let ghost done = map.keys().len() - i - 1;
            let commit: &Commit = map.value_at(i);
            let id: &CommitId = map.key_at(i);
            proof {
                lemma_commit_map(given);
                assert(walked[done] == commit@);
                assert(commit_map(given).contains_key(id@));
                assert(commit@.id == id@);
                assert(walked.take(done + 1).drop_last() =~= walked.take(done));
            }
            let ghost before = pairs;
            let ghost added = commit@.parent_ids.map_values(|parent: Id| (commit@.id, parent));
            proof {
                assert(before + added.take(0) =~= before);
            }
            let mut j: usize = 0;
            while j < commit.parent_ids.len()
                invariant
                    j <= commit.parent_ids.len(),
                    map.wf(),
                    children.wf(),
                    external_parents.wf(),
                    dom == map@.dom(),
                    id@ == commit@.id,
                    added == commit@.parent_ids.map_values(|parent: Id| (commit@.id, parent)),
                    pairs == before + added.take(j as int),
                    id_lists(children@) == children_map(dom, pairs),
                    external_parents@ == outer_parents(dom, pairs),
                decreases commit.parent_ids.len() - j,
            {
                let parent: &CommitId = &commit.parent_ids[j];
                proof {
                    lemma_pair_added(dom, pairs, id@, parent@);
                }
                if map.contains_key(parent) {
                    assert(id_lists(children@).dom() =~= children@.dom());
                    children.push_to(parent, id.clone());
                } else {
                    external_parents.insert(parent.clone());
                }
                proof {
                    pairs = pairs.push((id@, parent@));
                    assert(pairs =~= before + added.take(j + 1));
                }
                j += 1;
            }
            proof {
                assert(added.take(j as int) =~= added);
                assert(walked.take(done + 1).last() == commit@);
                assert(pairs == parent_pairs(walked.take(done + 1)));
            }
        }
        let ghost inner = pairs;
        proof {
            assert(walked.take(map.keys().len() - i) =~= walked);
            assert(inner + parent_pairs(outside.take(0)) =~= inner) by {
                assert(outside.take(0) =~= Seq::<CommitView>::empty());
            }
        }
        let mut child_ids = IdSet::new();
        let mut k: usize = 0;
        assert(commit_ids(outside).take(0).to_set() =~= Set::<Id>::empty());
        while k < external_children.len()
            invariant
                k <= external_children.len(),
                map.wf(),
                children.wf(),
                child_ids.wf(),
                dom == map@.dom(),
                outside == commit_views(external_children@),
                pairs == inner + parent_pairs(outside.take(k as int)),
                id_lists(children@) == children_map(dom, pairs),
                child_ids@ == commit_ids(outside).take(k as int).to_set(),
            decreases external_children.len() - k,
        {
            let child: &Commit = &external_children[k];
            let ghost before = pairs;
            let ghost added = child@.parent_ids.map_values(|parent: Id| (child@.id, parent));
            proof {
                assert(before + added.take(0) =~= before);
            }
            let mut j: usize = 0;
            while j < child.parent_ids.len()
                invariant
                    j <= child.parent_ids.len(),
                    map.wf(),
                    children.wf(),
                    dom == map@.dom(),
                    added == child@.parent_ids.map_values(|parent: Id| (child@.id, parent)),
                    pairs == before + added.take(j as int),
                    id_lists(children@) == children_map(dom, pairs),
                decreases child.parent_ids.len() - j,
            {
                let parent: &CommitId = &child.parent_ids[j];
                proof {
                    lemma_pair_added(dom, pairs, child.id@, parent@);
                }
                if map.contains_key(parent) {
                    assert(id_lists(children@).dom() =~= children@.dom());
                    children.push_to(parent, child.id.clone());
                }
                proof {
                    pairs = pairs.push((child.id@, parent@));
                    assert(pairs =~= before + added.take(j + 1));
                }
                j += 1;
            }
            proof {
                let more = outside.take(k + 1);
                assert(added.take(j as int) =~= added);
                assert(more.drop_last() =~= outside.take(k as int));
                assert(more.last() == child@);
                assert(pairs =~= inner + parent_pairs(more));
                let known = commit_ids(outside).take(k as int);
                known.lemma_push_to_set_commute(child.id@);
                assert(commit_ids(outside).take(k + 1) =~= known.push(child.id@));
            }
            child_ids.insert(child.id.clone());
            k += 1;
        }
        let current_order = clone_ids(&original_order);
        proof {
            assert(outside.take(k as int) =~= outside);
            assert(commit_ids(outside).take(k as int) =~= commit_ids(outside));
            lemma_parent_pairs(walked);
            let expected = fresh(given, outside);
            lemma_distinct(commit_ids(given));
            lemma_outer_parents(given, outside);
            assert(id_lists(children@) =~= expected.children);
        }
        let state = State {
            commits: map,
            original_order,
            current_order,
            parents,
            children,
            external_parents,
            external_children: child_ids,
        };
        proof {
            let expected = fresh(given, outside);
            assert(state@.commits =~= expected.commits);
            assert(state@.parents =~= expected.parents);
            assert(state@.original_order =~= expected.original_order);
            assert(state@ =~= expected);
        }
        state
    }
}

/// The parents of the commits that are not among them.
proof fn lemma_outer_parents(commits: Seq<CommitView>, external_children: Seq<CommitView>)
    ensures
        outer_parents(commit_map(commits).dom(), parent_pairs(from_last(commits))) == fresh(
            commits,
            external_children,
        ).external_parents,
{
    let expected = fresh(commits, external_children).external_parents;
    let map = commit_map(commits);
    let walked = from_last(commits);
    let order = distinct(commit_ids(commits));
    lemma_commit_map(commits);
    lemma_distinct(commit_ids(commits));
    lemma_parent_pairs(walked);
    assert forall|id: Id|
        outer_parents(map.dom(), parent_pairs(walked)).contains(id) <==> #[trigger] expected.contains(
            id,
        ) by {
        if has_parent(parent_pairs(walked), id) {
            let i = choose|i: int|
                0 <= i < walked.len() && (#[trigger] walked[i]).parent_ids.contains(id);
            let child = order[order.len() - 1 - i];
            assert(order.to_set().contains(child));
            assert(walked[i] == map[child]);
            assert(map.contains_key(child));
        }
        if exists|child: Id|
            map.contains_key(child) && (#[trigger] map[child]).parent_ids.contains(id) {
            let child = choose|child: Id|
                map.contains_key(child) && (#[trigger] map[child]).parent_ids.contains(id);
            assert(order.to_set().contains(child));
            let i = order.len() - 1 - order.index_of(child);
            assert(walked[i] == map[child]);
        }
    }
    assert(outer_parents(map.dom(), parent_pairs(walked)) =~= expected);
}

/// Puts commits in a map, and their identifiers in a list.
fn index_commits(commits: &Vec<Commit>) -> (index: (IdMap<Commit>, Vec<CommitId>))
    ensures
        index.0.wf(),
        index.0@.map_values(|commit: Commit| commit@) == commit_map(commit_views(commits@)),
        index.0.keys() == distinct(commit_ids(commit_views(commits@))),
        ids(index.1@) == commit_ids(commit_views(commits@)),
{
    let ghost given = commit_views(commits@);
    let mut map: IdMap<Commit> = IdMap::new();
    let mut order: Vec<CommitId> = Vec::new();
    proof {
        assert(given.take(0) =~= Seq::<CommitView>::empty());
        assert(commit_ids(given.take(0)) =~= Seq::<Id>::empty());
        assert(map@.map_values(|commit: Commit| commit@) =~= commit_map(given.take(0)));
        assert(ids(order@) =~= commit_ids(given.take(0)));
    }
    let mut i: usize = 0;
    while i < commits.len()
        invariant
            i <= commits.len(),
            map.wf(),
            given == commit_views(commits@),
            map@.map_values(|commit: Commit| commit@) == commit_map(given.take(i as int)),
            map.keys() == distinct(commit_ids(given.take(i as int))),
            ids(order@) == commit_ids(given.take(i as int)),
        decreases commits.len() - i,
    {
        let commit = commits[i].clone();
        let id = commit.id.clone();
        let ghost more = given.take(i + 1);
        let ghost before = map@;
        proof {
            map.lemma_keys();
            assert(more.drop_last() =~= given.take(i as int));
            assert(more.last() == commit@);
            assert(commit_ids(more) =~= commit_ids(given.take(i as int)).push(id@));
            assert(commit_ids(more).drop_last() =~= commit_ids(given.take(i as int)));
            assert(before.contains_key(id@) == map.keys().contains(id@));
            lemma_ids_push(order@, id);
        }
        map.insert(commit.id.clone(), commit);
        order.push(id);
        i += 1;
        assert(map@.map_values(|commit: Commit| commit@) =~= commit_map(more));
    }
    assert(given.take(i as int) =~= given);
    (map, order)
}

/// Lists the parents of each commit, and for each an empty list of children.
fn without_children(map: &IdMap<Commit>) -> (lists: (IdMap<Vec<CommitId>>, IdMap<Vec<CommitId>>))
    requires
        map.wf(),
    ensures
        lists.0.wf(),
        lists.1.wf(),
        id_lists(lists.0@) == map@.map_values(|commit: Commit| commit@.parent_ids),
        id_lists(lists.1@) == map@.map_values(|commit: Commit| Seq::<Id>::empty()),
{
    let mut parents: IdMap<Vec<CommitId>> = IdMap::new();
    let mut children: IdMap<Vec<CommitId>> = IdMap::new();
    let ghost keys = map.keys();
    proof {
        map.lemma_keys();
    }
    let mut i: usize = 0;
    while i < map.len()
        invariant
            i <= keys.len(),
            keys == map.keys(),
            keys.no_duplicates(),
            map.wf(),
            map@.dom() == keys.to_set(),
            parents.wf(),
            children.wf(),
            forall|id: Id| #[trigger]
                parents@.contains_key(id) <==> keys.take(i as int).contains(id),
            forall|id: Id| #[trigger]
                children@.contains_key(id) <==> keys.take(i as int).contains(id),
            forall|id: Id|
                parents@.contains_key(id) ==> ids((#[trigger] parents@[id])@)
                    == map@[id]@.parent_ids,
            forall|id: Id|
                children@.contains_key(id) ==> ids((#[trigger] children@[id])@)
                    == Seq::<Id>::empty(),
        decreases keys.len() - i,
    {
        let commit: &Commit = map.value_at(i);
        let id: &CommitId = map.key_at(i);
        let none: Vec<CommitId> = Vec::new();
        assert(ids(none@) =~= Seq::<Id>::empty());
        parents.insert(id.clone(), clone_ids(&commit.parent_ids));
        children.insert(id.clone(), none);
        proof {
            let before = keys.take(i as int);
            let after = keys.take(i + 1);
            assert(after =~= before.push(id@));
            assert forall|other: Id| after.contains(other) <==> before.contains(other) || other
                == id@ by {
                if before.contains(other) {
                    assert(after[before.index_of(other)] == other);
                }
                if other == id@ {
                    assert(after[i as int] == other);
                }
            }
        }
        i += 1;
    }
    proof {
        assert(keys.take(i as int) =~= keys);
        assert(id_lists(parents@) =~= map@.map_values(|commit: Commit| commit@.parent_ids));
        assert(id_lists(children@) =~= map@.map_values(|commit: Commit| Seq::<Id>::empty()));
    }
    (parents, children)
}

impl StateView {
    /// What the graph of the edited commits is made of.
    pub proof fn lemma_graph(self)
        requires
            self.wf(),
        ensures
            self.graph().dom() == self.commits.dom(),
            closed(self.graph()),
            forall|a: Id, b: Id| #[trigger]
                edge(self.graph(), a, b) <==> self.commits.contains_key(a)
                    && self.commits.contains_key(b) && self.parents[a].contains(b),
            forall|id: Id| #[trigger]
                self.heads().contains(id) <==> self.commits.contains_key(id) && is_head(
                    self.graph(),
                    id,
                ),
            forall|i: int|
                0 <= i < self.heads().len() ==> self.graph().contains_key(
                    #[trigger] self.heads()[i],
                ),
    {
        let g = self.graph();
        assert(g.dom() =~= self.commits.dom());
        let known = |id: Id| self.commits.contains_key(id);
        assert forall|a: Id, b: Id| #[trigger] edge(g, a, b) <==> self.commits.contains_key(a)
            && self.commits.contains_key(b) && self.parents[a].contains(b) by {
            if self.commits.contains_key(a) {
                assert(g[a] == self.parents[a].filter(known));
                lemma_filter_members(self.parents[a], known, b);
            }
        }
        let top = |id: Id| is_head(g, id);
        assert forall|id: Id| #[trigger] self.heads().contains(id) <==> self.commits.contains_key(id)
            && is_head(g, id) by {
            lemma_filter_members(self.original_order, top, id);
            assert(self.original_order.to_set().contains(id) <==> self.original_order.contains(id));
        }
        assert forall|i: int| 0 <= i < self.heads().len() implies g.contains_key(
            #[trigger] self.heads()[i],
        ) by {
            assert(self.heads().contains(self.heads()[i]));
        }
    }

    /// Where no commit is an ancestor of itself, the order lists every commit
    /// under edit just once, and each commit before its parents.
    pub proof fn law_reordered_lists_every_commit(self)
        requires
            self.wf(),
            self.acyclic(),
        ensures
            self.reordered().wf(),
            self.reordered().current_order.no_duplicates(),
            self.reordered().current_order.to_set() == self.commits.dom(),
            forall|i: int, j: int|
                #![trigger self.reordered().current_order[i], self.reordered().current_order[j]]
                0 <= i < self.reordered().current_order.len() && 0 <= j
                    < self.reordered().current_order.len()
                    && self.parents[self.reordered().current_order[i]].contains(
                    self.reordered().current_order[j],
                ) ==> i < j,
    {
        let g = self.graph();
        let order = self.reordered().current_order;
        self.lemma_graph();
        dag_walk::law_topo_order(g, self.heads());
        assert forall|id: Id| #[trigger] order.contains(id) <==> self.commits.contains_key(id) by {
            if order.contains(id) {
                self.lemma_reached_is_known(id);
            }
            if self.commits.contains_key(id) {
                let head = dag_walk::law_heads_reach_all(g, id);
                assert(self.heads().contains(head));
                let k = self.heads().index_of(head);
                assert(dag_walk::reaches(g, self.heads()[k], id));
            }
        }
        assert(order.to_set() =~= self.commits.dom());
        assert forall|i: int, j: int|
            #![trigger order[i], order[j]]
            0 <= i < order.len() && 0 <= j < order.len() && self.parents[order[i]].contains(
                order[j],
            ) implies i < j by {
            assert(order.contains(order[i]) && order.contains(order[j]));
            assert(edge(g, order[i], order[j]));
        }
    }

    proof fn lemma_reached_is_known(self, id: Id)
        requires
            self.wf(),
            reached(self.graph(), self.heads(), id),
        ensures
            self.commits.contains_key(id),
    {
        let g = self.graph();
        self.lemma_graph();
        let i = choose|i: int|
            0 <= i < self.heads().len() && dag_walk::reaches(g, #[trigger] self.heads()[i], id);
        let path = choose|path: Seq<Id>|
            #[trigger] dag_walk::is_path(g, path) && path.first() == self.heads()[i]
                && path.last() == id;
        if path.len() > 1 {
            assert(dag_walk::step(g, path, path.len() - 2));
            assert(edge(g, path[path.len() - 2], id));
        } else {
            assert(path.first() == path.last());
            assert(g.contains_key(self.heads()[i]));
        }
    }

    /// Putting the commits in order changes nothing but the order shown, and
    /// doing it again changes nothing at all.
    pub proof fn law_reordering_settles(self)
        ensures
            self.reordered() == (StateView {
                current_order: self.reordered().current_order,
                ..self
            }),
            self.reordered().reordered() == self.reordered(),
    {
        assert(self.reordered().graph() == self.graph());
        assert(self.reordered().heads() == self.heads());
    }
}

proof fn lemma_filter_members(list: Seq<Id>, pred: spec_fn(Id) -> bool, id: Id)
    ensures
        list.filter(pred).contains(id) <==> list.contains(id) && pred(id),
{
    if list.filter(pred).contains(id) {
        let i = list.filter(pred).index_of(id);
        list.lemma_filter_pred(pred, i);
        list.lemma_filter_contains_rev(pred, id);
    }
    if list.contains(id) && pred(id) {
        list.lemma_filter_contains(pred, list.index_of(id));
    }
}

/// Parents and children mirror each other. A commit under edit is listed among
/// the children of another just where it has the other as a parent, and all
/// else that is listed there is an external child that has it as a parent.
pub proof fn law_children_mirror_parents(
    commits: Seq<CommitView>,
    external_children: Seq<CommitView>,
    parent: Id,
    child: Id,
)
    requires
        commit_map(commits).contains_key(parent),
    ensures
        fresh(commits, external_children).children[parent].contains(child) <==> {
            ||| commit_map(commits).contains_key(child) && fresh(
                commits,
                external_children,
            ).parents[child].contains(parent)
            ||| exists|i: int|
                0 <= i < external_children.len() && (#[trigger] external_children[i]).id == child
                    && external_children[i].parent_ids.contains(parent)
        },
{
    let map = commit_map(commits);
    let walked = from_last(commits);
    let order = distinct(commit_ids(commits));
    let inner = parent_pairs(walked);
    let outer = parent_pairs(external_children);
    lemma_commit_map(commits);
    lemma_distinct(commit_ids(commits));
    lemma_parent_pairs(walked);
    lemma_parent_pairs(external_children);
    lemma_children_in(inner);
    lemma_children_in(outer);
    lemma_children_in(inner + outer);
    assert(paired(inner + outer, child, parent) <==> paired(inner, child, parent) || paired(
        outer,
        child,
        parent,
    )) by {
        let pairs = inner + outer;
        if paired(pairs, child, parent) {
            let i = choose|i: int| 0 <= i < pairs.len() && #[trigger] pairs[i] == (child, parent);
            if i < inner.len() {
                assert(inner[i] == (child, parent));
            } else {
                assert(outer[i - inner.len()] == (child, parent));
            }
        }
        if paired(inner, child, parent) {
            let i = choose|i: int| 0 <= i < inner.len() && #[trigger] inner[i] == (child, parent);
            assert(pairs[i] == (child, parent));
        }
        if paired(outer, child, parent) {
            let i = choose|i: int| 0 <= i < outer.len() && #[trigger] outer[i] == (child, parent);
            assert(pairs[inner.len() + i] == (child, parent));
        }
    }
    assert(children_in(inner, parent).contains(child) <==> map.contains_key(child)
        && map[child].parent_ids.contains(parent)) by {
        if children_in(inner, parent).contains(child) {
            let i = choose|i: int|
                0 <= i < walked.len() && (#[trigger] walked[i]).id == child
                    && walked[i].parent_ids.contains(parent);
            let at = order[order.len() - 1 - i];
            assert(order.to_set().contains(at));
            assert(map.contains_key(at));
            assert(walked[i] == map[at]);
        }
        if map.contains_key(child) && map[child].parent_ids.contains(parent) {
            assert(order.to_set().contains(child));
            let i = order.len() - 1 - order.index_of(child);
            assert(walked[i] == map[child]);
        }
    }
    assert(children_in(outer, parent).contains(child) <==> paired(outer, child, parent));
}

impl State {
    /// The parents of each commit that are under edit themselves.
    fn inner_parents(&self) -> (graph: IdMap<Vec<CommitId>>)
        requires
            self.wf(),
        ensures
            graph.wf(),
            id_lists(graph@) == self@.graph(),
    {
        let ghost keys = self.parents.keys();
        let ghost known = |id: Id| self@.commits.contains_key(id);
        let mut graph: IdMap<Vec<CommitId>> = IdMap::new();
        proof {
            self.parents.lemma_keys();
        }
        let mut i: usize = 0;
        while i < self.parents.len()
            invariant
                i <= keys.len(),
                self.wf(),
                keys == self.parents.keys(),
                known == (|id: Id| self@.commits.contains_key(id)),
                self.parents@.dom() == keys.to_set(),
                graph.wf(),
                forall|id: Id| #[trigger]
                    graph@.contains_key(id) <==> keys.take(i as int).contains(id),
                forall|id: Id|
                    graph@.contains_key(id) ==> ids((#[trigger] graph@[id])@) == ids(
                        self.parents@[id]@,
                    ).filter(known),
            decreases keys.len() - i,
        {
            let id: &CommitId = self.parents.key_at(i);
            let list: &Vec<CommitId> = self.parents.value_at(i);
            let kept = self.keep_known(list);
            graph.insert(id.clone(), kept);
            proof {
                let before = keys.take(i as int);
                let after = keys.take(i + 1);
                assert(after =~= before.push(id@));
                assert forall|other: Id| after.contains(other) <==> before.contains(other) || other
                    == id@ by {
                    if before.contains(other) {
                        assert(after[before.index_of(other)] == other);
                    }
                    if other == id@ {
                        assert(after[i as int] == other);
                    }
                }
            }
            i += 1;
        }
        proof {
            assert(keys.take(i as int) =~= keys);
            assert(id_lists(graph@).dom() =~= self@.graph().dom());
            assert(id_lists(graph@) =~= self@.graph());
        }
        graph
    }

    /// Those of the commits in a list that are under edit.
    fn keep_known(&self, list: &Vec<CommitId>) -> (kept: Vec<CommitId>)
        requires
            self.wf(),
        ensures
            ids(kept@) == ids(list@).filter(|id: Id| self@.commits.contains_key(id)),
    {
        let ghost known = |id: Id| self@.commits.contains_key(id);
        let mut kept: Vec<CommitId> = Vec::new();
        assert(ids(list@).take(0).filter(known) =~= Seq::<Id>::empty()) by {
            reveal(Seq::filter);
        }
        assert(ids(kept@) =~= Seq::<Id>::empty());
        let mut i: usize = 0;
        while i < list.len()
            invariant
                i <= list.len(),
                self.wf(),
                known == (|id: Id| self@.commits.contains_key(id)),
                ids(kept@) == ids(list@).take(i as int).filter(known),
            decreases list.len() - i,
        {
            let id = list[i].clone();
            proof {
                assert(ids(list@).take(i + 1) =~= ids(list@).take(i as int).push(id@));
                ids(list@).take(i as int).lemma_filter_push(id@, known);
                lemma_ids_push(kept@, id);
            }
            if self.commits.contains_key(&id) {
                kept.push(id);
            }
            i += 1;
        }
        assert(ids(list@).take(i as int) =~= ids(list@));
        kept
    }

    /// Lists the commits in order: each before its parents, as a depth-first
    /// walk from the heads in the original order has them. Where a commit that
    /// the walk comes to is an ancestor of itself there is no such order, and
    /// that commit comes back instead.
    pub fn commit_order(&self) -> (result: Result<Vec<CommitId>, CommitId>)
        requires
            self.wf(),
        ensures
            match result {
                Ok(order) => {
                    &&& ids(order@) == self@.reordered().current_order
                    &&& forall|id: Id| #[trigger]
                        reached(self@.graph(), self@.heads(), id) ==> !on_cycle(self@.graph(), id)
                },
                Err(id) => {
                    &&& reached(self@.graph(), self@.heads(), id@)
                    &&& on_cycle(self@.graph(), id@)
                },
            },
    {
        let graph = self.inner_parents();
        let heads = dag_walk::heads(&self.original_order, &graph);
        proof {
            let view = self@;
            view.lemma_graph();
            assert(ids(heads@) == view.heads());
            assert(graph@.dom() =~= id_lists(graph@).dom());
            assert forall|i: int| 0 <= i < heads.len() implies graph@.contains_key(
                (#[trigger] heads[i])@,
            ) by {
                assert(view.heads()[i] == heads[i]@);
            }
        }
        dag_walk::topo_order_reverse(&heads, &graph)
    }

    /// Puts the commits in order: each before its parents, as a depth-first
    /// walk from the heads in the original order has them.
    pub fn update_commit_order(&mut self)
        requires
            old(self).wf(),
            forall|id: Id| #[trigger]
                reached(old(self)@.graph(), old(self)@.heads(), id) ==> !on_cycle(
                    old(self)@.graph(),
                    id,
                ),
        ensures
            final(self).wf(),
            final(self)@ == old(self)@.reordered(),
    {
        match self.commit_order() {
            Ok(order) => {
                self.current_order = order;
                proof {
                    let view = old(self)@;
                    view.lemma_graph();
                    dag_walk::law_topo_order(view.graph(), view.heads());
                    assert forall|id: Id| self@.current_order.to_set().contains(id) implies
                        view.commits.contains_key(id) by {
                        assert(topo_order(view.graph(), view.heads()).contains(id));
                        view.lemma_reached_is_known(id);
                    }
                    assert(self@ =~= view.reordered());
                }
            },
            Err(_) => {
                assert(false);
            },
        }
    }
}

/// A commit is found under its identifier as it was given. Of several with the
/// same identifier it is the last one.
pub proof fn law_last_commit_counts(commits: Seq<CommitView>, i: int)
    requires
        0 <= i < commits.len(),
        forall|j: int| i < j < commits.len() ==> (#[trigger] commits[j]).id != commits[i].id,
    ensures
        commit_map(commits).contains_key(commits[i].id),
        commit_map(commits)[commits[i].id] == commits[i],
    decreases commits.len(),
{
    let front = commits.drop_last();
    if i < front.len() {
        assert(commits[commits.len() - 1].id != commits[i].id);
        assert forall|j: int| i < j < front.len() implies (#[trigger] front[j]).id
            != front[i].id by {
            assert(commits[j].id != commits[i].id);
        }
        law_last_commit_counts(front, i);
    }
}

/// Nothing is found that was not given.
pub proof fn law_only_given_commits_are_found(commits: Seq<CommitView>, id: Id) -> (i: int)
    requires
        commit_map(commits).contains_key(id),
    ensures
        0 <= i < commits.len(),
        commits[i].id == id,
        commit_map(commits)[id] == commits[i],
    decreases commits.len(),
{
    if commits.last().id == id {
        commits.len() - 1
    } else {
        law_only_given_commits_are_found(commits.drop_last(), id)
    }
}

/// A new state knows each commit with its parents as they were given, and shows
/// the commits in the order in which they were given. External parents are
/// those parents that were not given as commits, and external children are
/// those that were given as such.
pub proof fn law_fresh_keeps_what_was_given(
    commits: Seq<CommitView>,
    external_children: Seq<CommitView>,
    id: Id,
)
    ensures
        ({
            let state = fresh(commits, external_children);
            &&& state.original_order.len() == commits.len()
            &&& state.current_order.len() == commits.len()
            &&& forall|i: int|
                0 <= i < commits.len() ==> (#[trigger] state.original_order[i]) == commits[i].id
            &&& forall|i: int|
                0 <= i < commits.len() ==> (#[trigger] state.current_order[i]) == commits[i].id
            &&& state.commits == commit_map(commits)
            &&& state.parents.contains_key(id) <==> commit_map(commits).contains_key(id)
            &&& state.children.contains_key(id) <==> commit_map(commits).contains_key(id)
            &&& state.parents.contains_key(id) ==> state.parents[id]
                == commit_map(commits)[id].parent_ids
            &&& state.external_parents.contains(id) <==> !commit_map(commits).contains_key(id)
                && exists|child: Id|
                commit_map(commits).contains_key(child) && (#[trigger] commit_map(
                    commits,
                )[child]).parent_ids.contains(id)
            &&& state.external_children.contains(id) <==> exists|i: int|
                0 <= i < external_children.len() && (#[trigger] external_children[i]).id == id
        }),
{
    let state = fresh(commits, external_children);
    let outer = commit_ids(external_children);
    assert(state.external_children.contains(id) <==> outer.contains(id));
    if outer.contains(id) {
        assert(external_children[outer.index_of(id)].id == id);
    }
    assert forall|i: int|
        0 <= i < external_children.len() && (#[trigger] external_children[i]).id
            == id implies outer.contains(id) by {
        assert(outer[i] == id);
    }
}

impl StateView {
    /// Only edited parents count for the order, and they count in their own
    /// order. Heads are the edited commits that are no parent of another edited
    /// commit, in the original order. The order is the one that a walk from the
    /// heads gives.
    pub proof fn law_order_comes_from_edited_commits(self, id: Id)
        requires
            self.wf(),
        ensures
            self.graph().dom() == self.commits.dom(),
            self.commits.contains_key(id) ==> self.graph()[id] == self.parents[id].filter(
                |parent: Id| self.commits.contains_key(parent),
            ),
            self.heads() == self.original_order.filter(
                |head: Id|
                    forall|other: Id|
                        self.commits.contains_key(other) && self.commits.contains_key(head)
                            && #[trigger] self.parents[other].contains(head) ==> other == head,
            ),
            self.reordered() == (StateView {
                current_order: topo_order(self.graph(), self.heads()),
                ..self
            }),
    {
        self.lemma_graph();
        let g = self.graph();
        let top = |head: Id| is_head(g, head);
        let free = |head: Id|
            forall|other: Id|
                self.commits.contains_key(other) && self.commits.contains_key(head)
                    && #[trigger] self.parents[other].contains(head) ==> other == head;
        assert forall|head: Id| #[trigger] top(head) == free(head) by {
            if free(head) {
                assert forall|other: Id| #[trigger] edge(g, other, head) implies other == head by {
                    assert(self.parents[other].contains(head));
                }
            }
            if top(head) {
                assert forall|other: Id|
                    self.commits.contains_key(other) && self.commits.contains_key(head)
                        && #[trigger] self.parents[other].contains(head) implies other == head by {
                    assert(edge(g, other, head));
                }
            }
        }
        lemma_same_filter(self.original_order, top, free);
    }

    /// Commits without an edited child are shown in the original order, so that
    /// the order shown is always the same.
    pub proof fn law_heads_keep_the_original_order(self, i: int, j: int) -> (places: (int, int))
        requires
            self.wf(),
            self.acyclic(),
            self.original_order.no_duplicates(),
            0 <= i < j < self.original_order.len(),
            is_head(self.graph(), self.original_order[i]),
            is_head(self.graph(), self.original_order[j]),
        ensures
            0 <= places.0 < places.1 < self.reordered().current_order.len(),
            self.reordered().current_order[places.0] == self.original_order[i],
            self.reordered().current_order[places.1] == self.original_order[j],
    {
        let g = self.graph();
        let top = |id: Id| is_head(g, id);
        let heads = self.heads();
        self.lemma_graph();
        let (a, b) = lemma_filter_order(self.original_order, top, i, j);
        lemma_filter_distinct(self.original_order, top);
        let later = heads.skip(a + 1);
        if reached(g, later, heads[a]) {
            let k = choose|k: int|
                0 <= k < later.len() && dag_walk::reaches(g, #[trigger] later[k], heads[a]);
            dag_walk::law_heads_are_not_reached(g, heads[a]);
            assert(later[k] == heads[a]);
            assert(heads[a + 1 + k] == heads[a]);
        }
        dag_walk::law_starts_come_in_order(g, heads, a, b)
    }
}

proof fn lemma_same_filter(list: Seq<Id>, p: spec_fn(Id) -> bool, q: spec_fn(Id) -> bool)
    requires
        forall|id: Id| #[trigger] p(id) == q(id),
    ensures
        list.filter(p) == list.filter(q),
    decreases list.len(),
{
    reveal(Seq::filter);
    if list.len() > 0 {
        lemma_same_filter(list.drop_last(), p, q);
        assert(p(list.last()) == q(list.last()));
    }
}

proof fn lemma_filter_order(list: Seq<Id>, p: spec_fn(Id) -> bool, i: int, j: int) -> (places: (
    int,
    int,
))
    requires
        0 <= i < j < list.len(),
        p(list[i]),
        p(list[j]),
    ensures
        0 <= places.0 < places.1 < list.filter(p).len(),
        list.filter(p)[places.0] == list[i],
        list.filter(p)[places.1] == list[j],
    decreases list.len(),
{
    let front = list.drop_last();
    assert(list =~= front.push(list.last()));
    front.lemma_filter_push(list.last(), p);
    if j < front.len() {
        lemma_filter_order(front, p, i, j)
    } else {
        front.lemma_filter_contains(p, i);
        (front.filter(p).index_of(list[i]), front.filter(p).len() as int)
    }
}

proof fn lemma_filter_distinct(list: Seq<Id>, p: spec_fn(Id) -> bool)
    requires
        list.no_duplicates(),
    ensures
        list.filter(p).no_duplicates(),
    decreases list.len(),
{
    if list.len() > 0 {
        let front = list.drop_last();
        let last = list.last();
        assert(list =~= front.push(last));
        assert(front.no_duplicates()) by {
            assert forall|i: int, j: int| 0 <= i < j < front.len() implies front[i] != front[j] by {
                assert(list[i] != list[j]);
            }
        }
        lemma_filter_distinct(front, p);
        front.lemma_filter_push(last, p);
        if front.filter(p).contains(last) {
            lemma_filter_members(front, p, last);
            assert(list[front.index_of(last)] == list[list.len() - 1]);
        }
    } else {
        reveal(Seq::filter);
    }
}

/// How often something occurs in a list.
pub open spec fn times<A>(list: Seq<A>, item: A) -> nat
    decreases list.len(),
{
    if list.len() == 0 {
        0
    } else {
        times(list.drop_last(), item) + if list.last() == item {
            1nat
        } else {
            0nat
        }
    }
}

proof fn lemma_times_add<A>(a: Seq<A>, b: Seq<A>, item: A)
    ensures
        times(a + b, item) == times(a, item) + times(b, item),
    decreases b.len(),
{
    if b.len() == 0 {
        assert(a + b =~= a);
    } else {
        assert((a + b).drop_last() =~= a + b.drop_last());
        lemma_times_add(a, b.drop_last(), item);
    }
}

proof fn lemma_times_paired(pairs: Seq<(Id, Id)>, child: Id, parent: Id)
    ensures
        times(children_in(pairs, parent), child) == times(pairs, (child, parent)),
    decreases pairs.len(),
{
    if pairs.len() > 0 {
        let front = children_in(pairs.drop_last(), parent);
        lemma_times_paired(pairs.drop_last(), child, parent);
        assert(front.push(pairs.last().0).drop_last() =~= front);
    }
}

proof fn lemma_times_parents(commit: CommitView, child: Id, parent: Id, list: Seq<Id>)
    ensures
        times(list.map_values(|p: Id| (commit.id, p)), (child, parent)) == if commit.id == child {
            times(list, parent)
        } else {
            0
        },
    decreases list.len(),
{
    if list.len() > 0 {
        let whole = list.map_values(|p: Id| (commit.id, p));
        let front = list.drop_last().map_values(|p: Id| (commit.id, p));
        assert(whole.drop_last() =~= front);
        lemma_times_parents(commit, child, parent, list.drop_last());
    }
}

proof fn lemma_times_none(commits: Seq<CommitView>, child: Id, parent: Id)
    requires
        forall|i: int| 0 <= i < commits.len() ==> (#[trigger] commits[i]).id != child,
    ensures
        times(parent_pairs(commits), (child, parent)) == 0,
    decreases commits.len(),
{
    if commits.len() > 0 {
        let front = commits.drop_last();
        let last = commits.last();
        assert(commits[commits.len() - 1].id != child);
        assert forall|i: int| 0 <= i < front.len() implies (#[trigger] front[i]).id != child by {
            assert(commits[i].id != child);
        }
        lemma_times_none(front, child, parent);
        lemma_times_parents(last, child, parent, last.parent_ids);
        lemma_times_add(
            parent_pairs(front),
            last.parent_ids.map_values(|p: Id| (last.id, p)),
            (child, parent),
        );
    }
}

proof fn lemma_times_one(commits: Seq<CommitView>, n: int, parent: Id)
    requires
        0 <= n < commits.len(),
        forall|i: int|
            0 <= i < commits.len() && i != n ==> (#[trigger] commits[i]).id != commits[n].id,
    ensures
        times(parent_pairs(commits), (commits[n].id, parent)) == times(
            commits[n].parent_ids,
            parent,
        ),
    decreases commits.len(),
{
    let front = commits.drop_last();
    let last = commits.last();
    let child = commits[n].id;
    lemma_times_parents(last, child, parent, last.parent_ids);
    lemma_times_add(
        parent_pairs(front),
        last.parent_ids.map_values(|p: Id| (last.id, p)),
        (child, parent),
    );
    if n == front.len() {
        assert forall|i: int| 0 <= i < front.len() implies (#[trigger] front[i]).id != child by {
            assert(commits[i].id != child);
        }
        lemma_times_none(front, child, parent);
    } else {
        assert(commits[commits.len() - 1].id != child);
        assert forall|i: int| 0 <= i < front.len() && i != n implies (#[trigger] front[i]).id
            != front[n].id by {
            assert(commits[i].id != child);
        }
        lemma_times_one(front, n, parent);
    }
}

/// A commit under edit is listed among the children of another as often as it
/// has the other as a parent, where it is no external child as well.
pub proof fn law_children_are_listed_as_often(
    commits: Seq<CommitView>,
    external_children: Seq<CommitView>,
    parent: Id,
    child: Id,
)
    requires
        commit_map(commits).contains_key(parent),
        forall|i: int|
            0 <= i < external_children.len() ==> (#[trigger] external_children[i]).id != child,
    ensures
        times(fresh(commits, external_children).children[parent], child) == if commit_map(
            commits,
        ).contains_key(child) {
            times(commit_map(commits)[child].parent_ids, parent)
        } else {
            0
        },
{
    let map = commit_map(commits);
    let walked = from_last(commits);
    let order = distinct(commit_ids(commits));
    let inner = parent_pairs(walked);
    let outer = parent_pairs(external_children);
    lemma_commit_map(commits);
    lemma_distinct(commit_ids(commits));
    lemma_times_paired(inner + outer, child, parent);
    lemma_times_add(inner, outer, (child, parent));
    lemma_times_none(external_children, child, parent);
    assert forall|i: int| 0 <= i < walked.len() implies (#[trigger] walked[i]).id
        == order[order.len() - 1 - i] by {
        let at = order[order.len() - 1 - i];
        assert(order.to_set().contains(at));
        assert(map.contains_key(at));
    }
    if map.contains_key(child) {
        assert(order.to_set().contains(child));
        let n = order.len() - 1 - order.index_of(child);
        assert(walked[n] == map[child]);
        assert forall|i: int| 0 <= i < walked.len() && i != n implies (#[trigger] walked[i]).id
            != walked[n].id by {
            assert(order[order.len() - 1 - i] != order[order.len() - 1 - n]);
        }
        lemma_times_one(walked, n, parent);
    } else {
        assert forall|i: int| 0 <= i < walked.len() implies (#[trigger] walked[i]).id != child by {
            assert(order.to_set().contains(order[order.len() - 1 - i]));
        }
        lemma_times_none(walked, child, parent);
    }
}

/// An external child is listed among the children of a commit as often as it
/// has the commit as a parent, where it is given once and not edited itself.
pub proof fn law_external_children_are_listed_as_often(
    commits: Seq<CommitView>,
    external_children: Seq<CommitView>,
    parent: Id,
    n: int,
)
    requires
        commit_map(commits).contains_key(parent),
        0 <= n < external_children.len(),
        !commit_map(commits).contains_key(external_children[n].id),
        forall|i: int|
            0 <= i < external_children.len() && i != n ==> (#[trigger] external_children[i]).id
                != external_children[n].id,
    ensures
        times(fresh(commits, external_children).children[parent], external_children[n].id) == times(
            external_children[n].parent_ids,
            parent,
        ),
{
    let child = external_children[n].id;
    let walked = from_last(commits);
    let order = distinct(commit_ids(commits));
    let inner = parent_pairs(walked);
    let outer = parent_pairs(external_children);
    lemma_commit_map(commits);
    lemma_distinct(commit_ids(commits));
    lemma_times_paired(inner + outer, child, parent);
    lemma_times_add(inner, outer, (child, parent));
    lemma_times_one(external_children, n, parent);
    assert forall|i: int| 0 <= i < walked.len() implies (#[trigger] walked[i]).id != child by {
        let at = order[order.len() - 1 - i];
        assert(order.to_set().contains(at));
        assert(commit_map(commits).contains_key(at));
    }
    lemma_times_none(walked, child, parent);
}

/// External children come after all others, in the order in which they were
/// given.
pub proof fn law_external_children_come_last(
    commits: Seq<CommitView>,
    external_children: Seq<CommitView>,
    next: CommitView,
    parent: Id,
)
    requires
        commit_map(commits).contains_key(parent),
    ensures
        ({
            let before = fresh(commits, external_children).children[parent];
            let after = fresh(commits, external_children.push(next)).children[parent];
            after == before + Seq::new(times(next.parent_ids, parent), |i: int| next.id)
        }),
{
    let inner = parent_pairs(from_last(commits));
    let outer = parent_pairs(external_children);
    let added = next.parent_ids.map_values(|p: Id| (next.id, p));
    let more = external_children.push(next);
    assert(more.drop_last() =~= external_children);
    assert(inner + parent_pairs(more) =~= (inner + outer) + added);
    lemma_children_added(inner + outer, next.id, next.parent_ids, parent);
}

proof fn lemma_children_added(pairs: Seq<(Id, Id)>, child: Id, parents: Seq<Id>, parent: Id)
    ensures
        children_in(pairs + parents.map_values(|p: Id| (child, p)), parent) == children_in(
            pairs,
            parent,
        ) + Seq::new(times(parents, parent), |i: int| child),
    decreases parents.len(),
{
    let added = parents.map_values(|p: Id| (child, p));
    if parents.len() == 0 {
        assert(pairs + added =~= pairs);
        assert(children_in(pairs, parent) + Seq::new(0, |i: int| child) =~= children_in(
            pairs,
            parent,
        ));
    } else {
        let front = parents.drop_last();
        lemma_children_added(pairs, child, front, parent);
        assert((pairs + added).drop_last() =~= pairs + front.map_values(|p: Id| (child, p)));
        assert((pairs + added).last() == (child, parents.last()));
        assert(children_in(pairs + added, parent) =~= children_in(pairs, parent) + Seq::new(
            times(parents, parent),
            |i: int| child,
        ));
    }
}

/// What a state holds is seen as it is held.
pub proof fn law_views_of_states(state: State, id: Id)
    ensures
        state@.original_order.len() == state.original_order@.len(),
        forall|i: int|
            0 <= i < state.original_order@.len() ==> (#[trigger] state@.original_order[i])
                == state.original_order@[i].bytes@,
        state@.current_order.len() == state.current_order@.len(),
        forall|i: int|
            0 <= i < state.current_order@.len() ==> (#[trigger] state@.current_order[i])
                == state.current_order@[i].bytes@,
        state@.commits.contains_key(id) <==> state.commits@.contains_key(id),
        state.commits@.contains_key(id) ==> state@.commits[id] == state.commits@[id]@,
        state@.parents.contains_key(id) <==> state.parents@.contains_key(id),
        state.parents@.contains_key(id) ==> state@.parents[id].len() == state.parents@[id]@.len()
            && forall|i: int|
            0 <= i < state.parents@[id]@.len() ==> (#[trigger] state@.parents[id][i])
                == state.parents@[id]@[i].bytes@,
        state@.children.contains_key(id) <==> state.children@.contains_key(id),
        state.children@.contains_key(id) ==> state@.children[id].len()
            == state.children@[id]@.len() && forall|i: int|
            0 <= i < state.children@[id]@.len() ==> (#[trigger] state@.children[id][i])
                == state.children@[id]@[i].bytes@,
        state@.external_parents == state.external_parents@,
        state@.external_children == state.external_children@,
{
}

} // verus!
