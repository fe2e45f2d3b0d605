//! Walks over graphs of commits.

use vstd::prelude::*;

use crate::commit::CommitId;
use crate::commit::Id;
use crate::commit::ids;
use crate::commit::lemma_ids_push;
use crate::id_map::IdMap;
use crate::id_map::id_lists;

verus! {

/// A graph: the neighbors of each node, in order.
pub type Graph = Map<Id, Seq<Id>>;

/// Every neighbor is a node of the graph.
pub open spec fn closed(g: Graph) -> bool {
    forall|n: Id, m: Id| #[trigger] edge(g, n, m) ==> g.contains_key(m)
}

/// `b` is a neighbor of `a`.
pub open spec fn edge(g: Graph, a: Id, b: Id) -> bool {
    g.contains_key(a) && g[a].contains(b)
}

/// The node at place `i` of `path` has the next one as a neighbor.
pub open spec fn step(g: Graph, path: Seq<Id>, i: int) -> bool {
    edge(g, path[i], path[i + 1])
}

/// Each node of `path` but the last has the next one as a neighbor.
pub open spec fn is_path(g: Graph, path: Seq<Id>) -> bool {
    &&& path.len() > 0
    &&& forall|i: int| 0 <= i < path.len() - 1 ==> #[trigger] step(g, path, i)
}

/// A path leads from `a` to `b`. It may be that of no steps.
pub open spec fn reaches(g: Graph, a: Id, b: Id) -> bool {
    exists|path: Seq<Id>| #[trigger] is_path(g, path) && path.first() == a && path.last() == b
}

/// A path leads from some node of `start` to `n`.
pub open spec fn reached(g: Graph, start: Seq<Id>, n: Id) -> bool {
    exists|i: int| 0 <= i < start.len() && reaches(g, #[trigger] start[i], n)
}

/// A path of at least one step leads from `n` back to `n`.
pub open spec fn on_cycle(g: Graph, n: Id) -> bool {
    exists|path: Seq<Id>|
        #[trigger] is_path(g, path) && path.len() >= 2 && path.first() == n && path.last() == n
}

/// The nodes that a depth-first walk has left, in the order in which it leaves
/// them, once it has gone through `start` from the last node to the first. The
/// walk leaves a node after it has gone through the node's neighbors in the
/// same way, does not enter a node of `left`, and goes at most `depth` nodes
/// deep.
pub open spec fn walk(g: Graph, start: Seq<Id>, left: Seq<Id>, depth: nat) -> Seq<Id>
    decreases depth, start.len(),
{
    if start.len() == 0 {
        left
    } else {
        let node = start.last();
        let next = if left.contains(node) || depth == 0 {
            left
        } else {
            walk(g, g[node], left, (depth - 1) as nat).push(node)
        };
        walk(g, start.drop_last(), next, depth)
    }
}

/// The nodes that can be reached from `start`, each before its neighbors: the
/// reverse of the order in which a depth-first walk leaves them. Without a
/// cycle no walk is deeper than there are nodes.
pub open spec fn topo_order(g: Graph, start: Seq<Id>) -> Seq<Id> {
    walk(g, start, Seq::empty(), g.dom().len()).reverse()
}

/// A node on the stack of the walk: whether the walk has entered it, and how
/// many entered nodes lie below it.
struct Frame {
    node: Id,
    entered: bool,
    depth: nat,
}

spec fn level(frame: Frame) -> nat {
    if frame.entered {
        frame.depth + 1
    } else {
        frame.depth
    }
}

spec fn stacked(stack: Seq<Frame>, i: int) -> bool {
    stack[i].depth == level(stack[i - 1])
}

spec fn frames(nodes: Seq<Id>, depth: nat) -> Seq<Frame> {
    nodes.map_values(|node: Id| Frame { node, entered: false, depth })
}

/// What the walk will have left when the stack is empty.
spec fn finish(g: Graph, stack: Seq<Frame>, left: Seq<Id>) -> Seq<Id>
    decreases stack.len(),
{
    if stack.len() == 0 {
        left
    } else {
        let frame = stack.last();
        let next = if frame.entered {
            left.push(frame.node)
        } else {
            walk(g, seq![frame.node], left, (g.dom().len() - frame.depth) as nat)
        };
        finish(g, stack.drop_last(), next)
    }
}

spec fn listed_before(left: Seq<Id>, i: int, m: Id) -> bool {
    exists|j: int| 0 <= j < i && #[trigger] left[j] == m
}

spec fn on_stack_above(stack: Seq<Frame>, i: int, m: Id) -> bool {
    exists|j: int| i < j < stack.len() && (#[trigger] stack[j]).node == m
}

/// What holds whenever the walk looks at its stack. `chain` holds the entered
/// nodes on the stack.
#[verifier::opaque]
spec fn walking(g: Graph, start: Seq<Id>, stack: Seq<Frame>, chain: Seq<Id>, left: Seq<Id>) -> bool {
    &&& g.dom().finite()
    &&& closed(g)
    &&& finish(g, stack, left) == walk(g, start, Seq::empty(), g.dom().len())
    &&& chain.no_duplicates()
    &&& left.no_duplicates()
    &&& forall|i: int| 0 <= i < chain.len() ==> g.contains_key(#[trigger] chain[i])
    &&& forall|i: int| 0 <= i < left.len() ==> g.contains_key(#[trigger] left[i])
    &&& forall|i: int| 0 <= i < stack.len() ==> g.contains_key((#[trigger] stack[i]).node)
    &&& forall|i: int| 0 <= i < chain.len() ==> !left.contains(#[trigger] chain[i])
    &&& stack.len() > 0 ==> stack[0].depth == 0
    &&& forall|i: int| 0 < i < stack.len() ==> #[trigger] stacked(stack, i)
    &&& chain.len() == if stack.len() == 0 {
        0
    } else {
        level(stack.last())
    }
    &&& forall|i: int|
        0 <= i < stack.len() && (#[trigger] stack[i]).entered ==> stack[i].depth < chain.len()
            && chain[stack[i].depth as int] == stack[i].node
    &&& forall|i: int|
        0 <= i < stack.len() && 0 < (#[trigger] stack[i]).depth ==> stack[i].depth <= chain.len()
            && edge(g, chain[stack[i].depth - 1], stack[i].node)
    &&& forall|i: int| 0 <= i < chain.len() - 1 ==> #[trigger] step(g, chain, i)
    &&& forall|i: int|
        0 <= i < stack.len() ==> reached(g, start, (#[trigger] stack[i]).node)
    &&& forall|i: int| 0 <= i < left.len() ==> reached(g, start, #[trigger] left[i])
    &&& forall|i: int, m: Id|
        0 <= i < left.len() && #[trigger] edge(g, left[i], m) ==> listed_before(left, i, m)
    &&& forall|i: int, m: Id|
        0 <= i < stack.len() && stack[i].entered && #[trigger] edge(g, stack[i].node, m)
            ==> left.contains(m) || on_stack_above(stack, i, m)
    &&& forall|i: int|
        0 <= i < start.len() ==> left.contains(#[trigger] start[i]) || on_stack_above(
            stack,
            -1,
            start[i],
        )
}

/// Levels never fall on the way up the stack.
proof fn lemma_levels(stack: Seq<Frame>, i: int, j: int)
    requires
        0 <= i <= j < stack.len(),
        forall|k: int| 0 < k < stack.len() ==> #[trigger] stacked(stack, k),
    ensures
        level(stack[i]) <= level(stack[j]),
    decreases j - i,
{
    if i < j {
        lemma_levels(stack, i, j - 1);
        assert(stacked(stack, j));
    }
}

/// Going through a list of nodes is going through their frames.
proof fn lemma_frames(g: Graph, stack: Seq<Frame>, nodes: Seq<Id>, depth: nat, left: Seq<Id>)
    ensures
        finish(g, stack + frames(nodes, depth), left) == finish(
            g,
            stack,
            walk(g, nodes, left, (g.dom().len() - depth) as nat),
        ),
    decreases nodes.len(),
{
    let d = (g.dom().len() - depth) as nat;
    if nodes.len() == 0 {
        assert(stack + frames(nodes, depth) =~= stack);
    } else {
        let whole = stack + frames(nodes, depth);
        let front = nodes.drop_last();
        assert(whole.drop_last() =~= stack + frames(front, depth));
        let next = walk(g, seq![nodes.last()], left, d);
        lemma_single(g, nodes.last(), left, d);
        lemma_frames(g, stack, front, depth, next);
    }
}

/// What going through one node does.
proof fn lemma_single(g: Graph, node: Id, left: Seq<Id>, depth: nat)
    ensures
        walk(g, seq![node], left, depth) == if left.contains(node) || depth == 0 {
            left
        } else {
            walk(g, g[node], left, (depth - 1) as nat).push(node)
        },
{
    let one = seq![node];
    let next = if left.contains(node) || depth == 0 {
        left
    } else {
        walk(g, g[node], left, (depth - 1) as nat).push(node)
    };
    assert(one.drop_last() =~= Seq::<Id>::empty());
    assert(walk(g, Seq::<Id>::empty(), next, depth) == next);
}

/// A list of distinct nodes is no longer than the graph is large.
proof fn lemma_len_bound(g: Graph, list: Seq<Id>)
    requires
        g.dom().finite(),
        list.no_duplicates(),
        forall|i: int| 0 <= i < list.len() ==> g.contains_key(#[trigger] list[i]),
    ensures
        list.len() <= g.dom().len(),
{
    list.unique_seq_to_set();
    assert(list.to_set().subset_of(g.dom()));
    vstd::set_lib::lemma_len_subset(list.to_set(), g.dom());
}

/// One more step at the end of a path.
pub proof fn lemma_reaches_step(g: Graph, a: Id, b: Id, c: Id)
    requires
        reaches(g, a, b),
        edge(g, b, c),
    ensures
        reaches(g, a, c),
{
    let path = choose|path: Seq<Id>|
        #[trigger] is_path(g, path) && path.first() == a && path.last() == b;
    let longer = path.push(c);
    assert forall|i: int| 0 <= i < longer.len() - 1 implies #[trigger] step(g, longer, i) by {
        if i < path.len() - 1 {
            assert(step(g, path, i));
        }
    }
    assert(is_path(g, longer));
    assert(longer.first() == a && longer.last() == c);
}

/// The path of no steps.
pub proof fn lemma_reaches_self(g: Graph, a: Id)
    ensures
        reaches(g, a, a),
{
    let path = seq![a];
    assert(is_path(g, path));
    assert(path.first() == a && path.last() == a);
}

proof fn lemma_reached_step(g: Graph, start: Seq<Id>, b: Id, c: Id)
    requires
        reached(g, start, b),
        edge(g, b, c),
    ensures
        reached(g, start, c),
{
    let i = choose|i: int| 0 <= i < start.len() && reaches(g, #[trigger] start[i], b);
    lemma_reaches_step(g, start[i], b, c);
}

proof fn lemma_begin(g: Graph, start: Seq<Id>)
    requires
        g.dom().finite(),
        closed(g),
        forall|i: int| 0 <= i < start.len() ==> g.contains_key(#[trigger] start[i]),
    ensures
        walking(g, start, frames(start, 0), Seq::empty(), Seq::empty()),
{
    reveal(walking);
    let stack = frames(start, 0);
    lemma_frames(g, Seq::empty(), start, 0, Seq::empty());
    assert(Seq::<Frame>::empty() + stack =~= stack);
    assert forall|i: int| 0 <= i < stack.len() implies reached(
        g,
        start,
        (#[trigger] stack[i]).node,
    ) by {
        lemma_reaches_self(g, start[i]);
        assert(reaches(g, start[i], stack[i].node));
    }
    assert forall|i: int| 0 <= i < start.len() implies on_stack_above(
        stack,
        -1,
        #[trigger] start[i],
    ) by {
        assert(stack[i].node == start[i]);
    }
}

/// A node that the walk has left already is dropped from the stack.
proof fn lemma_skip(g: Graph, start: Seq<Id>, stack: Seq<Frame>, chain: Seq<Id>, left: Seq<Id>)
    requires
        walking(g, start, stack, chain, left),
        stack.len() > 0,
        left.contains(stack.last().node),
    ensures
        !stack.last().entered,
        walking(g, start, stack.drop_last(), chain, left),
{
    reveal(walking);
    let top = stack.last();
    let rest = stack.drop_last();
    assert(stack[stack.len() - 1] == top);
    if top.entered {
        assert(chain[top.depth as int] == top.node);
        assert(false);
    }
    lemma_single(g, top.node, left, (g.dom().len() - top.depth) as nat);
    if rest.len() > 0 {
        assert(stacked(stack, stack.len() - 1));
    }
    assert forall|i: int, m: Id|
        0 <= i < rest.len() && rest[i].entered && #[trigger] edge(
            g,
            rest[i].node,
            m,
        ) implies left.contains(m) || on_stack_above(rest, i, m) by {
        assert(edge(g, stack[i].node, m));
        if !left.contains(m) {
            let j = choose|j: int| i < j < stack.len() && (#[trigger] stack[j]).node == m;
            assert(rest[j].node == m);
        }
    }
    assert forall|i: int| 0 <= i < start.len() implies left.contains(#[trigger] start[i])
        || on_stack_above(rest, -1, start[i]) by {
        if !left.contains(start[i]) {
            assert(on_stack_above(stack, -1, start[i]));
            let j = choose|j: int| -1 < j < stack.len() && (#[trigger] stack[j]).node == start[i];
            assert(rest[j].node == start[i]);
        }
    }
    assert forall|i: int| 0 < i < rest.len() implies #[trigger] stacked(rest, i) by {
        assert(stacked(stack, i));
    }
}

/// A node that the walk comes to for the first time is entered, and its
/// neighbors go on the stack.
proof fn lemma_enter(g: Graph, start: Seq<Id>, stack: Seq<Frame>, chain: Seq<Id>, left: Seq<Id>)
    requires
        walking(g, start, stack, chain, left),
        stack.len() > 0,
        !stack.last().entered,
        !left.contains(stack.last().node),
        !chain.contains(stack.last().node),
    ensures
        ({
            let top = stack.last();
            walking(
                g,
                start,
                stack.drop_last().push(Frame { entered: true, ..top }) + frames(
                    g[top.node],
                    top.depth + 1,
                ),
                chain.push(top.node),
                left,
            )
        }),
        left.len() + chain.len() < g.dom().len(),
        g.contains_key(stack.last().node),
{
    reveal(walking);
    let top = stack.last();
    let n = top.node;
    let rest = stack.drop_last();
    let base = rest.push(Frame { entered: true, ..top });
    let added = frames(g[n], top.depth + 1);
    let next = base + added;
    let longer = chain.push(n);
    assert(stack[stack.len() - 1] == top);
    // The entered nodes and those that were left are distinct nodes of the
    // graph, and this one is another.
    let all = left + longer;
    assert(all.no_duplicates()) by {
        assert forall|i: int, j: int| 0 <= i < j < all.len() implies all[i] != all[j] by {
            if i < left.len() && j >= left.len() {
                assert(left.contains(left[i]));
                if j < left.len() + chain.len() {
                    assert(!left.contains(chain[j - left.len()]));
                }
            } else if i >= left.len() && j == all.len() - 1 {
                assert(chain.contains(chain[i - left.len()]));
            }
        }
    }
    lemma_len_bound(g, all);
    // What the walk ends with stays the same.
    let f = g.dom().len();
    assert(top.depth == chain.len());
    assert(f - top.depth > 0);
    lemma_single(g, n, left, (f - top.depth) as nat);
    lemma_frames(g, base, g[n], top.depth + 1, left);
    let w = walk(g, g[n], left, (f - (top.depth + 1)) as nat);
    assert(base.drop_last() =~= rest);
    assert(finish(g, base, w) == finish(g, rest, w.push(n)));
    assert(finish(g, next, left) == finish(g, stack, left));
    assert forall|i: int| 0 <= i < next.len() implies {
        let frame = #[trigger] next[i];
        &&& i < rest.len() ==> frame == stack[i]
        &&& i == rest.len() ==> frame == (Frame { entered: true, ..top })
        &&& i > rest.len() ==> frame == (Frame {
            node: g[n][i - rest.len() - 1],
            entered: false,
            depth: top.depth + 1,
        }) && edge(g, n, frame.node)
    } by {
        if i > rest.len() {
            assert(g[n].contains(g[n][i - rest.len() - 1]));
        }
    }
    assert forall|i: int| 0 <= i < next.len() implies g.contains_key((#[trigger] next[i]).node) by {
        if i < rest.len() {
            assert(g.contains_key(stack[i].node));
        } else if i > rest.len() {
            assert(edge(g, n, next[i].node));
        }
    }
    assert forall|i: int| 0 <= i < longer.len() implies !left.contains(#[trigger] longer[i]) by {
        if i < chain.len() {
            assert(!left.contains(chain[i]));
        }
    }
    assert forall|i: int| 0 < i < next.len() implies #[trigger] stacked(next, i) by {
        let below = next[i - 1];
        if i <= rest.len() {
            assert(stacked(stack, i));
        }
    }
    assert(next.last() == next[next.len() - 1]);
    assert forall|i: int| 0 <= i < next.len() && (#[trigger] next[i]).entered implies next[i].depth
        < longer.len() && longer[next[i].depth as int] == next[i].node by {
        if i < rest.len() {
            assert(stack[i].entered);
        }
    }
    assert forall|i: int| 0 <= i < next.len() && 0 < (#[trigger] next[i]).depth implies next[i].depth
        <= longer.len() && edge(g, longer[next[i].depth - 1], next[i].node) by {
        if i <= rest.len() {
            assert(0 < stack[i].depth);
        }
    }
    assert forall|i: int| 0 <= i < longer.len() - 1 implies #[trigger] step(g, longer, i) by {
        if i < chain.len() - 1 {
            assert(step(g, chain, i));
        } else {
            assert(0 < stack[stack.len() - 1].depth);
        }
    }
    assert forall|i: int| 0 <= i < next.len() implies reached(g, start, (#[trigger] next[i]).node) by {
        assert(reached(g, start, stack[stack.len() - 1].node));
        if i < rest.len() {
            assert(reached(g, start, stack[i].node));
        } else if i > rest.len() {
            lemma_reached_step(g, start, n, next[i].node);
        }
    }
    assert forall|i: int, m: Id|
        0 <= i < next.len() && next[i].entered && #[trigger] edge(
            g,
            next[i].node,
            m,
        ) implies left.contains(m) || on_stack_above(next, i, m) by {
        if i < rest.len() {
            assert(edge(g, stack[i].node, m));
            if !left.contains(m) {
                let j = choose|j: int| i < j < stack.len() && (#[trigger] stack[j]).node == m;
                assert(next[j].node == m);
            }
        } else {
            assert(i == rest.len());
            let k = g[n].index_of(m);
            assert(next[rest.len() + 1 + k].node == m);
        }
    }
    assert forall|i: int| 0 <= i < start.len() implies left.contains(#[trigger] start[i])
        || on_stack_above(next, -1, start[i]) by {
        if !left.contains(start[i]) {
            assert(on_stack_above(stack, -1, start[i]));
            let j = choose|j: int| -1 < j < stack.len() && (#[trigger] stack[j]).node == start[i];
            assert(next[j].node == start[i]);
        }
    }
}

/// A node whose neighbors the walk has gone through is left.
proof fn lemma_leave(g: Graph, start: Seq<Id>, stack: Seq<Frame>, chain: Seq<Id>, left: Seq<Id>)
    requires
        walking(g, start, stack, chain, left),
        stack.len() > 0,
        stack.last().entered,
    ensures
        chain.len() > 0,
        chain.last() == stack.last().node,
        !left.contains(stack.last().node),
        walking(g, start, stack.drop_last(), chain.drop_last(), left.push(stack.last().node)),
{
    reveal(walking);
    let top = stack.last();
    let n = top.node;
    let rest = stack.drop_last();
    let shorter = chain.drop_last();
    let after = left.push(n);
    assert(stack[stack.len() - 1] == top);
    assert(chain[top.depth as int] == n);
    assert(!left.contains(chain[top.depth as int]));
    assert forall|m: Id| left.contains(m) implies after.contains(m) by {
        let k = left.index_of(m);
        assert(after[k] == m);
    }
    assert(after.contains(n)) by {
        assert(after[left.len() as int] == n);
    }
    assert(after.no_duplicates()) by {
        assert forall|i: int, j: int| 0 <= i < j < after.len() implies after[i] != after[j] by {
            if j == left.len() {
                assert(left.contains(left[i]));
            }
        }
    }
    assert forall|i: int| 0 <= i < shorter.len() implies !after.contains(#[trigger] shorter[i]) by {
        assert(!left.contains(chain[i]));
        if after.contains(shorter[i]) {
            let k = after.index_of(shorter[i]);
            if k < left.len() {
                assert(left[k] == chain[i]);
            }
            assert(chain[i] != chain[chain.len() - 1]);
        }
    }
    if rest.len() > 0 {
        assert(stacked(stack, stack.len() - 1));
    }
    assert forall|i: int| 0 <= i < rest.len() implies level(#[trigger] rest[i]) <= shorter.len() by {
        lemma_levels(stack, i, stack.len() - 2);
        assert(stacked(stack, stack.len() - 1));
    }
    assert forall|i: int| 0 < i < rest.len() implies #[trigger] stacked(rest, i) by {
        assert(stacked(stack, i));
    }
    assert forall|i: int| 0 <= i < rest.len() && (#[trigger] rest[i]).entered implies rest[i].depth
        < shorter.len() && shorter[rest[i].depth as int] == rest[i].node by {
        assert(stack[i].entered);
    }
    assert forall|i: int| 0 <= i < rest.len() && 0 < (#[trigger] rest[i]).depth implies rest[i].depth
        <= shorter.len() && edge(g, shorter[rest[i].depth - 1], rest[i].node) by {
        assert(0 < stack[i].depth);
    }
    assert forall|i: int| 0 <= i < shorter.len() - 1 implies #[trigger] step(g, shorter, i) by {
        assert(step(g, chain, i));
    }
    assert forall|i: int| 0 <= i < after.len() implies reached(g, start, #[trigger] after[i]) by {
        if i < left.len() {
            assert(reached(g, start, left[i]));
        } else {
            assert(reached(g, start, stack[stack.len() - 1].node));
        }
    }
    assert forall|i: int| 0 <= i < after.len() implies g.contains_key(#[trigger] after[i]) by {
        if i < left.len() {
            assert(g.contains_key(left[i]));
        }
    }
    assert forall|i: int, m: Id|
        0 <= i < after.len() && #[trigger] edge(g, after[i], m) implies listed_before(after, i, m) by {
        if i < left.len() {
            assert(edge(g, left[i], m));
            let j = choose|j: int| 0 <= j < i && #[trigger] left[j] == m;
            assert(after[j] == m);
        } else {
            assert(edge(g, stack[stack.len() - 1].node, m));
            assert(left.contains(m) || on_stack_above(stack, stack.len() - 1, m));
            let j = left.index_of(m);
            assert(after[j] == m);
        }
    }
    assert forall|i: int, m: Id|
        0 <= i < rest.len() && rest[i].entered && #[trigger] edge(
            g,
            rest[i].node,
            m,
        ) implies after.contains(m) || on_stack_above(rest, i, m) by {
        assert(edge(g, stack[i].node, m));
        if !left.contains(m) {
            let j = choose|j: int| i < j < stack.len() && (#[trigger] stack[j]).node == m;
            if j < rest.len() {
                assert(rest[j].node == m);
            }
        }
    }
    assert forall|i: int| 0 <= i < start.len() implies after.contains(#[trigger] start[i])
        || on_stack_above(rest, -1, start[i]) by {
        if !left.contains(start[i]) {
            assert(on_stack_above(stack, -1, start[i]));
            let j = choose|j: int| -1 < j < stack.len() && (#[trigger] stack[j]).node == start[i];
            if j < rest.len() {
                assert(rest[j].node == start[i]);
            }
        }
    }
}

/// A node that the walk comes to again before leaving it lies on a cycle.
proof fn lemma_cycle(g: Graph, start: Seq<Id>, stack: Seq<Frame>, chain: Seq<Id>, left: Seq<Id>)
    requires
        walking(g, start, stack, chain, left),
        stack.len() > 0,
        !stack.last().entered,
        chain.contains(stack.last().node),
    ensures
        reached(g, start, stack.last().node),
        on_cycle(g, stack.last().node),
{
    reveal(walking);
    let top = stack.last();
    let n = top.node;
    assert(stack[stack.len() - 1] == top);
    assert(0 < stack[stack.len() - 1].depth);
    let k = chain.index_of(n);
    let path = chain.subrange(k, chain.len() as int).push(n);
    assert forall|i: int| 0 <= i < path.len() - 1 implies #[trigger] step(g, path, i) by {
        if i < path.len() - 2 {
            assert(step(g, chain, k + i));
        }
    }
    assert(is_path(g, path));
    assert(path.first() == n && path.last() == n);
}

/// A list in which each node comes after its neighbors holds all that can be
/// reached from its members.
proof fn lemma_listed_path(g: Graph, left: Seq<Id>, path: Seq<Id>, k: int) -> (i: int)
    requires
        is_path(g, path),
        0 <= k < path.len(),
        left.contains(path[0]),
        left.no_duplicates(),
        forall|i: int, m: Id|
            0 <= i < left.len() && #[trigger] edge(g, left[i], m) ==> listed_before(left, i, m),
    ensures
        0 <= i < left.len(),
        left[i] == path[k],
        i + k <= left.index_of(path[0]),
    decreases k,
{
    if k == 0 {
        left.index_of(path[0])
    } else {
        let before = lemma_listed_path(g, left, path, k - 1);
        assert(step(g, path, k - 1));
        assert(edge(g, left[before], path[k]));
        choose|j: int| 0 <= j < before && #[trigger] left[j] == path[k]
    }
}

/// What is left in order holds no cycle.
proof fn lemma_end(g: Graph, start: Seq<Id>, chain: Seq<Id>, left: Seq<Id>)
    requires
        walking(g, start, Seq::empty(), chain, left),
    ensures
        left == walk(g, start, Seq::empty(), g.dom().len()),
        forall|n: Id| #[trigger] reached(g, start, n) <==> left.contains(n),
        forall|n: Id| #[trigger] reached(g, start, n) ==> !on_cycle(g, n),
{
    reveal(walking);
    assert forall|n: Id| #[trigger] reached(g, start, n) implies left.contains(n) by {
        let i = choose|i: int| 0 <= i < start.len() && reaches(g, #[trigger] start[i], n);
        let path = choose|path: Seq<Id>|
            #[trigger] is_path(g, path) && path.first() == start[i] && path.last() == n;
        assert(!on_stack_above(Seq::<Frame>::empty(), -1, start[i]));
        assert(left.contains(path[0]));
        let at = lemma_listed_path(g, left, path, path.len() - 1);
        assert(left[at] == n);
    }
    assert forall|n: Id| left.contains(n) implies #[trigger] reached(g, start, n) by {
        assert(reached(g, start, left[left.index_of(n)]));
    }
    assert forall|n: Id| #[trigger] reached(g, start, n) implies !on_cycle(g, n) by {
        if on_cycle(g, n) {
            let path = choose|path: Seq<Id>|
                #[trigger] is_path(g, path) && path.len() >= 2 && path.first() == n && path.last()
                    == n;
            let at = lemma_listed_path(g, left, path, path.len() - 1);
            let first = left.index_of(n);
            assert(left[first] == n && left[at] == n && at < first);
        }
    }
}

/// What the walk ends with, from any point of it, where no cycle can be
/// reached.
proof fn lemma_run(g: Graph, start: Seq<Id>, stack: Seq<Frame>, chain: Seq<Id>, left: Seq<Id>)
    requires
        walking(g, start, stack, chain, left),
        forall|n: Id| #[trigger] reached(g, start, n) ==> !on_cycle(g, n),
        chain.len() + left.len() <= g.dom().len(),
    ensures
        ({
            let order = walk(g, start, Seq::empty(), g.dom().len());
            &&& order.no_duplicates()
            &&& forall|n: Id| #[trigger] reached(g, start, n) <==> order.contains(n)
            &&& forall|i: int, m: Id|
                0 <= i < order.len() && #[trigger] edge(g, order[i], m) ==> listed_before(
                    order,
                    i,
                    m,
                )
        }),
    decreases g.dom().len() - chain.len() - left.len(), stack.len(),
{
    if stack.len() == 0 {
        assert(stack =~= Seq::<Frame>::empty());
        lemma_end(g, start, chain, left);
        reveal(walking);
    } else {
        let top = stack.last();
        if left.contains(top.node) {
            lemma_skip(g, start, stack, chain, left);
            lemma_run(g, start, stack.drop_last(), chain, left);
        } else if !top.entered {
            if chain.contains(top.node) {
                lemma_cycle(g, start, stack, chain, left);
                assert(false);
            }
            lemma_enter(g, start, stack, chain, left);
            lemma_run(
                g,
                start,
                stack.drop_last().push(Frame { entered: true, ..top }) + frames(
                    g[top.node],
                    top.depth + 1,
                ),
                chain.push(top.node),
                left,
            );
        } else {
            lemma_leave(g, start, stack, chain, left);
            lemma_run(g, start, stack.drop_last(), chain.drop_last(), left.push(top.node));
        }
    }
}

/// Where no cycle can be reached from `start`, the order lists just the nodes
/// that can be reached, each of them once, and each before its neighbors.
pub proof fn law_topo_order(g: Graph, start: Seq<Id>)
    requires
        g.dom().finite(),
        closed(g),
        forall|i: int| 0 <= i < start.len() ==> g.contains_key(#[trigger] start[i]),
        forall|n: Id| #[trigger] reached(g, start, n) ==> !on_cycle(g, n),
    ensures
        topo_order(g, start).no_duplicates(),
        forall|n: Id| #[trigger] topo_order(g, start).contains(n) <==> reached(g, start, n),
        forall|i: int, j: int|
            #![trigger topo_order(g, start)[i], topo_order(g, start)[j]]
            0 <= i < topo_order(g, start).len() && 0 <= j < topo_order(g, start).len() && edge(
                g,
                topo_order(g, start)[i],
                topo_order(g, start)[j],
            ) ==> i < j,
{
    lemma_begin(g, start);
    lemma_run(g, start, frames(start, 0), Seq::empty(), Seq::empty());
    let left = walk(g, start, Seq::empty(), g.dom().len());
    let order = topo_order(g, start);
    let last = left.len() - 1;
    assert forall|n: Id| #[trigger] order.contains(n) <==> reached(g, start, n) by {
        if order.contains(n) {
            assert(left[last - order.index_of(n)] == n);
            assert(left.contains(n));
        }
        if reached(g, start, n) {
            assert(left.contains(n));
            assert(order[last - left.index_of(n)] == n);
        }
    }
    assert forall|i: int, j: int|
        #![trigger order[i], order[j]]
        0 <= i < order.len() && 0 <= j < order.len() && edge(g, order[i], order[j]) implies i < j by {
        assert(edge(g, left[last - i], left[last - j]));
        assert(listed_before(left, last - i, left[last - j]));
    }
}

/// Tells whether a list of commits has the given one.
pub fn contains_id(list: &Vec<CommitId>, id: &CommitId) -> (found: bool)
    ensures
        found == ids(list@).contains(id@),
{
    let mut i: usize = 0;
    while i < list.len()
        invariant
            i <= list.len(),
            forall|j: int| 0 <= j < i ==> ids(list@)[j] != id@,
        decreases list.len() - i,
    {
        if list[i].same(id) {
            assert(ids(list@)[i as int] == id@);
            return true;
        }
        i += 1;
    }
    false
}

/// Nothing else has `n` as a neighbor.
pub open spec fn is_head(g: Graph, n: Id) -> bool {
    forall|m: Id| #[trigger] edge(g, m, n) ==> m == n
}

/// The heads of a graph are the nodes that no other node leads to.
pub proof fn law_heads_are_not_reached(g: Graph, n: Id)
    ensures
        is_head(g, n) <==> (forall|m: Id| #[trigger] reaches(g, m, n) ==> m == n),
{
    if is_head(g, n) {
        assert forall|m: Id| #[trigger] reaches(g, m, n) implies m == n by {
            let path = choose|path: Seq<Id>|
                #[trigger] is_path(g, path) && path.first() == m && path.last() == n;
            lemma_head_path(g, path, n);
        }
    } else {
        let m = choose|m: Id| #[trigger] edge(g, m, n) && m != n;
        lemma_reaches_self(g, m);
        lemma_reaches_step(g, m, m, n);
    }
}

/// A path to a head never leaves it.
proof fn lemma_head_path(g: Graph, path: Seq<Id>, n: Id)
    requires
        is_path(g, path),
        path.last() == n,
        is_head(g, n),
    ensures
        path.first() == n,
    decreases path.len(),
{
    if path.len() > 1 {
        let front = path.drop_last();
        assert(step(g, path, path.len() - 2));
        assert(edge(g, front.last(), n));
        assert forall|i: int| 0 <= i < front.len() - 1 implies #[trigger] step(g, front, i) by {
            assert(step(g, path, i));
        }
        lemma_head_path(g, front, n);
    }
}

/// Some head leads to each node, where there is no cycle.
pub proof fn law_heads_reach_all(g: Graph, n: Id) -> (head: Id)
    requires
        g.dom().finite(),
        closed(g),
        g.contains_key(n),
        forall|m: Id| !#[trigger] on_cycle(g, m),
    ensures
        g.contains_key(head),
        is_head(g, head),
        reaches(g, head, n),
{
    assert(is_path(g, seq![n]));
    lemma_climb(g, seq![n])
}

/// Every path without repetition leads on upwards to a head.
proof fn lemma_climb(g: Graph, path: Seq<Id>) -> (head: Id)
    requires
        g.dom().finite(),
        closed(g),
        is_path(g, path),
        path.no_duplicates(),
        forall|i: int| 0 <= i < path.len() ==> g.contains_key(#[trigger] path[i]),
        forall|m: Id| !#[trigger] on_cycle(g, m),
    ensures
        g.contains_key(head),
        is_head(g, head),
        reaches(g, head, path.last()),
    decreases g.dom().len() - path.len(),
{
    let top = path.first();
    lemma_len_bound(g, path);
    if is_head(g, top) {
        assert(g.contains_key(path[0]));
        top
    } else {
        let m = choose|m: Id| #[trigger] edge(g, m, top) && m != top;
        if path.contains(m) {
            let k = path.index_of(m);
            let round = seq![m] + path.take(k + 1);
            assert forall|i: int| 0 <= i < round.len() - 1 implies #[trigger] step(g, round, i) by {
                if i > 0 {
                    assert(step(g, path, i - 1));
                }
            }
            assert(is_path(g, round));
            assert(round.first() == m && round.last() == m);
            assert(on_cycle(g, m));
        }
        let longer = seq![m] + path;
        assert forall|i: int| 0 <= i < longer.len() - 1 implies #[trigger] step(g, longer, i) by {
            if i > 0 {
                assert(step(g, path, i - 1));
            }
        }
        assert(longer.no_duplicates()) by {
            assert forall|i: int, j: int| 0 <= i < j < longer.len() implies longer[i] != longer[j] by {
                if i == 0 {
                    assert(path.contains(path[j - 1]));
                }
            }
        }
        lemma_len_bound(g, longer);
        let head = lemma_climb(g, longer);
        assert(longer.last() == path.last());
        head
    }
}

/// Picks out of `nodes`, in their order, those that no other node of the graph
/// has as a neighbor.
pub fn heads(nodes: &Vec<CommitId>, graph: &IdMap<Vec<CommitId>>) -> (heads: Vec<CommitId>)
    requires
        graph.wf(),
    ensures
        ids(heads@) == ids(nodes@).filter(|n: Id| is_head(id_lists(graph@), n)),
{
    let ghost g = id_lists(graph@);
    let ghost pred = |n: Id| is_head(g, n);
    let mut heads: Vec<CommitId> = Vec::new();
    let mut i: usize = 0;
    assert(ids(nodes@).take(0).filter(pred) =~= Seq::<Id>::empty()) by {
        reveal(Seq::filter);
    }
    assert(ids(heads@) =~= Seq::<Id>::empty());
    while i < nodes.len()
        invariant
            i <= nodes.len(),
            graph.wf(),
            g == id_lists(graph@),
            pred == (|n: Id| is_head(g, n)),
            ids(heads@) == ids(nodes@).take(i as int).filter(pred),
        decreases nodes.len() - i,
    {
        let id = nodes[i].clone();
        proof {
            assert(ids(nodes@).take(i + 1) =~= ids(nodes@).take(i as int).push(id@));
            ids(nodes@).take(i as int).lemma_filter_push(id@, pred);
            lemma_ids_push(heads@, id);
        }
        if is_head_of(&id, graph) {
            heads.push(id);
        }
        i += 1;
    }
    assert(ids(nodes@).take(i as int) =~= ids(nodes@));
    heads
}

/// Tells whether no other node of the graph has `node` as a neighbor.
fn is_head_of(node: &CommitId, graph: &IdMap<Vec<CommitId>>) -> (head: bool)
    requires
        graph.wf(),
    ensures
        head == is_head(id_lists(graph@), node@),
{
    let ghost g = id_lists(graph@);
    proof {
        graph.lemma_keys();
        assert(g.dom() =~= graph@.dom());
    }
    let mut i: usize = 0;
    while i < graph.len()
        invariant
            i <= graph.keys().len(),
            graph.wf(),
            g == id_lists(graph@),
            forall|j: int|
                0 <= j < i && #[trigger] edge(g, graph.keys()[j], node@) ==> graph.keys()[j]
                    == node@,
        decreases graph.keys().len() - i,
    {
        if !graph.key_at(i).same(node) && contains_id(graph.value_at(i), node) {
            assert(edge(g, graph.keys()[i as int], node@));
            return false;
        }
        i += 1;
    }
    assert forall|m: Id| #[trigger] edge(g, m, node@) implies m == node@ by {
        let j = graph.keys().index_of(m);
        assert(graph.keys().contains(m));
        assert(edge(g, graph.keys()[j], node@));
    }
    true
}

/// The same commits, last first.
fn reversed(list: Vec<CommitId>) -> (back: Vec<CommitId>)
    ensures
        ids(back@) == ids(list@).reverse(),
{
    let mut rest: Vec<CommitId> = list;
    let mut back: Vec<CommitId> = Vec::new();
    while rest.len() > 0
        invariant
            rest@ == list@.take(rest.len() as int),
            rest.len() <= list.len(),
            back.len() == list.len() - rest.len(),
            forall|i: int| 0 <= i < back.len() ==> back[i] == list[list.len() - 1 - i],
        decreases rest.len(),
    {
        match rest.pop() {
            Some(id) => {
                back.push(id);
                assert(rest@ =~= list@.take(rest.len() as int));
            },
            None => {},
        }
    }
    assert(ids(back@) =~= ids(list@).reverse());
    back
}

spec fn stands_for(stack: Seq<(CommitId, bool)>, frames: Seq<Frame>) -> bool {
    &&& stack.len() == frames.len()
    &&& forall|i: int|
        0 <= i < stack.len() ==> (#[trigger] stack[i]).0@ == frames[i].node && stack[i].1
            == frames[i].entered
}

/// Lists the nodes that can be reached from `start`, each before its
/// neighbors. Where a cycle can be reached there is no such list, and one of
/// the nodes on a cycle comes back instead.
pub fn topo_order_reverse(start: &Vec<CommitId>, graph: &IdMap<Vec<CommitId>>) -> (result: Result<
    Vec<CommitId>,
    CommitId,
>)
    requires
        graph.wf(),
        closed(id_lists(graph@)),
        forall|i: int| 0 <= i < start.len() ==> graph@.contains_key((#[trigger] start[i])@),
    ensures
        match result {
            Ok(order) => {
                &&& ids(order@) == topo_order(id_lists(graph@), ids(start@))
                &&& forall|n: Id| #[trigger]
                    reached(id_lists(graph@), ids(start@), n) ==> !on_cycle(id_lists(graph@), n)
            },
            Err(node) => {
                &&& reached(id_lists(graph@), ids(start@), node@)
                &&& on_cycle(id_lists(graph@), node@)
            },
        },
{
    let ghost g = id_lists(graph@);
    proof {
        graph.lemma_keys();
        assert(g.dom() =~= graph@.dom());
    }
    let mut stack: Vec<(CommitId, bool)> = Vec::new();
    let mut i: usize = 0;
    while i < start.len()
        invariant
            i <= start.len(),
            stands_for(stack@, frames(ids(start@).take(i as int), 0)),
        decreases start.len() - i,
    {
        stack.push((start[i].clone(), false));
        i += 1;
        assert(stands_for(stack@, frames(ids(start@).take(i as int), 0)));
    }
    let ghost mut gstack: Seq<Frame> = frames(ids(start@), 0);
    let mut chain: Vec<CommitId> = Vec::new();
    let mut result: Vec<CommitId> = Vec::new();
    proof {
        assert(ids(start@).take(i as int) =~= ids(start@));
        assert(ids(chain@) =~= Seq::<Id>::empty());
        assert(ids(result@) =~= Seq::<Id>::empty());
        assert forall|k: int| 0 <= k < ids(start@).len() implies g.contains_key(
            #[trigger] ids(start@)[k],
        ) by {
            assert(graph@.contains_key(start[k]@));
        }
        lemma_begin(g, ids(start@));
    }
    while stack.len() > 0
        invariant
            g == id_lists(graph@),
            graph.wf(),
            stands_for(stack@, gstack),
            walking(g, ids(start@), gstack, ids(chain@), ids(result@)),
            ids(chain@).len() + ids(result@).len() <= g.dom().len(),
        decreases g.dom().len() - ids(chain@).len() - ids(result@).len(), stack.len(),
    {
        let ghost before = stack@;
        let (node, entered) = stack.pop().unwrap();
        proof {
            assert(before.last().0@ == gstack.last().node);
            assert(gstack[gstack.len() - 1] == gstack.last());
            assert(stands_for(stack@, gstack.drop_last()));
        }
        if contains_id(&result, &node) {
            proof {
                lemma_skip(g, ids(start@), gstack, ids(chain@), ids(result@));
                gstack = gstack.drop_last();
            }
            continue ;
        }
        if !entered {
            if contains_id(&chain, &node) {
                proof {
                    lemma_cycle(g, ids(start@), gstack, ids(chain@), ids(result@));
                }
                return Err(node);
            }
            proof {
                lemma_enter(g, ids(start@), gstack, ids(chain@), ids(result@));
            }
            let neighbors: &Vec<CommitId> = match graph.get(&node) {
                Some(list) => list,
                None => {
                    assert(false);
                    return Err(node);
                },
            };
            let ghost base = gstack.drop_last().push(Frame { entered: true, ..gstack.last() });
            let ghost nodes = g[node@];
            let ghost depth = gstack.last().depth + 1;
            let link = node.clone();
            proof {
                lemma_ids_push(chain@, link);
            }
            chain.push(link);
            stack.push((node, true));
            assert(stands_for(stack@, base));
            let mut j: usize = 0;
            while j < neighbors.len()
                invariant
                    j <= neighbors.len(),
                    nodes == ids(neighbors@),
                    stands_for(stack@, base + frames(nodes.take(j as int), depth)),
                decreases neighbors.len() - j,
            {
                stack.push((neighbors[j].clone(), false));
                j += 1;
                assert(stands_for(stack@, base + frames(nodes.take(j as int), depth)));
            }
            proof {
                assert(nodes.take(j as int) =~= nodes);
                gstack = base + frames(nodes, depth);
            }
        } else {
            proof {
                lemma_leave(g, ids(start@), gstack, ids(chain@), ids(result@));
                lemma_ids_push(result@, node);
                assert(ids(chain@).drop_last() =~= ids(chain@.drop_last()));
            }
            let _ = chain.pop();
            result.push(node);
            proof {
                gstack = gstack.drop_last();
            }
        }
    }
    proof {
        assert(gstack =~= Seq::<Frame>::empty());
        lemma_end(g, ids(start@), ids(chain@), ids(result@));
    }
    Ok(reversed(result))
}

/// The nodes of a list that are not in `known`.
spec fn without(list: Seq<Id>, known: Seq<Id>) -> Seq<Id> {
    list.filter(|n: Id| !known.contains(n))
}

proof fn lemma_without_push(list: Seq<Id>, n: Id, known: Seq<Id>)
    ensures
        without(list.push(n), known) == if known.contains(n) {
            without(list, known)
        } else {
            without(list, known).push(n)
        },
        without(list, known).contains(n) <==> list.contains(n) && !known.contains(n),
{
    let fresh = |m: Id| !known.contains(m);
    list.lemma_filter_push(n, fresh);
    if without(list, known).contains(n) {
        let i = without(list, known).index_of(n);
        list.lemma_filter_pred(fresh, i);
        list.lemma_filter_contains_rev(fresh, n);
    }
    if list.contains(n) && !known.contains(n) {
        list.lemma_filter_contains(fresh, list.index_of(n));
    }
}

/// A walk from nodes of a closed list leaves nothing outside of it.
proof fn lemma_walk_inside(g: Graph, start: Seq<Id>, known: Seq<Id>, left: Seq<Id>, depth: nat)
    requires
        forall|n: Id, m: Id|
            known.contains(n) && #[trigger] g[n].contains(m) ==> known.contains(m),
        forall|i: int| 0 <= i < start.len() ==> known.contains(#[trigger] start[i]),
    ensures
        without(walk(g, start, left, depth), known) == without(left, known),
    decreases depth, start.len(),
{
    if start.len() > 0 {
        let node = start.last();
        let front = start.drop_last();
        assert(known.contains(start[start.len() - 1]));
        let next = if left.contains(node) || depth == 0 {
            left
        } else {
            let inner = walk(g, g[node], left, (depth - 1) as nat);
            assert forall|i: int| 0 <= i < g[node].len() implies known.contains(
                #[trigger] g[node][i],
            ) by {
                assert(g[node].contains(g[node][i]));
            }
            lemma_walk_inside(g, g[node], known, left, (depth - 1) as nat);
            lemma_without_push(inner, node, known);
            inner.push(node)
        };
        assert forall|i: int| 0 <= i < front.len() implies known.contains(#[trigger] front[i]) by {
            assert(known.contains(start[i]));
        }
        lemma_walk_inside(g, front, known, next, depth);
    }
}

/// Where a walk has been before, it does not go again, and all else it leaves
/// in the same order.
proof fn lemma_walk_after(g: Graph, start: Seq<Id>, known: Seq<Id>, left: Seq<Id>, depth: nat)
    requires
        forall|n: Id, m: Id|
            known.contains(n) && #[trigger] g[n].contains(m) ==> known.contains(m),
    ensures
        walk(g, start, known + without(left, known), depth) == known + without(
            walk(g, start, left, depth),
            known,
        ),
    decreases depth, start.len(),
{
    if start.len() > 0 {
        let node = start.last();
        let front = start.drop_last();
        let both = known + without(left, known);
        lemma_without_push(left, node, known);
        assert(both.contains(node) <==> known.contains(node) || left.contains(node)) by {
            if known.contains(node) {
                assert(both[known.index_of(node)] == node);
            }
            if without(left, known).contains(node) {
                assert(both[known.len() + without(left, known).index_of(node)] == node);
            }
            if both.contains(node) {
                let i = both.index_of(node);
                if i >= known.len() {
                    assert(without(left, known)[i - known.len()] == node);
                }
            }
        }
        let next = if left.contains(node) || depth == 0 {
            left
        } else {
            walk(g, g[node], left, (depth - 1) as nat).push(node)
        };
        if left.contains(node) || depth == 0 {
            lemma_walk_after(g, front, known, next, depth);
        } else {
            let inner = walk(g, g[node], left, (depth - 1) as nat);
            lemma_without_push(inner, node, known);
            if known.contains(node) {
                assert forall|i: int| 0 <= i < g[node].len() implies known.contains(
                    #[trigger] g[node][i],
                ) by {
                    assert(g[node].contains(g[node][i]));
                }
                lemma_walk_inside(g, g[node], known, left, (depth - 1) as nat);
                assert(without(next, known) == without(left, known));
            } else {
                lemma_walk_after(g, g[node], known, left, (depth - 1) as nat);
                assert(known + without(next, known) =~= walk(
                    g,
                    g[node],
                    both,
                    (depth - 1) as nat,
                ).push(node));
            }
            lemma_walk_after(g, front, known, next, depth);
        }
    }
}

/// Without a cycle a walk does not go deeper than there are nodes, however deep
/// it may.
proof fn lemma_depth(
    g: Graph,
    chain: Seq<Id>,
    start: Seq<Id>,
    left: Seq<Id>,
    depth: nat,
    more: nat,
)
    requires
        g.dom().finite(),
        closed(g),
        forall|n: Id| !#[trigger] on_cycle(g, n),
        chain.no_duplicates(),
        chain.len() > 0 ==> is_path(g, chain),
        forall|i: int| 0 <= i < chain.len() ==> g.contains_key(#[trigger] chain[i]),
        forall|i: int| 0 <= i < start.len() ==> g.contains_key(#[trigger] start[i]),
        chain.len() > 0 ==> forall|i: int|
            0 <= i < start.len() ==> edge(g, chain.last(), #[trigger] start[i]),
        g.dom().len() <= chain.len() + depth,
        depth <= more,
    ensures
        walk(g, start, left, depth) == walk(g, start, left, more),
    decreases depth, start.len(),
{
    if start.len() > 0 {
        let node = start.last();
        let front = start.drop_last();
        assert(g.contains_key(start[start.len() - 1]));
        if chain.len() > 0 {
            assert(edge(g, chain.last(), start[start.len() - 1]));
        }
        if !left.contains(node) {
            let longer = chain.push(node);
            if chain.contains(node) {
                let k = chain.index_of(node);
                let round = chain.skip(k).push(node);
                assert forall|i: int| 0 <= i < round.len() - 1 implies #[trigger] step(
                    g,
                    round,
                    i,
                ) by {
                    if i < round.len() - 2 {
                        assert(step(g, chain, k + i));
                    }
                }
                assert(round.first() == node && round.last() == node);
                assert(is_path(g, round));
                assert(on_cycle(g, node));
            }
            assert forall|i: int| 0 <= i < longer.len() - 1 implies #[trigger] step(
                g,
                longer,
                i,
            ) by {
                if i < chain.len() - 1 {
                    assert(step(g, chain, i));
                }
            }
            assert(is_path(g, longer));
            assert(longer.no_duplicates());
            lemma_len_bound(g, longer);
            assert(depth > 0);
            assert forall|i: int| 0 <= i < g[node].len() implies g.contains_key(
                #[trigger] g[node][i],
            ) && edge(g, node, g[node][i]) by {
                assert(g[node].contains(g[node][i]));
                assert(edge(g, node, g[node][i]));
            }
            lemma_depth(
                g,
                longer,
                g[node],
                left,
                (depth - 1) as nat,
                (more - 1) as nat,
            );
        }
        let next = if left.contains(node) || depth == 0 {
            left
        } else {
            walk(g, g[node], left, (depth - 1) as nat).push(node)
        };
        assert forall|i: int| 0 <= i < front.len() implies g.contains_key(#[trigger] front[i]) by {
            assert(g.contains_key(start[i]));
        }
        if chain.len() > 0 {
            assert forall|i: int| 0 <= i < front.len() implies edge(
                g,
                chain.last(),
                #[trigger] front[i],
            ) by {
                assert(edge(g, chain.last(), start[i]));
            }
        }
        lemma_depth(g, chain, front, next, depth, more);
    }
}

/// The order from one node is the node itself, and then the order from its
/// neighbors.
pub proof fn law_order_of_one_node(g: Graph, n: Id)
    requires
        g.dom().finite(),
        closed(g),
        g.contains_key(n),
        forall|m: Id| !#[trigger] on_cycle(g, m),
    ensures
        topo_order(g, seq![n]) == seq![n] + topo_order(g, g[n]),
{
    let size = g.dom().len();
    let chain = seq![n];
    assert(is_path(g, chain));
    lemma_len_bound(g, chain);
    assert forall|i: int| 0 <= i < g[n].len() implies g.contains_key(#[trigger] g[n][i]) && edge(
        g,
        n,
        g[n][i],
    ) by {
        assert(g[n].contains(g[n][i]));
        assert(edge(g, n, g[n][i]));
    }
    lemma_single(g, n, Seq::empty(), size);
    lemma_depth(g, chain, g[n], Seq::empty(), (size - 1) as nat, size);
    assert(topo_order(g, seq![n]) =~= seq![n] + topo_order(g, g[n]));
}

/// The order from several nodes starts with that from the first of them, but
/// for what can be reached from the others, and goes on with that from the
/// others.
pub proof fn law_order_of_several_nodes(g: Graph, n: Id, rest: Seq<Id>)
    requires
        g.dom().finite(),
        closed(g),
        g.contains_key(n),
        forall|i: int| 0 <= i < rest.len() ==> g.contains_key(#[trigger] rest[i]),
        forall|m: Id| !#[trigger] on_cycle(g, m),
    ensures
        topo_order(g, seq![n] + rest) == topo_order(g, seq![n]).filter(
            |m: Id| !reached(g, rest, m),
        ) + topo_order(g, rest),
{
    let size = g.dom().len();
    let none = Seq::<Id>::empty();
    let known = walk(g, rest, none, size);
    let alone = walk(g, seq![n], none, size);
    law_topo_order(g, rest);
    lemma_walk_append(g, seq![n], rest, none, size);
    assert forall|m: Id| #[trigger] known.contains(m) <==> reached(g, rest, m) by {
        lemma_reverse_contains(known, m);
        assert(topo_order(g, rest).contains(m) <==> reached(g, rest, m));
    }
    assert forall|a: Id, b: Id| known.contains(a) && #[trigger] g[a].contains(
        b,
    ) implies known.contains(b) by {
        assert(reached(g, rest, a));
        lemma_reached_is_node(g, rest, a);
        assert(edge(g, a, b));
        lemma_reached_step(g, rest, a, b);
    }
    lemma_walk_after(g, seq![n], known, none, size);
    assert(without(none, known) =~= none) by {
        reveal(Seq::filter);
    }
    assert(known + none =~= known);
    let fresh = |m: Id| !known.contains(m);
    let unreached = |m: Id| !reached(g, rest, m);
    assert forall|m: Id| #[trigger] fresh(m) == unreached(m) by {
        assert(known.contains(m) <==> reached(g, rest, m));
    }
    lemma_filter_same(alone, fresh, unreached);
    lemma_filter_reverse(alone, unreached);
    assert((known + without(alone, known)).reverse() =~= without(alone, known).reverse()
        + known.reverse());
}

/// Going through two lists is going through the second, then the first.
proof fn lemma_walk_append(g: Graph, a: Seq<Id>, b: Seq<Id>, left: Seq<Id>, depth: nat)
    ensures
        walk(g, a + b, left, depth) == walk(g, a, walk(g, b, left, depth), depth),
    decreases b.len(),
{
    if b.len() == 0 {
        assert(a + b =~= a);
    } else {
        let node = b.last();
        let next = if left.contains(node) || depth == 0 {
            left
        } else {
            walk(g, g[node], left, (depth - 1) as nat).push(node)
        };
        assert((a + b).last() == node);
        assert((a + b).drop_last() =~= a + b.drop_last());
        lemma_walk_append(g, a, b.drop_last(), next, depth);
    }
}

proof fn lemma_reverse_contains(list: Seq<Id>, n: Id)
    ensures
        list.reverse().contains(n) <==> list.contains(n),
{
    let back = list.reverse();
    if list.contains(n) {
        assert(back[list.len() - 1 - list.index_of(n)] == n);
    }
    if back.contains(n) {
        assert(list[list.len() - 1 - back.index_of(n)] == n);
    }
}

proof fn lemma_filter_same(list: Seq<Id>, p: spec_fn(Id) -> bool, q: spec_fn(Id) -> bool)
    requires
        forall|n: Id| #[trigger] p(n) == q(n),
    ensures
        list.filter(p) == list.filter(q),
    decreases list.len(),
{
    reveal(Seq::filter);
    if list.len() > 0 {
        lemma_filter_same(list.drop_last(), p, q);
        assert(p(list.last()) == q(list.last()));
    }
}

proof fn lemma_filter_reverse(list: Seq<Id>, p: spec_fn(Id) -> bool)
    ensures
        list.reverse().filter(p) == list.filter(p).reverse(),
    decreases list.len(),
{
    if list.len() == 0 {
        reveal(Seq::filter);
        assert(list.reverse() =~= list);
        assert(list.filter(p).reverse() =~= list.filter(p));
    } else {
        let front = list.drop_last();
        let last = list.last();
        lemma_filter_reverse(front, p);
        assert(list.reverse() =~= seq![last] + front.reverse());
        assert(list =~= front.push(last));
        front.lemma_filter_push(last, p);
        lemma_filter_front(last, front.reverse(), p);
        assert(list.filter(p).reverse() =~= list.reverse().filter(p));
    }
}

proof fn lemma_filter_front(first: Id, list: Seq<Id>, p: spec_fn(Id) -> bool)
    ensures
        (seq![first] + list).filter(p) == if p(first) {
            seq![first] + list.filter(p)
        } else {
            list.filter(p)
        },
    decreases list.len(),
{
    reveal(Seq::filter);
    let whole = seq![first] + list;
    if list.len() == 0 {
        assert(whole =~= Seq::<Id>::empty().push(first));
        Seq::<Id>::empty().lemma_filter_push(first, p);
        assert(whole.filter(p) =~= if p(first) {
            seq![first] + list.filter(p)
        } else {
            list.filter(p)
        });
    } else {
        let front = list.drop_last();
        lemma_filter_front(first, front, p);
        assert(whole =~= (seq![first] + front).push(list.last()));
        (seq![first] + front).lemma_filter_push(list.last(), p);
        assert(list =~= front.push(list.last()));
        front.lemma_filter_push(list.last(), p);
        assert(whole.filter(p) =~= if p(first) {
            seq![first] + list.filter(p)
        } else {
            list.filter(p)
        });
    }
}

/// What can be reached from nodes of the graph is one of them.
proof fn lemma_reached_is_node(g: Graph, start: Seq<Id>, n: Id)
    requires
        closed(g),
        forall|i: int| 0 <= i < start.len() ==> g.contains_key(#[trigger] start[i]),
        reached(g, start, n),
    ensures
        g.contains_key(n),
{
    let i = choose|i: int| 0 <= i < start.len() && reaches(g, #[trigger] start[i], n);
    let path = choose|path: Seq<Id>|
        #[trigger] is_path(g, path) && path.first() == start[i] && path.last() == n;
    if path.len() > 1 {
        assert(step(g, path, path.len() - 2));
        assert(edge(g, path[path.len() - 2], n));
    } else {
        assert(path.first() == path.last());
    }
}

/// Nodes to start from come in the order in which they were given, but where
/// one can be reached from a later one.
pub proof fn law_starts_come_in_order(g: Graph, start: Seq<Id>, i: int, j: int) -> (places: (
    int,
    int,
))
    requires
        g.dom().finite(),
        closed(g),
        forall|k: int| 0 <= k < start.len() ==> g.contains_key(#[trigger] start[k]),
        forall|m: Id| !#[trigger] on_cycle(g, m),
        0 <= i < j < start.len(),
        !reached(g, start.skip(i + 1), start[i]),
    ensures
        0 <= places.0 < places.1 < topo_order(g, start).len(),
        topo_order(g, start)[places.0] == start[i],
        topo_order(g, start)[places.1] == start[j],
    decreases start.len(),
{
    let first = start.first();
    let rest = start.drop_first();
    assert(start =~= seq![first] + rest);
    assert(g.contains_key(start[0]));
    assert forall|k: int| 0 <= k < rest.len() implies g.contains_key(#[trigger] rest[k]) by {
        assert(g.contains_key(start[k + 1]));
    }
    law_order_of_several_nodes(g, first, rest);
    law_topo_order(g, rest);
    let alone = topo_order(g, seq![first]);
    let unreached = |m: Id| !reached(g, rest, m);
    let part = alone.filter(unreached);
    let order = topo_order(g, rest);
    assert(topo_order(g, start) == part + order);
    if i == 0 {
        assert(start.skip(1) =~= rest);
        law_order_of_one_node(g, first);
        assert(alone[0] == first);
        alone.lemma_filter_contains(unreached, 0);
        let a = part.index_of(first);
        lemma_reaches_self(g, start[j]);
        assert(rest[j - 1] == start[j]);
        assert(reached(g, rest, start[j]));
        assert(order.contains(start[j]));
        (a, part.len() + order.index_of(start[j]))
    } else {
        assert(rest.skip(i) =~= start.skip(i + 1));
        let (a, b) = law_starts_come_in_order(g, rest, i - 1, j - 1);
        (part.len() + a, part.len() + b)
    }
}

} // verus!
