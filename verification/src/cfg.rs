//! Control-flow discovery: a walk from a function's entry block along the
//! branches, rendered as a graph description.

use crate::block::Block;
use crate::context::{Context, ContextView};
use crate::function::Function;
use crate::hashing::{block_set_contains, block_set_insert};
use generational_arena::Index;
use rustc_hash::FxHashSet;
use vstd::prelude::*;
use vstd::string::StringExecFns;

verus! {

/// The state of a walk: the blocks still to look at, last in first out, the
/// blocks looked at so far, and the edges seen so far.
pub struct CfgWalk {
    pub worklist: Seq<Block>,
    pub visited: Set<Block>,
    pub edges: Seq<(Block, Block)>,
}

/// The blocks that a block branches to, in the order of its branches.
pub open spec fn successor_blocks(context: ContextView, block: Block) -> Seq<Block> {
    Seq::new(context.successors(block).len(), |k: int| context.successors(block)[k].block)
}

/// Those of `targets` that are not in `visited`, in order, each as often as
/// it occurs.
pub open spec fn unvisited(targets: Seq<Block>, visited: Set<Block>) -> Seq<Block>
    decreases targets.len(),
{
    if targets.len() == 0 {
        Seq::empty()
    } else if visited.contains(targets.last()) {
        unvisited(targets.drop_last(), visited)
    } else {
        unvisited(targets.drop_last(), visited).push(targets.last())
    }
}

/// One step of the walk: take the last block off the worklist, mark it as
/// visited, record an edge to each of its successors, and put those
/// successors that are not visited by then on the worklist. A block that is
/// on the worklist more than once is looked at each time, and its edges are
/// recorded each time. With an empty worklist nothing changes.
pub open spec fn cfg_step(context: ContextView, walk: CfgWalk) -> CfgWalk {
    if walk.worklist.len() == 0 {
        walk
    } else {
        let block = walk.worklist.last();
        let targets = successor_blocks(context, block);
        CfgWalk {
            worklist: walk.worklist.drop_last() + unvisited(targets, walk.visited.insert(block)),
            visited: walk.visited.insert(block),
            edges: walk.edges + Seq::new(targets.len(), |k: int| (block, targets[k])),
        }
    }
}

/// The walk from `entry` after `steps` steps.
pub open spec fn cfg_walk(context: ContextView, entry: Block, steps: nat) -> CfgWalk
    decreases steps,
{
    if steps == 0 {
        CfgWalk { worklist: seq![entry], visited: Set::empty(), edges: Seq::empty() }
    } else {
        cfg_step(context, cfg_walk(context, entry, (steps - 1) as nat))
    }
}

/// The line of an edge, with the empty line that follows it.
pub open spec fn edge_text(from: Seq<char>, to: Seq<char>) -> Seq<char> {
    "\t"@ + from + " -> "@ + to + "\n\n"@
}

/// The lines of the edges, in order, each by the labels of its two blocks.
pub open spec fn edges_text(context: ContextView, edges: Seq<(Block, Block)>) -> Seq<char>
    decreases edges.len(),
{
    if edges.len() == 0 {
        Seq::empty()
    } else {
        edges_text(context, edges.drop_last()) + edge_text(
            context.block(edges.last().0).label,
            context.block(edges.last().1).label,
        )
    }
}

/// The first line of a graph description.
pub open spec fn cfg_header(name: Seq<char>) -> Seq<char> {
    "digraph "@ + name + " {\n"@
}

/// The graph description of a function of that name with those edges.
pub open spec fn cfg_text(context: ContextView, name: Seq<char>, edges: Seq<(Block, Block)>) -> Seq<
    char,
> {
    cfg_header(name) + edges_text(context, edges) + "}\n"@
}

/// How many handles of the store are not those of visited blocks.
pub open spec fn unvisited_count(context: ContextView, visited: Set<Block>) -> nat {
    context.entities.dom().filter(|i: Index| !visited.contains(Block(i))).len()
}

/// How many entries of the worklist are visited blocks.
pub open spec fn visited_entries(worklist: Seq<Block>, visited: Set<Block>) -> nat
    decreases worklist.len(),
{
    if worklist.len() == 0 {
        0
    } else {
        visited_entries(worklist.drop_last(), visited) + if visited.contains(worklist.last()) {
            1nat
        } else {
            0nat
        }
    }
}

/// Visiting a block of the store that was not visited leaves fewer unvisited.
proof fn lemma_visit_counts(context: ContextView, visited: Set<Block>, block: Block)
    requires
        context.entities.dom().finite(),
        context.entities.contains_key(block.0),
        !visited.contains(block),
    ensures
        unvisited_count(context, visited.insert(block)) < unvisited_count(context, visited),
{
    let before = context.entities.dom().filter(|i: Index| !visited.contains(Block(i)));
    let after = context.entities.dom().filter(
        |i: Index| !visited.insert(block).contains(Block(i)),
    );
    assert(after =~= before.remove(block.0));
}

/// Entries that are not visited do not count.
proof fn lemma_visited_entries_append(worklist: Seq<Block>, more: Seq<Block>, visited: Set<Block>)
    requires
        forall|k: int| 0 <= k < more.len() ==> !visited.contains(#[trigger] more[k]),
    ensures
        visited_entries(worklist + more, visited) == visited_entries(worklist, visited),
    decreases more.len(),
{
    if more.len() > 0 {
        let fewer = more.drop_last();
        assert((worklist + more).drop_last() =~= worklist + fewer);
        assert forall|k: int| 0 <= k < fewer.len() implies !visited.contains(
            #[trigger] fewer[k],
        ) by {}
        lemma_visited_entries_append(worklist, fewer, visited);
    }
}

/// What is put on the worklist is not visited, and is a successor.
proof fn lemma_unvisited(targets: Seq<Block>, visited: Set<Block>)
    ensures
        forall|k: int|
            0 <= k < unvisited(targets, visited).len() ==> !visited.contains(
                #[trigger] unvisited(targets, visited)[k],
            ) && targets.contains(unvisited(targets, visited)[k]),
    decreases targets.len(),
{
    if targets.len() > 0 {
        let rest = targets.drop_last();
        lemma_unvisited(rest, visited);
        assert forall|k: int| 0 <= k < unvisited(targets, visited).len() implies !visited.contains(
            #[trigger] unvisited(targets, visited)[k],
        ) && targets.contains(unvisited(targets, visited)[k]) by {
            if k < unvisited(rest, visited).len() {
                let b = unvisited(rest, visited)[k];
                let j = choose|j: int| 0 <= j < rest.len() && rest[j] == b;
                assert(targets[j] == b);
            }
        }
    }
}

impl Function {
    /// A graphviz dot graph of the control-flow-graph.
    ///
    /// The blocks are walked from the entry block, depth first. The text has
    /// one line for each edge that the walk has seen, in the order in which
    /// it saw them, and an edge that it saw twice is there twice.
    pub fn dot_cfg(&self, context: &Context) -> (text: String)
        requires
            context@.wf(),
            context@.has_function(*self),
        ensures
            exists|steps: nat|
                (#[trigger] cfg_walk(
                    context@,
                    context@.function(*self).blocks[0],
                    steps,
                )).worklist.len() == 0 && text@ == cfg_text(
                    context@,
                    context@.function(*self).name,
                    cfg_walk(context@, context@.function(*self).blocks[0], steps).edges,
                ),
    {
        let mut worklist: Vec<Block> = Vec::new();
        let mut visited: FxHashSet<Block> = FxHashSet::default();
        let entry = self.get_entry_block(context);
        let mut res = String::from_str("digraph ");
        res.append(self.get_name(context));
        res.append(" {\n");
        worklist.push(entry);
        let ghost name = context@.function(*self).name;
        let ghost mut steps: nat = 0;
        let ghost mut edges: Seq<(Block, Block)> = Seq::empty();
        while worklist.len() > 0
            invariant
                context@.wf(),
                cfg_walk(context@, entry, steps) == (CfgWalk {
                    worklist: worklist@,
                    visited: visited@,
                    edges,
                }),
                res@ == cfg_header(name) + edges_text(context@, edges),
                forall|k: int| 0 <= k < worklist@.len() ==> context@.has_block(#[trigger] worklist@[k]),
            decreases
                    unvisited_count(context@, visited@),
                    visited_entries(worklist@, visited@),
        {
            let ghost seen = visited@;
            let n = worklist.pop().unwrap();
            let ghost rest = worklist@;
            block_set_insert(&mut visited, n);
            let successors = n.successors(context);
            let ghost targets = successor_blocks(context@, n);
            proof {
                assert forall|k: int| 0 <= k < targets.len() implies targets[k]
                    == successors@[k].block && context@.has_block(#[trigger] targets[k]) by {
                    lemma_successors_valid(context@, n);
                }
            }
            let ghost earlier = edges;
            let mut i: usize = 0;
            while i < successors.len()
                invariant
                    i <= successors.len(),
                    context@.wf(),
                    context@.has_block(n),
                    targets.len() == successors@.len(),
                    forall|k: int|
                        0 <= k < targets.len() ==> targets[k] == successors@[k].block
                            && context@.has_block(#[trigger] targets[k]),
                    worklist@ == rest + unvisited(targets.take(i as int), visited@),
                    edges == earlier + Seq::new(i as nat, |k: int| (n, targets[k])),
                    res@ == cfg_header(name) + edges_text(context@, edges),
                decreases successors.len() - i,
            {
                let n_succ = successors[i].block;
                assert(context@.has_block(targets[i as int]));
                let from = n.get_label(context);
                let to = n_succ.get_label(context);
                res.append("\t");
                res.append(from.as_str());
                res.append(" -> ");
                res.append(to.as_str());
                res.append("\n\n");
                if !block_set_contains(&visited, &n_succ) {
                    worklist.push(n_succ);
                }
                proof {
                    let grown = edges.push((n, n_succ));
                    assert(grown.drop_last() =~= edges);
                    assert(targets.take(i + 1).drop_last() =~= targets.take(i as int));
                    edges = grown;
                }
                i += 1;
            }
            proof {
                assert(targets.take(i as int) =~= targets);
                steps = steps + 1;
                lemma_unvisited(targets, visited@);
                assert forall|k: int| 0 <= k < worklist@.len() implies context@.has_block(
                    #[trigger] worklist@[k],
                ) by {
                    if k >= rest.len() {
                        let b = unvisited(targets, visited@)[k - rest.len()];
                        let j = choose|j: int| 0 <= j < targets.len() && targets[j] == b;
                        assert(context@.has_block(targets[j]));
                    }
                }
                if seen.contains(n) {
                    assert(visited@ =~= seen);
                    lemma_visited_entries_append(rest, unvisited(targets, visited@), visited@);
                } else {
                    lemma_visit_counts(context@, seen, n);
                }
            }
        }
        res.append("}\n");
        res
    }
}

/// In a valid store the successors of a block are blocks of the store.
pub proof fn lemma_successors_valid(context: ContextView, block: Block)
    requires
        context.valid(),
        context.has_block(block),
    ensures
        forall|k: int|
            0 <= k < context.successors(block).len() ==> context.has_block(
                (#[trigger] context.successors(block)[k]).block,
            ),
{
}

} // verus!
