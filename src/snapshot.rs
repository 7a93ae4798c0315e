use crate::datatypes::{Block, BlockID, Page, Timestamp};
use crate::locator::{LocatorStep, RootLocator};
use crate::tree::{
    appended_indices, child_kept, node_under, BlockTree, ExpansionStep, TreeExpansion, TreeNode,
};
use crate::visited::VisitedSet;
use vstd::prelude::*;

verus! {

broadcast use vstd::seq_lib::group_seq_properties, vstd::set_lib::group_set_properties;

/// One edge of the remote content graph: `child` is listed among the
/// children of the block `parent`.
#[derive(Debug, Clone)]
pub struct Link {
    pub parent: BlockID,
    pub child: Block,
}

/// A fixed copy of the remote content graph, as the list of its edges. The
/// children of a block are the children of its links, in list order. The
/// graph may hold cycles.
#[derive(Debug, Clone)]
pub struct Workspace {
    pub links: Vec<Link>,
}

/// Whether a link starts at the block with id `id`.
pub open spec fn links_from(id: Seq<char>) -> spec_fn(Link) -> bool {
    |l: Link| l.parent.0@ == id
}

/// The children that `links` lists for the block with id `id`, in order.
pub open spec fn children_in(links: Seq<Link>, id: Seq<char>) -> Seq<Block> {
    links.filter(links_from(id)).map_values(|l: Link| l.child)
}

/// The ids of `blocks`.
pub open spec fn ids_of(blocks: Seq<Block>) -> Set<Seq<char>> {
    blocks.map_values(|b: Block| b.id.0@).to_set()
}

/// The ids of every child that `links` lists.
pub open spec fn linked_ids(links: Seq<Link>) -> Set<Seq<char>> {
    links.map_values(|l: Link| l.child.id.0@).to_set()
}

/// The root search run to its end over a graph given by `links`, from a
/// frontier, a visited set and the roots found so far, taking at most `fuel`
/// frontier elements. `None` when the fuel runs out first; otherwise the roots
/// and the final visited set.
pub open spec fn locate_run(
    links: Seq<Link>,
    frontier: Seq<Block>,
    visited: Set<Seq<char>>,
    roots: Seq<Block>,
    cutoff: int,
    fuel: nat,
) -> Option<(Seq<Block>, Set<Seq<char>>)>
    decreases fuel,
{
    if frontier.len() == 0 {
        Some((roots, visited))
    } else if fuel == 0 {
        None
    } else {
        let b = frontier[0];
        let rest = frontier.drop_first();
        if visited.contains(b.id.0@) {
            locate_run(links, rest, visited, roots, cutoff, (fuel - 1) as nat)
        } else if b.update_date.micros >= cutoff {
            let found = if b.spec_is_empty() {
                roots
            } else {
                roots.push(b)
            };
            locate_run(links, rest, visited.insert(b.id.0@), found, cutoff, (fuel - 1) as nat)
        } else if b.has_children {
            locate_run(
                links,
                rest + children_in(links, b.id.0@),
                visited.insert(b.id.0@),
                roots,
                cutoff,
                (fuel - 1) as nat,
            )
        } else {
            locate_run(links, rest, visited.insert(b.id.0@), roots, cutoff, (fuel - 1) as nat)
        }
    }
}

/// Two runs of the root search from the same state over the same graph that
/// both reach their end give the same roots and the same visited set: the
/// result depends on the remote state, the starting point and the cutoff
/// alone.
pub proof fn lemma_locate_run_deterministic(
    links: Seq<Link>,
    frontier: Seq<Block>,
    visited: Set<Seq<char>>,
    roots: Seq<Block>,
    cutoff: int,
    fuel1: nat,
    fuel2: nat,
)
    requires
        locate_run(links, frontier, visited, roots, cutoff, fuel1) is Some,
        locate_run(links, frontier, visited, roots, cutoff, fuel2) is Some,
    ensures
        locate_run(links, frontier, visited, roots, cutoff, fuel1) == locate_run(
            links,
            frontier,
            visited,
            roots,
            cutoff,
            fuel2,
        ),
    decreases fuel1,
{
    if frontier.len() > 0 {
        let b = frontier[0];
        let rest = frontier.drop_first();
        if visited.contains(b.id.0@) {
            lemma_locate_run_deterministic(
                links,
                rest,
                visited,
                roots,
                cutoff,
                (fuel1 - 1) as nat,
                (fuel2 - 1) as nat,
            );
        } else if b.update_date.micros >= cutoff {
            let found = if b.spec_is_empty() {
                roots
            } else {
                roots.push(b)
            };
            lemma_locate_run_deterministic(
                links,
                rest,
                visited.insert(b.id.0@),
                found,
                cutoff,
                (fuel1 - 1) as nat,
                (fuel2 - 1) as nat,
            );
        } else if b.has_children {
            lemma_locate_run_deterministic(
                links,
                rest + children_in(links, b.id.0@),
                visited.insert(b.id.0@),
                roots,
                cutoff,
                (fuel1 - 1) as nat,
                (fuel2 - 1) as nat,
            );
        } else {
            lemma_locate_run_deterministic(
                links,
                rest,
                visited.insert(b.id.0@),
                roots,
                cutoff,
                (fuel1 - 1) as nat,
                (fuel2 - 1) as nat,
            );
        }
    }
}

/// The ids whose children the root search asks for, in order, when run
/// from the same state and with the same fuel as `locate_run`.
pub open spec fn locate_fetches(
    links: Seq<Link>,
    frontier: Seq<Block>,
    visited: Set<Seq<char>>,
    cutoff: int,
    fuel: nat,
) -> Seq<Seq<char>>
    decreases fuel,
{
    if frontier.len() == 0 || fuel == 0 {
        Seq::empty()
    } else {
        let b = frontier[0];
        let rest = frontier.drop_first();
        if visited.contains(b.id.0@) {
            locate_fetches(links, rest, visited, cutoff, (fuel - 1) as nat)
        } else if b.update_date.micros >= cutoff || !b.has_children {
            locate_fetches(links, rest, visited.insert(b.id.0@), cutoff, (fuel - 1) as nat)
        } else {
            seq![b.id.0@] + locate_fetches(
                links,
                rest + children_in(links, b.id.0@),
                visited.insert(b.id.0@),
                cutoff,
                (fuel - 1) as nat,
            )
        }
    }
}

/// Within one root search, the children of a block id are asked for at most
/// once, and never for an id that was visited before the search began: the
/// requested ids hold no repeat and none of `visited`. This holds on every
/// graph, cycles included.
pub proof fn lemma_root_search_fetches_each_id_once(
    links: Seq<Link>,
    frontier: Seq<Block>,
    visited: Set<Seq<char>>,
    cutoff: int,
    fuel: nat,
)
    ensures
        locate_fetches(links, frontier, visited, cutoff, fuel).no_duplicates(),
        forall|k: int|
            0 <= k < locate_fetches(links, frontier, visited, cutoff, fuel).len() ==> !visited.contains(
                #[trigger] locate_fetches(links, frontier, visited, cutoff, fuel)[k],
            ),
    decreases fuel,
{
    if frontier.len() > 0 && fuel > 0 {
        let b = frontier[0];
        let rest = frontier.drop_first();
        let seen = visited.insert(b.id.0@);
        if visited.contains(b.id.0@) {
            lemma_root_search_fetches_each_id_once(links, rest, visited, cutoff, (fuel - 1) as nat);
        } else if b.update_date.micros >= cutoff || !b.has_children {
            lemma_root_search_fetches_each_id_once(links, rest, seen, cutoff, (fuel - 1) as nat);
        } else {
            let next = rest + children_in(links, b.id.0@);
            lemma_root_search_fetches_each_id_once(links, next, seen, cutoff, (fuel - 1) as nat);
            let tail = locate_fetches(links, next, seen, cutoff, (fuel - 1) as nat);
            let all = locate_fetches(links, frontier, visited, cutoff, fuel);
            assert(all == seq![b.id.0@] + tail);
            assert forall|k: int| 0 <= k < all.len() implies !visited.contains(#[trigger] all[k]) by {
                if k > 0 {
                    assert(all[k] == tail[k - 1]);
                }
            }
            assert forall|i: int, j: int| 0 <= i < j < all.len() implies all[i] != all[j] by {
                assert(all[j] == tail[j - 1]);
                if i > 0 {
                    assert(all[i] == tail[i - 1]);
                }
            }
        }
    }
}

/// How many frontier elements the root search takes off, when run from the
/// same state and with the same fuel as `locate_run`.
pub open spec fn locate_dequeued(
    links: Seq<Link>,
    frontier: Seq<Block>,
    visited: Set<Seq<char>>,
    cutoff: int,
    fuel: nat,
) -> nat
    decreases fuel,
{
    if frontier.len() == 0 || fuel == 0 {
        0
    } else {
        let b = frontier[0];
        let rest = frontier.drop_first();
        if visited.contains(b.id.0@) {
            1 + locate_dequeued(links, rest, visited, cutoff, (fuel - 1) as nat)
        } else if b.update_date.micros >= cutoff || !b.has_children {
            1 + locate_dequeued(links, rest, visited.insert(b.id.0@), cutoff, (fuel - 1) as nat)
        } else {
            1 + locate_dequeued(
                links,
                rest + children_in(links, b.id.0@),
                visited.insert(b.id.0@),
                cutoff,
                (fuel - 1) as nat,
            )
        }
    }
}

/// How many children `links` lists for the ids of `ids` together.
pub open spec fn children_total(links: Seq<Link>, ids: Seq<Seq<char>>) -> nat
    decreases ids.len(),
{
    if ids.len() == 0 {
        0
    } else {
        children_in(links, ids[0]).len() + children_total(links, ids.drop_first())
    }
}

/// A root search that reaches its end takes off its frontier exactly the
/// blocks it started with plus the children of the ids whose children it asked
/// for; those ids are distinct (`lemma_root_search_fetches_each_id_once`), so
/// the work is bounded on every graph, cycles included.
pub proof fn lemma_root_search_dequeues(
    links: Seq<Link>,
    frontier: Seq<Block>,
    visited: Set<Seq<char>>,
    roots: Seq<Block>,
    cutoff: int,
    fuel: nat,
)
    requires
        locate_run(links, frontier, visited, roots, cutoff, fuel) is Some,
    ensures
        locate_dequeued(links, frontier, visited, cutoff, fuel) == frontier.len() + children_total(
            links,
            locate_fetches(links, frontier, visited, cutoff, fuel),
        ),
    decreases fuel,
{
    if frontier.len() > 0 {
        let b = frontier[0];
        let rest = frontier.drop_first();
        let seen = visited.insert(b.id.0@);
        let f = (fuel - 1) as nat;
        if visited.contains(b.id.0@) {
            lemma_root_search_dequeues(links, rest, visited, roots, cutoff, f);
        } else if b.update_date.micros >= cutoff {
            let found = if b.spec_is_empty() {
                roots
            } else {
                roots.push(b)
            };
            lemma_root_search_dequeues(links, rest, seen, found, cutoff, f);
        } else if !b.has_children {
            lemma_root_search_dequeues(links, rest, seen, roots, cutoff, f);
        } else {
            let next = rest + children_in(links, b.id.0@);
            lemma_root_search_dequeues(links, next, seen, roots, cutoff, f);
            let tail = locate_fetches(links, next, seen, cutoff, f);
            assert((seq![b.id.0@] + tail).drop_first() =~= tail);
            assert(children_total(links, seq![b.id.0@] + tail) == children_in(
                links,
                b.id.0@,
            ).len() + children_total(links, tail));
        }
    }
}

/// The ids whose children one tree's expansion asks for, in order, when run
/// from the same state and with the same fuel as `expand_run`.
pub open spec fn expand_fetches(
    links: Seq<Link>,
    nodes: Seq<TreeNode>,
    queue: Seq<usize>,
    visited: Set<Seq<char>>,
    fuel: nat,
) -> Seq<Seq<char>>
    decreases fuel,
{
    if queue.len() == 0 || fuel == 0 {
        Seq::empty()
    } else {
        let n = queue[0];
        let b = nodes[n as int].block;
        let seen = visited.insert(b.id.0@);
        if visited.contains(b.id.0@) || !b.has_children {
            expand_fetches(links, nodes, queue.drop_first(), seen, (fuel - 1) as nat)
        } else {
            let kept = children_in(links, b.id.0@).filter(child_kept(seen));
            seq![b.id.0@] + expand_fetches(
                links,
                nodes + kept.map_values(node_under(n)),
                queue.drop_first() + appended_indices(nodes.len(), kept.len()),
                seen,
                (fuel - 1) as nat,
            )
        }
    }
}

/// Within one tree's expansion, the children of a block id are asked for at
/// most once, and never for an id visited before the expansion began. This
/// holds on every graph, cycles included.
pub proof fn lemma_expansion_fetches_each_id_once(
    links: Seq<Link>,
    nodes: Seq<TreeNode>,
    queue: Seq<usize>,
    visited: Set<Seq<char>>,
    fuel: nat,
)
    ensures
        expand_fetches(links, nodes, queue, visited, fuel).no_duplicates(),
        forall|k: int|
            0 <= k < expand_fetches(links, nodes, queue, visited, fuel).len() ==> !visited.contains(
                #[trigger] expand_fetches(links, nodes, queue, visited, fuel)[k],
            ),
    decreases fuel,
{
    if queue.len() > 0 && fuel > 0 {
        let n = queue[0];
        let b = nodes[n as int].block;
        let seen = visited.insert(b.id.0@);
        if visited.contains(b.id.0@) || !b.has_children {
            lemma_expansion_fetches_each_id_once(
                links,
                nodes,
                queue.drop_first(),
                seen,
                (fuel - 1) as nat,
            );
            if visited.contains(b.id.0@) {
                assert(seen =~= visited);
            }
        } else {
            let kept = children_in(links, b.id.0@).filter(child_kept(seen));
            let nodes2 = nodes + kept.map_values(node_under(n));
            let queue2 = queue.drop_first() + appended_indices(nodes.len(), kept.len());
            lemma_expansion_fetches_each_id_once(links, nodes2, queue2, seen, (fuel - 1) as nat);
            let tail = expand_fetches(links, nodes2, queue2, seen, (fuel - 1) as nat);
            let all = expand_fetches(links, nodes, queue, visited, fuel);
            assert(all == seq![b.id.0@] + tail);
            assert forall|k: int| 0 <= k < all.len() implies !visited.contains(#[trigger] all[k]) by {
                if k > 0 {
                    assert(all[k] == tail[k - 1]);
                }
            }
            assert forall|i: int, j: int| 0 <= i < j < all.len() implies all[i] != all[j] by {
                assert(all[j] == tail[j - 1]);
                if i > 0 {
                    assert(all[i] == tail[i - 1]);
                }
            }
        }
    }
}

/// The expansion of one tree run to its end over a graph given by `links`,
/// from its nodes, its queue of node indices and a visited set, taking at most
/// `fuel` queued nodes. `None` when the fuel runs out first; otherwise the
/// nodes and the final visited set.
pub open spec fn expand_run(
    links: Seq<Link>,
    nodes: Seq<TreeNode>,
    queue: Seq<usize>,
    visited: Set<Seq<char>>,
    fuel: nat,
) -> Option<(Seq<TreeNode>, Set<Seq<char>>)>
    decreases fuel,
{
    if queue.len() == 0 {
        Some((nodes, visited))
    } else if fuel == 0 {
        None
    } else {
        let n = queue[0];
        let b = nodes[n as int].block;
        let seen = visited.insert(b.id.0@);
        if visited.contains(b.id.0@) || !b.has_children {
            expand_run(links, nodes, queue.drop_first(), seen, (fuel - 1) as nat)
        } else {
            let kept = children_in(links, b.id.0@).filter(child_kept(seen));
            expand_run(
                links,
                nodes + kept.map_values(node_under(n)),
                queue.drop_first() + appended_indices(nodes.len(), kept.len()),
                seen,
                (fuel - 1) as nat,
            )
        }
    }
}

/// Expanding a root `r` whose children are `[a, b, c]`, where `b` is blank and
/// `c` has the one child `d`, from an empty visited set, gives the tree
/// `r -> a`, `r -> c -> d`: the blank `b` gets no node and nothing beneath it
/// is fetched; only `r` and `c` have their children asked for.
pub proof fn lemma_blank_child_pruned(
    links: Seq<Link>,
    r: Block,
    a: Block,
    b: Block,
    c: Block,
    d: Block,
    fuel: nat,
)
    requires
        r.has_children,
        !a.spec_is_empty() && !a.has_children,
        b.spec_is_empty(),
        !c.spec_is_empty() && c.has_children,
        !d.spec_is_empty() && !d.has_children,
        r.id.0@ != a.id.0@ && r.id.0@ != b.id.0@ && r.id.0@ != c.id.0@ && r.id.0@ != d.id.0@,
        a.id.0@ != b.id.0@ && a.id.0@ != c.id.0@ && a.id.0@ != d.id.0@,
        b.id.0@ != c.id.0@ && b.id.0@ != d.id.0@ && c.id.0@ != d.id.0@,
        children_in(links, r.id.0@) == seq![a, b, c],
        children_in(links, c.id.0@) == seq![d],
        fuel >= 5,
    ensures
        expand_run(links, lone_root(r), seq![0usize], Set::empty(), fuel) == Some(
            (
                seq![
                    TreeNode { block: r, parent: None },
                    TreeNode { block: a, parent: Some(0usize) },
                    TreeNode { block: c, parent: Some(0usize) },
                    TreeNode { block: d, parent: Some(2usize) },
                ],
                Set::<Seq<char>>::empty().insert(r.id.0@).insert(a.id.0@).insert(c.id.0@).insert(
                    d.id.0@,
                ),
            ),
        ),
        expand_fetches(links, lone_root(r), seq![0usize], Set::empty(), fuel) == seq![
            r.id.0@,
            c.id.0@,
        ],
{
    let v0 = Set::<Seq<char>>::empty();
    let v1 = v0.insert(r.id.0@);
    let v2 = v1.insert(a.id.0@);
    let v3 = v2.insert(c.id.0@);
    let v4 = v3.insert(d.id.0@);
    let keep1 = child_kept(v1);
    let e = Seq::<Block>::empty();
    assert(seq![a, b, c] =~= e.push(a).push(b).push(c));
    e.lemma_filter_push(a, keep1);
    e.push(a).lemma_filter_push(b, keep1);
    e.push(a).push(b).lemma_filter_push(c, keep1);
    assert(e.filter(keep1) =~= e);
    let kept1 = seq![a, b, c].filter(keep1);
    assert(kept1 =~= seq![a, c]);
    let n1 = lone_root(r) + kept1.map_values(node_under(0));
    assert(n1 =~= seq![
        TreeNode { block: r, parent: None },
        TreeNode { block: a, parent: Some(0usize) },
        TreeNode { block: c, parent: Some(0usize) },
    ]);
    let q1 = seq![0usize].drop_first() + appended_indices(1, 2);
    assert(q1 =~= seq![1usize, 2usize]);
    let q2 = q1.drop_first();
    assert(q2 =~= seq![2usize]);
    let keep3 = child_kept(v3);
    e.lemma_filter_push(d, keep3);
    assert(seq![d] =~= e.push(d));
    let kept3 = seq![d].filter(keep3);
    assert(kept3 =~= seq![d]);
    let n3 = n1 + kept3.map_values(node_under(2));
    let q3 = q2.drop_first() + appended_indices(3, 1);
    assert(q3 =~= seq![3usize]);
    assert(n3[3].block == d);
    let q4 = q3.drop_first();
    assert(q4.len() == 0);
    let f = fuel;
    assert(expand_run(links, n3, q4, v4, (f - 4) as nat) == Some((n3, v4)));
    assert(expand_run(links, n3, q3, v3, (f - 3) as nat) == expand_run(links, n3, q4, v4, (f - 4) as nat));
    assert(expand_run(links, n1, q2, v2, (f - 2) as nat) == expand_run(links, n3, q3, v3, (f - 3) as nat));
    assert(expand_run(links, n1, q1, v1, (f - 1) as nat) == expand_run(links, n1, q2, v2, (f - 2) as nat));
    assert(expand_run(links, lone_root(r), seq![0usize], v0, f) == expand_run(links, n1, q1, v1, (f - 1) as nat));
    assert(n3 =~= seq![
        TreeNode { block: r, parent: None },
        TreeNode { block: a, parent: Some(0usize) },
        TreeNode { block: c, parent: Some(0usize) },
        TreeNode { block: d, parent: Some(2usize) },
    ]);
    assert(expand_fetches(links, n3, q4, v4, (f - 4) as nat) =~= Seq::<Seq<char>>::empty());
    assert(expand_fetches(links, n3, q3, v3, (f - 3) as nat) == expand_fetches(links, n3, q4, v4, (f - 4) as nat));
    assert(expand_fetches(links, n1, q2, v2, (f - 2) as nat) =~= seq![c.id.0@]);
    assert(expand_fetches(links, n1, q1, v1, (f - 1) as nat) == expand_fetches(links, n1, q2, v2, (f - 2) as nat));
    assert(expand_fetches(links, lone_root(r), seq![0usize], v0, f) =~= seq![r.id.0@, c.id.0@]);
}

/// The nodes of the tree that holds `root` alone.
pub open spec fn lone_root(root: Block) -> Seq<TreeNode> {
    seq![TreeNode { block: root, parent: None }]
}

/// Each root expanded in turn, with `fuel` for each, sharing one visited set:
/// the nodes of every tree and the final visited set, or `None` when some
/// expansion runs out of fuel.
pub open spec fn expand_all(
    links: Seq<Link>,
    roots: Seq<Block>,
    visited: Set<Seq<char>>,
    fuel: nat,
) -> Option<(Seq<Seq<TreeNode>>, Set<Seq<char>>)>
    decreases roots.len(),
{
    if roots.len() == 0 {
        Some((Seq::empty(), visited))
    } else {
        match expand_all(links, roots.drop_last(), visited, fuel) {
            None => None,
            Some((trees, seen)) => match expand_run(
                links,
                lone_root(roots.last()),
                seq![0usize],
                seen,
                fuel,
            ) {
                None => None,
                Some((nodes, after)) => Some((trees.push(nodes), after)),
            },
        }
    }
}

/// A root search that reaches its end with some fuel reaches the same end
/// with more.
pub proof fn lemma_locate_run_more_fuel(
    links: Seq<Link>,
    frontier: Seq<Block>,
    visited: Set<Seq<char>>,
    roots: Seq<Block>,
    cutoff: int,
    fuel: nat,
    more: nat,
)
    requires
        locate_run(links, frontier, visited, roots, cutoff, fuel) is Some,
        fuel <= more,
    ensures
        locate_run(links, frontier, visited, roots, cutoff, more) == locate_run(
            links,
            frontier,
            visited,
            roots,
            cutoff,
            fuel,
        ),
    decreases fuel,
{
    if frontier.len() > 0 {
        let b = frontier[0];
        let rest = frontier.drop_first();
        let seen = visited.insert(b.id.0@);
        let (f1, f2) = ((fuel - 1) as nat, (more - 1) as nat);
        if visited.contains(b.id.0@) {
            lemma_locate_run_more_fuel(links, rest, visited, roots, cutoff, f1, f2);
        } else if b.update_date.micros >= cutoff {
            let found = if b.spec_is_empty() {
                roots
            } else {
                roots.push(b)
            };
            lemma_locate_run_more_fuel(links, rest, seen, found, cutoff, f1, f2);
        } else if b.has_children {
            lemma_locate_run_more_fuel(
                links,
                rest + children_in(links, b.id.0@),
                seen,
                roots,
                cutoff,
                f1,
                f2,
            );
        } else {
            lemma_locate_run_more_fuel(links, rest, seen, roots, cutoff, f1, f2);
        }
    }
}

/// A tree expansion that reaches its end with some fuel reaches the same end
/// with more.
pub proof fn lemma_expand_run_more_fuel(
    links: Seq<Link>,
    nodes: Seq<TreeNode>,
    queue: Seq<usize>,
    visited: Set<Seq<char>>,
    fuel: nat,
    more: nat,
)
    requires
        expand_run(links, nodes, queue, visited, fuel) is Some,
        fuel <= more,
    ensures
        expand_run(links, nodes, queue, visited, more) == expand_run(
            links,
            nodes,
            queue,
            visited,
            fuel,
        ),
    decreases fuel,
{
    if queue.len() > 0 {
        let n = queue[0];
        let b = nodes[n as int].block;
        let seen = visited.insert(b.id.0@);
        let (f1, f2) = ((fuel - 1) as nat, (more - 1) as nat);
        if visited.contains(b.id.0@) || !b.has_children {
            lemma_expand_run_more_fuel(links, nodes, queue.drop_first(), seen, f1, f2);
        } else {
            let kept = children_in(links, b.id.0@).filter(child_kept(seen));
            lemma_expand_run_more_fuel(
                links,
                nodes + kept.map_values(node_under(n)),
                queue.drop_first() + appended_indices(nodes.len(), kept.len()),
                seen,
                f1,
                f2,
            );
        }
    }
}

/// Expanding a list of roots that reaches its end with some fuel reaches the
/// same end with more.
pub proof fn lemma_expand_all_more_fuel(
    links: Seq<Link>,
    roots: Seq<Block>,
    visited: Set<Seq<char>>,
    fuel: nat,
    more: nat,
)
    requires
        expand_all(links, roots, visited, fuel) is Some,
        fuel <= more,
    ensures
        expand_all(links, roots, visited, more) == expand_all(links, roots, visited, fuel),
    decreases roots.len(),
{
    if roots.len() > 0 {
        lemma_expand_all_more_fuel(links, roots.drop_last(), visited, fuel, more);
        let (trees, seen) = expand_all(links, roots.drop_last(), visited, fuel)->0;
        lemma_expand_run_more_fuel(links, lone_root(roots.last()), seq![0usize], seen, fuel, more);
    }
}

/// Two complete root searches over the same remote graph, from the same page
/// children, the same visited set and the same cutoff, find the same roots and
/// leave the same visited set.
pub proof fn lemma_root_search_repeatable(
    links: Seq<Link>,
    page_children: Seq<Block>,
    visited: Set<Seq<char>>,
    cutoff: int,
    roots1: Seq<Block>,
    visited1: Set<Seq<char>>,
    roots2: Seq<Block>,
    visited2: Set<Seq<char>>,
)
    requires
        exists|fuel: nat|
            locate_run(links, page_children, visited, Seq::empty(), cutoff, fuel) == Some(
                (roots1, visited1),
            ),
        exists|fuel: nat|
            locate_run(links, page_children, visited, Seq::empty(), cutoff, fuel) == Some(
                (roots2, visited2),
            ),
    ensures
        roots1 == roots2,
        visited1 == visited2,
{
    let f1 = choose|fuel: nat|
        locate_run(links, page_children, visited, Seq::empty(), cutoff, fuel) == Some(
            (roots1, visited1),
        );
    let f2 = choose|fuel: nat|
        locate_run(links, page_children, visited, Seq::empty(), cutoff, fuel) == Some(
            (roots2, visited2),
        );
    lemma_locate_run_deterministic(links, page_children, visited, Seq::empty(), cutoff, f1, f2);
}

/// Marking a fresh id of a finite universe as visited leaves fewer of the
/// universe's ids unvisited.
proof fn lemma_unvisited_shrinks(universe: Set<Seq<char>>, visited: Set<Seq<char>>, id: Seq<char>)
    requires
        universe.finite(),
        universe.contains(id),
        !visited.contains(id),
    ensures
        universe.difference(visited.insert(id)).len() < universe.difference(visited).len(),
{
    assert(universe.difference(visited.insert(id)) =~= universe.difference(visited).remove(id));
}

/// The children that `links` lists all have ids among `linked_ids(links)`.
proof fn lemma_children_are_linked(links: Seq<Link>, id: Seq<char>)
    ensures
        forall|k: int|
            0 <= k < children_in(links, id).len() ==> linked_ids(links).contains(
                (#[trigger] children_in(links, id)[k]).id.0@,
            ),
{
    let pred = links_from(id);
    let kept = links.filter(pred);
    assert forall|k: int| 0 <= k < children_in(links, id).len() implies linked_ids(
        links,
    ).contains((#[trigger] children_in(links, id)[k]).id.0@) by {
        assert(children_in(links, id)[k] == kept[k].child);
        let l = kept[k];
        assert(kept.contains(l));
        links.lemma_filter_contains_rev(pred, l);
        let j = choose|j: int| 0 <= j < links.len() && links[j] == l;
        assert(links.map_values(|l: Link| l.child.id.0@)[j] == l.child.id.0@);
    }
}

impl Workspace {
    /// The children listed for the block `id`, in order.
    pub fn children_of(&self, id: &BlockID) -> (r: Vec<Block>)
        ensures
            r@ == children_in(self.links@, id.0@),
    {
        let ghost pred = links_from(id.0@);
        let mut r: Vec<Block> = Vec::new();
        let mut i: usize = 0;
        while i < self.links.len()
            invariant
                i <= self.links@.len(),
                r@ == children_in(self.links@.subrange(0, i as int), id.0@),
                pred == links_from(id.0@),
            decreases self.links@.len() - i,
        {
            let ghost before = self.links@.subrange(0, i as int);
            let l = &self.links[i];
            proof {
                assert(self.links@.subrange(0, i + 1) =~= before.push(*l));
                before.lemma_filter_push(*l, pred);
            }
            if l.parent == *id {
                r.push(l.child.duplicate());
                assert(r@ =~= children_in(self.links@.subrange(0, i + 1), id.0@));
            } else {
                assert(r@ =~= children_in(self.links@.subrange(0, i + 1), id.0@));
            }
            i = i + 1;
        }
        assert(self.links@.subrange(0, self.links@.len() as int) =~= self.links@);
        r
    }

    /// Runs the root search for `page` over this graph to its end: the
    /// shallowest non-empty blocks edited at or after `cutoff`, skipping ids
    /// in `visited`, which gains every id processed. With no clock in play the
    /// deadline never passes. The search ends on every graph, cycles included.
    pub fn locate_roots(&self, page: &Page, cutoff: Timestamp, visited: &mut VisitedSet) -> (r:
        Vec<Block>)
        requires
            old(visited).wf(),
        ensures
            final(visited).wf(),
            exists|fuel: nat|
                locate_run(
                    self.links@,
                    page.child_blocks@,
                    old(visited)@,
                    Seq::empty(),
                    cutoff.micros as int,
                    fuel,
                ) == Some((r@, final(visited)@)),
            forall|i: int|
                0 <= i < r@.len() ==> final(visited)@.contains((#[trigger] r@[i]).id.0@)
                    && !old(visited)@.contains(r@[i].id.0@),
            forall|i: int, j: int|
                0 <= i < j < r@.len() ==> (#[trigger] r@[i]).id.0@ != (#[trigger] r@[j]).id.0@,
    {
        let ghost links = self.links@;
        let ghost start = page.child_blocks@;
        let ghost universe = ids_of(start).union(linked_ids(links));
        let ghost visited0 = visited@;
        let ghost mut steps: nat = 0;
        let mut loc = RootLocator::new(page, cutoff, cutoff, visited);
        proof {
            assert forall|k: int| 0 <= k < loc.frontier().len() implies universe.contains(
                (#[trigger] loc.frontier()[k]).id.0@,
            ) by {
                assert(start.map_values(|b: Block| b.id.0@)[k] == start[k].id.0@);
            }
        }
        while loc.pending() > 0
            invariant
                visited.wf(),
                loc.wf(),
                loc.roots_recorded(visited@),
                loc.start_visited() == visited0,
                loc.awaited() is None,
                !loc.finished(),
                loc.cutoff() == cutoff.micros,
                loc.deadline() >= cutoff.micros,
                links == self.links@,
                universe == ids_of(start).union(linked_ids(links)),
                universe.finite(),
                forall|k: int|
                    0 <= k < loc.frontier().len() ==> universe.contains(
                        (#[trigger] loc.frontier()[k]).id.0@,
                    ),
                forall|f: nat|
                    f >= steps ==> #[trigger] locate_run(
                        links,
                        start,
                        visited0,
                        Seq::empty(),
                        cutoff.micros as int,
                        f,
                    ) == locate_run(
                        links,
                        loc.frontier(),
                        visited@,
                        loc.roots(),
                        cutoff.micros as int,
                        (f - steps) as nat,
                    ),
            decreases universe.difference(visited@).len(), loc.frontier().len(),
        {
            let ghost frontier = loc.frontier();
            let ghost seen = visited@;
            let ghost roots = loc.roots();
            let ghost b = frontier[0];
            proof {
                assert forall|f: nat| f >= steps + 1 implies #[trigger] locate_run(
                    links,
                    frontier,
                    seen,
                    roots,
                    cutoff.micros as int,
                    (f - steps) as nat,
                ) == locate_run(
                    links,
                    if seen.contains(b.id.0@) || b.update_date.micros >= cutoff.micros
                        || !b.has_children {
                        frontier.drop_first()
                    } else {
                        frontier.drop_first() + children_in(links, b.id.0@)
                    },
                    seen.insert(b.id.0@),
                    if !seen.contains(b.id.0@) && b.update_date.micros >= cutoff.micros
                        && !b.spec_is_empty() {
                        roots.push(b)
                    } else {
                        roots
                    },
                    cutoff.micros as int,
                    (f - steps - 1) as nat,
                ) by {
                    if seen.contains(b.id.0@) {
                        assert(seen.insert(b.id.0@) =~= seen);
                    }
                }
            }
            match loc.step(visited, cutoff) {
                LocatorStep::FetchChildren(id) => {
                    let kids = self.children_of(&id);
                    loc.supply_children(kids);
                    proof {
                        lemma_children_are_linked(links, b.id.0@);
                        assert(loc.frontier() == frontier.drop_first() + children_in(links, b.id.0@));
                        assert forall|k: int| 0 <= k < loc.frontier().len() implies universe.contains(
                            (#[trigger] loc.frontier()[k]).id.0@,
                        ) by {
                            if k < frontier.len() - 1 {
                                assert(loc.frontier()[k] == frontier[k + 1]);
                            } else {
                                let kids = children_in(links, b.id.0@);
                                assert(loc.frontier()[k] == kids[k - (frontier.len() - 1)]);
                                assert(linked_ids(links).contains(kids[k - (frontier.len() - 1)].id.0@));
                            }
                        }
                    }
                },
                LocatorStep::Continue => {
                    proof {
                        assert forall|k: int| 0 <= k < loc.frontier().len() implies universe.contains(
                            (#[trigger] loc.frontier()[k]).id.0@,
                        ) by {
                            assert(loc.frontier()[k] == frontier[k + 1]);
                        }
                    }
                },
                LocatorStep::Finished => {},
            }
            proof {
                assert(universe.contains(frontier[0].id.0@));
                if !seen.contains(b.id.0@) {
                    lemma_unvisited_shrinks(universe, seen, b.id.0@);
                } else {
                    assert(visited@ =~= seen);
                }
                steps = steps + 1;
            }
        }
        proof {
            assert(locate_run(
                links,
                start,
                visited0,
                Seq::empty(),
                cutoff.micros as int,
                steps,
            ) == Some((loc.roots(), visited@)));
        }
        loc.into_roots()
    }

    /// Expands each root, in order, into the tree of all its descendants in
    /// this graph: children already visited, and empty ones, are dropped with
    /// everything beneath them. `visited` is shared by all the roots. The
    /// expansion ends on every graph, cycles included.
    pub fn expand_roots(&self, roots: Vec<Block>, visited: &mut VisitedSet) -> (r: Vec<BlockTree>)
        requires
            old(visited).wf(),
        ensures
            final(visited).wf(),
            exists|fuel: nat|
                expand_all(self.links@, roots@, old(visited)@, fuel) == Some(
                    (r@.map_values(|t: BlockTree| t.nodes()), final(visited)@),
                ),
            r@.len() == roots@.len(),
            forall|i: int|
                0 <= i < r@.len() ==> {
                    &&& (#[trigger] r@[i]).wf()
                    &&& r@[i].nodes()[0].block == roots@[i]
                    &&& forall|j: int|
                        1 <= j < r@[i].nodes().len() ==> !(
                        #[trigger] r@[i].nodes()[j]).block.spec_is_empty()
                },
    {
        let ghost links = self.links@;
        let ghost universe = ids_of(roots@).union(linked_ids(links));
        let ghost visited0 = visited@;
        let ghost mut fuel: nat = 0;
        let mut trees: Vec<BlockTree> = Vec::new();
        let ghost all_roots = roots@;
        let mut i: usize = 0;
        while i < roots.len()
            invariant
                roots@ == all_roots,
                visited.wf(),
                links == self.links@,
                universe == ids_of(all_roots).union(linked_ids(links)),
                i <= all_roots.len(),
                trees@.len() == i,
                forall|f: nat|
                    f >= fuel ==> #[trigger] expand_all(
                        links,
                        all_roots.subrange(0, i as int),
                        visited0,
                        f,
                    ) == Some((trees@.map_values(|t: BlockTree| t.nodes()), visited@)),
                forall|t: int|
                    0 <= t < i ==> {
                        &&& (#[trigger] trees@[t]).wf()
                        &&& trees@[t].nodes()[0].block == all_roots[t]
                        &&& forall|j: int|
                            1 <= j < trees@[t].nodes().len() ==> !(
                            #[trigger] trees@[t].nodes()[j]).block.spec_is_empty()
                    },
            decreases all_roots.len() - i,
        {
            let ghost root = all_roots[i as int];
            let ghost seen0 = visited@;
            let ghost mut steps: nat = 0;
            let mut x = TreeExpansion::new(roots[i].duplicate());
            proof {
                assert(all_roots.map_values(|b: Block| b.id.0@)[i as int] == root.id.0@);
                assert(x.tree().nodes() =~= lone_root(root));
            }
            while x.pending() > 0
                invariant
                    visited.wf(),
                    x.wf(),
                    x.awaited() is None,
                    x.tree().nodes()[0].block == root,
                    links == self.links@,
                    universe == ids_of(all_roots).union(linked_ids(links)),
                    universe.finite(),
                    universe.contains(root.id.0@),
                    forall|j: int|
                        0 <= j < x.tree().nodes().len() ==> universe.contains(
                            (#[trigger] x.tree().nodes()[j]).block.id.0@,
                        ),
                    forall|f: nat|
                        f >= steps ==> #[trigger] expand_run(
                            links,
                            lone_root(root),
                            seq![0usize],
                            seen0,
                            f,
                        ) == expand_run(
                            links,
                            x.tree().nodes(),
                            x.queue(),
                            visited@,
                            (f - steps) as nat,
                        ),
                decreases universe.difference(visited@).len(), x.queue().len(),
            {
                let ghost seen = visited@;
                let ghost nodes = x.tree().nodes();
                let ghost queue = x.queue();
                let ghost n = queue[0];
                let ghost b = nodes[n as int].block;
                assert(universe.contains(b.id.0@));
                match x.step(visited) {
                    ExpansionStep::FetchChildren(id, _page) => {
                        let kids = self.children_of(&id);
                        let ghost before = x.tree().nodes();
                        proof {
                            lemma_children_are_linked(links, id.0@);
                        }
                        x.supply_children(kids, visited);
                        proof {
                            let kept = kids@.filter(child_kept(visited@));
                            assert forall|j: int|
                                0 <= j < x.tree().nodes().len() implies universe.contains(
                                (#[trigger] x.tree().nodes()[j]).block.id.0@,
                            ) by {
                                if j >= before.len() {
                                    let c = kept[j - before.len()];
                                    assert(x.tree().nodes()[j].block == c);
                                    assert(kids@ == children_in(links, id.0@));
                                    assert(kept.contains(c));
                                    kids@.lemma_filter_contains_rev(child_kept(visited@), c);
                                    let m = choose|m: int| 0 <= m < kids@.len() && kids@[m] == c;
                                    assert(children_in(links, id.0@)[m] == c);
                                    assert(linked_ids(links).contains(c.id.0@));
                                } else {
                                    assert(x.tree().nodes()[j] == before[j]);
                                }
                            }
                        }
                    },
                    ExpansionStep::Continue => {},
                    ExpansionStep::Finished => {},
                }
                proof {
                    if !seen.contains(b.id.0@) {
                        lemma_unvisited_shrinks(universe, seen, b.id.0@);
                    } else {
                        assert(visited@ =~= seen);
                    }
                    assert forall|f: nat| f >= steps + 1 implies #[trigger] expand_run(
                        links,
                        lone_root(root),
                        seq![0usize],
                        seen0,
                        f,
                    ) == expand_run(
                        links,
                        x.tree().nodes(),
                        x.queue(),
                        visited@,
                        (f - steps - 1) as nat,
                    ) by {
                        assert(expand_run(links, nodes, queue, seen, (f - steps) as nat)
                            == expand_run(
                            links,
                            x.tree().nodes(),
                            x.queue(),
                            visited@,
                            (f - steps - 1) as nat,
                        ));
                    }
                    steps = steps + 1;
                }
            }
            let tree = x.into_tree();
            proof {
                let prefix = all_roots.subrange(0, i as int);
                assert(all_roots.subrange(0, i + 1).drop_last() =~= prefix);
                assert forall|f: nat| f >= steps implies #[trigger] expand_run(
                    links,
                    lone_root(root),
                    seq![0usize],
                    seen0,
                    f,
                ) == Some((tree.nodes(), visited@)) by {}
                let old_fuel = fuel;
                fuel = if steps > fuel { steps } else { fuel };
                assert forall|f: nat| f >= fuel implies #[trigger] expand_all(
                    links,
                    all_roots.subrange(0, i + 1),
                    visited0,
                    f,
                ) == Some((trees@.push(tree).map_values(|t: BlockTree| t.nodes()), visited@)) by {
                    assert(f >= old_fuel);
                    assert(expand_all(links, prefix, visited0, f) == Some(
                        (trees@.map_values(|t: BlockTree| t.nodes()), seen0),
                    ));
                    assert(expand_run(links, lone_root(root), seq![0usize], seen0, f) == Some(
                        (tree.nodes(), visited@),
                    ));
                    assert(all_roots.subrange(0, i + 1).last() == root);
                    assert(trees@.push(tree).map_values(|t: BlockTree| t.nodes()) =~= trees@.map_values(
                        |t: BlockTree| t.nodes(),
                    ).push(tree.nodes()));
                }
            }
            trees.push(tree);
            i = i + 1;
        }
        proof {
            assert(all_roots.subrange(0, i as int) =~= all_roots);
            assert(expand_all(links, all_roots, visited0, fuel) == Some(
                (trees@.map_values(|t: BlockTree| t.nodes()), visited@),
            ));
        }
        trees
    }
}

} // verus!
