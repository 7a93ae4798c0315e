use crate::datatypes::{Block, BlockID, Page, Timestamp};
use crate::visited::VisitedSet;
use std::collections::VecDeque;
use vstd::prelude::*;

verus! {

/// How long one page's root search may run, in microseconds.
pub const ROOT_SEARCH_BUDGET_MICROS: i64 = 30_000_000;

/// The instant `budget` microseconds after `now`, or the last representable
/// instant where that lies beyond it.
pub open spec fn deadline_after(now: int, budget: int) -> int {
    if now + budget > i64::MAX {
        i64::MAX as int
    } else {
        now + budget
    }
}

/// What the caller of `RootLocator::step` is to do next.
#[derive(Debug)]
pub enum LocatorStep {
    /// Fetch every child of this block and hand them to `supply_children`.
    FetchChildren(BlockID),
    /// One frontier element was handled; call `step` again.
    Continue,
    /// The search is over: the frontier ran out, or the deadline passed.
    Finished,
}

/// One call of `RootLocator::step`: from locator `l0` and visited set `v0`,
/// at clock reading `now`, it answered `r` and left `l1` and `v1`.
pub open spec fn locator_step(
    l0: RootLocator,
    v0: Set<Seq<char>>,
    now: int,
    r: LocatorStep,
    l1: RootLocator,
    v1: Set<Seq<char>>,
) -> bool {
    &&& l1.cutoff() == l0.cutoff()
    &&& l1.deadline() == l0.deadline()
    &&& (l0.finished() ==> {
            &&& r is Finished
            &&& l1 == l0
            &&& v1 == v0
        })
    &&& (!l0.finished() && l0.frontier().len() == 0 ==> {
            &&& r is Finished
            &&& l1.finished()
            &&& !l1.truncated()
            &&& l1.roots() == l0.roots()
            &&& l1.frontier() == l0.frontier()
            &&& l1.awaited() is None
            &&& v1 == v0
        })
    &&& (!l0.finished() && l0.frontier().len() > 0 && now > l0.deadline() ==> {
            &&& r is Finished
            &&& l1.finished()
            &&& l1.truncated()
            &&& l1.roots() == l0.roots()
            &&& l1.frontier() == l0.frontier()
            &&& l1.awaited() is None
            &&& v1 == v0
        })
    &&& (!l0.finished() && l0.frontier().len() > 0 && now <= l0.deadline() ==> {
            let b = l0.frontier()[0];
            &&& !l1.finished()
            &&& !l1.truncated()
            &&& l1.frontier() == l0.frontier().drop_first()
            &&& v1 == v0.insert(b.id.0@)
            &&& if v0.contains(b.id.0@) {
                &&& r is Continue
                &&& l1.roots() == l0.roots()
                &&& l1.awaited() is None
            } else if b.update_date.micros >= l0.cutoff() {
                &&& r is Continue
                &&& l1.roots() == if b.spec_is_empty() {
                    l0.roots()
                } else {
                    l0.roots().push(b)
                }
                &&& l1.awaited() is None
            } else if b.has_children {
                &&& r == LocatorStep::FetchChildren(b.id)
                &&& l1.roots() == l0.roots()
                &&& l1.awaited() == Some(b)
            } else {
                &&& r is Continue
                &&& l1.roots() == l0.roots()
                &&& l1.awaited() is None
            }
        })
}

/// One call of `RootLocator::supply_children`: `children` went to the back
/// of the frontier of `l0`, giving `l1`; nothing else changed.
pub open spec fn locator_supplied(l0: RootLocator, children: Seq<Block>, l1: RootLocator) -> bool {
    &&& l1.frontier() == l0.frontier() + children
    &&& l1.roots() == l0.roots()
    &&& l1.awaited() is None
    &&& l1.cutoff() == l0.cutoff()
    &&& l1.deadline() == l0.deadline()
    &&& l1.finished() == l0.finished()
    &&& l1.truncated() == l0.truncated()
    &&& l1.start_visited() == l0.start_visited()
}

/// Breadth-first search, inside one page, for the shallowest non-empty blocks
/// edited at or after a cutoff.
///
/// A block edited at or after the cutoff is a root (when non-empty) and is not
/// descended into; an older block is descended into when it has children. The
/// caller fetches those children when `step` asks for them. A shared
/// `VisitedSet` makes each block id processed at most once.
pub struct RootLocator {
    frontier: VecDeque<Block>,
    roots: Vec<Block>,
    cutoff: Timestamp,
    deadline: Timestamp,
    awaited: Option<Block>,
    finished: bool,
    truncated: bool,
    start_visited: Ghost<Set<Seq<char>>>,
}

impl RootLocator {
    /// The blocks still to be processed, front first.
    pub closed spec fn frontier(&self) -> Seq<Block> {
        self.frontier@
    }

    /// The roots found so far, in the order they were found.
    pub closed spec fn roots(&self) -> Seq<Block> {
        self.roots@
    }

    pub closed spec fn cutoff(&self) -> int {
        self.cutoff.micros as int
    }

    pub closed spec fn deadline(&self) -> int {
        self.deadline.micros as int
    }

    /// The block whose children were asked for and not yet supplied.
    pub closed spec fn awaited(&self) -> Option<Block> {
        self.awaited
    }

    pub closed spec fn finished(&self) -> bool {
        self.finished
    }

    /// Whether the search stopped at the deadline with blocks left unprocessed.
    pub closed spec fn truncated(&self) -> bool {
        self.truncated
    }

    /// The visited set as the search found it when it began.
    pub closed spec fn start_visited(&self) -> Set<Seq<char>> {
        self.start_visited@
    }

    /// Measured against the shared visited set `visited`: it holds every id
    /// that was visited when the search began and every root's id; no root
    /// had been visited when the search began; no two roots share an id.
    pub open spec fn roots_recorded(&self, visited: Set<Seq<char>>) -> bool {
        &&& self.start_visited().subset_of(visited)
        &&& forall|i: int|
            0 <= i < self.roots().len() ==> visited.contains((#[trigger] self.roots()[i]).id.0@)
                && !self.start_visited().contains(self.roots()[i].id.0@)
        &&& forall|i: int, j: int|
            0 <= i < j < self.roots().len() ==> (#[trigger] self.roots()[i]).id.0@ != (
            #[trigger] self.roots()[j]).id.0@
    }

    /// Every root is non-empty and was edited at or after the cutoff; a block
    /// whose children are awaited was edited before it, and has children.
    pub open spec fn wf(&self) -> bool {
        &&& forall|i: int|
            0 <= i < self.roots().len() ==> {
                &&& !(#[trigger] self.roots()[i]).spec_is_empty()
                &&& self.roots()[i].update_date.micros >= self.cutoff()
            }
        &&& match self.awaited() {
            Some(b) => b.update_date.micros < self.cutoff() && b.has_children && !self.finished(),
            None => true,
        }
        &&& self.truncated() ==> self.finished()
    }

    /// No root that the search has found is empty, and each was edited at or
    /// after the cutoff.
    pub proof fn lemma_roots_non_empty(&self)
        requires
            self.wf(),
        ensures
            forall|i: int|
                0 <= i < self.roots().len() ==> !(#[trigger] self.roots()[i]).spec_is_empty()
                    && self.roots()[i].update_date.micros >= self.cutoff(),
    {
    }

    /// The only block whose children are ever asked for and enqueued (the
    /// awaited one) was edited before the cutoff, so it is never one that the
    /// search classified as a root.
    pub proof fn lemma_root_never_descended(&self)
        requires
            self.wf(),
            self.awaited() is Some,
        ensures
            self.awaited()->0.update_date.micros < self.cutoff(),
            !self.roots().contains(self.awaited()->0),
    {
        if self.roots().contains(self.awaited()->0) {
            let i = choose|i: int| 0 <= i < self.roots().len() && self.roots()[i] == self.awaited()->0;
            assert(self.roots()[i].update_date.micros >= self.cutoff());
        }
    }

    /// Starts a search over the immediate children of `page`, with a deadline
    /// one budget after `now`.
    pub fn new(page: &Page, cutoff: Timestamp, now: Timestamp, visited: &VisitedSet) -> (r:
        RootLocator)
        ensures
            r.wf(),
            r.start_visited() == visited@,
            r.roots_recorded(visited@),
            r.frontier() == page.child_blocks@,
            r.roots() == Seq::<Block>::empty(),
            r.cutoff() == cutoff.micros,
            r.deadline() == deadline_after(now.micros as int, ROOT_SEARCH_BUDGET_MICROS as int),
            r.awaited() is None,
            !r.finished(),
            !r.truncated(),
    {
        let mut frontier: VecDeque<Block> = VecDeque::new();
        let mut i: usize = 0;
        while i < page.child_blocks.len()
            invariant
                i <= page.child_blocks@.len(),
                frontier@ == page.child_blocks@.subrange(0, i as int),
            decreases page.child_blocks@.len() - i,
        {
            frontier.push_back(page.child_blocks[i].duplicate());
            i = i + 1;
            assert(frontier@ =~= page.child_blocks@.subrange(0, i as int));
        }
        assert(frontier@ =~= page.child_blocks@);
        let deadline = if now.micros > i64::MAX - ROOT_SEARCH_BUDGET_MICROS {
            Timestamp::from_micros(i64::MAX)
        } else {
            Timestamp::from_micros(now.micros + ROOT_SEARCH_BUDGET_MICROS)
        };
        RootLocator {
            frontier,
            roots: Vec::new(),
            cutoff,
            deadline,
            awaited: None,
            finished: false,
            truncated: false,
            start_visited: Ghost(visited@),
        }
    }

    /// Handles at most one frontier element, with `now` read from the clock
    /// just before.
    ///
    /// Once the deadline has passed the search finishes, keeping the roots it
    /// has; it never asks for a fetch after the deadline. Otherwise the front
    /// block is taken off the frontier: it is skipped when its id was visited;
    /// else its id is marked visited and, when it was edited at or after the
    /// cutoff, it becomes a root if non-empty and its children are never asked
    /// for; when it is older and has children, they are asked for.
    pub fn step(&mut self, visited: &mut VisitedSet, now: Timestamp) -> (r: LocatorStep)
        requires
            old(self).wf(),
            old(self).awaited() is None,
            old(visited).wf(),
            old(self).roots_recorded(old(visited)@),
        ensures
            final(self).wf(),
            final(visited).wf(),
            final(self).roots_recorded(final(visited)@),
            final(self).start_visited() == old(self).start_visited(),
            locator_step(*old(self), old(visited)@, now.micros as int, r, *final(self), final(visited)@),

    {
        if self.finished {
            return LocatorStep::Finished;
        }
        if self.frontier.len() == 0 {
            self.finished = true;
            return LocatorStep::Finished;
        }
        if now.micros > self.deadline.micros {
            self.finished = true;
            self.truncated = true;
            return LocatorStep::Finished;
        }
        let ghost front = self.frontier@;
        let block = match self.frontier.pop_front() {
            Some(b) => b,
            None => {
                return LocatorStep::Finished;
            },
        };
        assert(self.frontier@ =~= front.drop_first());
        let fresh = visited.insert(&block.id);
        if !fresh {
            return LocatorStep::Continue;
        }
        if block.update_date.micros >= self.cutoff.micros {
            if !block.is_empty() {
                self.roots.push(block);
            }
            return LocatorStep::Continue;
        }
        if block.has_children {
            let id = block.id.duplicate();
            self.awaited = Some(block);
            return LocatorStep::FetchChildren(id);
        }
        LocatorStep::Continue
    }

    /// Appends the fetched children of the awaited block to the frontier, in
    /// the order given, whether or not they are empty.
    pub fn supply_children(&mut self, children: Vec<Block>)
        requires
            old(self).wf(),
            old(self).awaited() is Some,
        ensures
            final(self).wf(),
            locator_supplied(*old(self), children@, *final(self)),
    {
        let mut i: usize = 0;
        let ghost start = self.frontier@;
        while i < children.len()
            invariant
                i <= children@.len(),
                self.frontier@ == start + children@.subrange(0, i as int),
                self.roots@ == old(self).roots@,
                self.awaited == old(self).awaited,
                self.cutoff == old(self).cutoff,
                self.deadline == old(self).deadline,
                self.finished == old(self).finished,
                self.truncated == old(self).truncated,
                self.start_visited == old(self).start_visited,
            decreases children@.len() - i,
        {
            self.frontier.push_back(children[i].duplicate());
            i = i + 1;
            assert(self.frontier@ =~= start + children@.subrange(0, i as int));
        }
        assert(children@.subrange(0, children@.len() as int) =~= children@);
        self.awaited = None;
    }

    /// How many blocks wait on the frontier.
    pub fn pending(&self) -> (r: usize)
        ensures
            r == self.frontier().len(),
    {
        self.frontier.len()
    }

    /// Whether the search is over.
    pub fn is_finished(&self) -> (r: bool)
        ensures
            r == self.finished(),
    {
        self.finished
    }

    /// Whether the search stopped at the deadline with blocks left unprocessed.
    pub fn was_truncated(&self) -> (r: bool)
        ensures
            r == self.truncated(),
    {
        self.truncated
    }

    /// The roots found, in the order found.
    pub fn into_roots(self) -> (r: Vec<Block>)
        ensures
            r@ == self.roots(),
    {
        self.roots
    }
}

} // verus!
