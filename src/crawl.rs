use crate::config::{excluded_by, Config};
use crate::datatypes::{Block, BlockID, Page, PageID, Timestamp};
use crate::locator::{
    deadline_after, locator_step, locator_supplied, LocatorStep, RootLocator,
    ROOT_SEARCH_BUDGET_MICROS,
};
use crate::render::ParsedNotionPage;
use crate::snapshot::{
    expand_all, lemma_expand_all_more_fuel, lemma_locate_run_more_fuel, locate_run, Link, Workspace,
};
use crate::tree::{
    expansion_step, expansion_supplied, BlockTree, ExpansionStep, TreeExpansion, TreeNode,
};
use crate::visited::VisitedSet;
use vstd::prelude::*;

verus! {

/// What the crawl reports of one page: its id, its title, and the nodes of
/// each of its trees.
pub type PageReport = (PageID, Seq<char>, Seq<Seq<TreeNode>>);

/// The report of a crawled page.
pub open spec fn report_of(p: ParsedNotionPage) -> PageReport {
    (p.page_id, p.title@, p.page_content@.map_values(|t: BlockTree| t.nodes()))
}

/// The whole crawl over a graph given by `links`, page after page, with
/// `fuel` for each root search and each tree expansion. A page that the
/// patterns exclude is skipped; the others get a root search sharing one
/// visited set, and, where roots are found, an expansion sharing another. A
/// page is reported when it has roots. `None` when some run is out of fuel;
/// otherwise the reports and both visited sets.
pub open spec fn crawl_run(
    links: Seq<Link>,
    pages: Seq<Page>,
    cutoff: int,
    patterns: Seq<String>,
    root_seen: Set<Seq<char>>,
    tree_seen: Set<Seq<char>>,
    fuel: nat,
) -> Option<(Seq<PageReport>, Set<Seq<char>>, Set<Seq<char>>)>
    decreases pages.len(),
{
    if pages.len() == 0 {
        Some((Seq::empty(), root_seen, tree_seen))
    } else {
        match crawl_run(links, pages.drop_last(), cutoff, patterns, root_seen, tree_seen, fuel) {
            None => None,
            Some((reports, rs, ts)) => {
                let p = pages.last();
                if excluded_by(patterns, p.title@, p.url@) {
                    Some((reports, rs, ts))
                } else {
                    match locate_run(links, p.child_blocks@, rs, Seq::empty(), cutoff, fuel) {
                        None => None,
                        Some((roots, rs2)) => if roots.len() == 0 {
                            Some((reports, rs2, ts))
                        } else {
                            match expand_all(links, roots, ts, fuel) {
                                None => None,
                                Some((trees, ts2)) => Some(
                                    (reports.push((p.id, p.title@, trees)), rs2, ts2),
                                ),
                            }
                        },
                    }
                }
            },
        }
    }
}

/// The reports of a whole crawl that starts with both visited sets empty.
pub open spec fn crawl_reports(
    links: Seq<Link>,
    pages: Seq<Page>,
    cutoff: int,
    patterns: Seq<String>,
    fuel: nat,
) -> Option<Seq<PageReport>> {
    match crawl_run(links, pages, cutoff, patterns, Set::empty(), Set::empty(), fuel) {
        Some((reports, _, _)) => Some(reports),
        None => None,
    }
}

/// A crawl that reaches its end with some fuel reaches the same end with
/// more.
pub proof fn lemma_crawl_run_more_fuel(
    links: Seq<Link>,
    pages: Seq<Page>,
    cutoff: int,
    patterns: Seq<String>,
    root_seen: Set<Seq<char>>,
    tree_seen: Set<Seq<char>>,
    fuel: nat,
    more: nat,
)
    requires
        crawl_run(links, pages, cutoff, patterns, root_seen, tree_seen, fuel) is Some,
        fuel <= more,
    ensures
        crawl_run(links, pages, cutoff, patterns, root_seen, tree_seen, more) == crawl_run(
            links,
            pages,
            cutoff,
            patterns,
            root_seen,
            tree_seen,
            fuel,
        ),
    decreases pages.len(),
{
    if pages.len() > 0 {
        lemma_crawl_run_more_fuel(
            links,
            pages.drop_last(),
            cutoff,
            patterns,
            root_seen,
            tree_seen,
            fuel,
            more,
        );
        let (reports, rs, ts) = crawl_run(
            links,
            pages.drop_last(),
            cutoff,
            patterns,
            root_seen,
            tree_seen,
            fuel,
        )->0;
        let p = pages.last();
        if !excluded_by(patterns, p.title@, p.url@) {
            lemma_locate_run_more_fuel(links, p.child_blocks@, rs, Seq::empty(), cutoff, fuel, more);
            let (roots, rs2) = locate_run(links, p.child_blocks@, rs, Seq::empty(), cutoff, fuel)->0;
            if roots.len() > 0 {
                lemma_expand_all_more_fuel(links, roots, ts, fuel, more);
            }
        }
    }
}

/// Crawling twice with the same remote state, the same pages, the same cutoff
/// and the same exclusions, each run starting with empty visited sets, gives
/// the same reports: the same pages, with the same trees rooted at the same
/// roots.
pub proof fn lemma_crawl_repeatable(
    links: Seq<Link>,
    pages: Seq<Page>,
    cutoff: int,
    patterns: Seq<String>,
    reports1: Seq<PageReport>,
    reports2: Seq<PageReport>,
)
    requires
        exists|fuel: nat| crawl_reports(links, pages, cutoff, patterns, fuel) == Some(reports1),
        exists|fuel: nat| crawl_reports(links, pages, cutoff, patterns, fuel) == Some(reports2),
    ensures
        reports1 == reports2,
{
    let f1 = choose|fuel: nat| crawl_reports(links, pages, cutoff, patterns, fuel) == Some(reports1);
    let f2 = choose|fuel: nat| crawl_reports(links, pages, cutoff, patterns, fuel) == Some(reports2);
    let f = if f1 > f2 {
        f1
    } else {
        f2
    };
    lemma_crawl_run_more_fuel(links, pages, cutoff, patterns, Set::empty(), Set::empty(), f1, f);
    lemma_crawl_run_more_fuel(links, pages, cutoff, patterns, Set::empty(), Set::empty(), f2, f);
}

impl Workspace {
    /// Crawls `pages`, in order, over this graph: each page that `config` does
    /// not exclude has its roots searched for (edited at or after `cutoff`)
    /// and, when it has some, expanded into trees; such a page is reported
    /// with its trees. Both visited sets start empty and are shared by all the
    /// pages. The crawl ends on every graph, cycles included.
    pub fn crawl(&self, pages: &Vec<Page>, cutoff: Timestamp, config: &Config) -> (r: Vec<
        ParsedNotionPage,
    >)
        ensures
            exists|fuel: nat|
                crawl_reports(
                    self.links@,
                    pages@,
                    cutoff.micros as int,
                    config.exclusions.page_patterns@,
                    fuel,
                ) == Some(r@.map_values(|p: ParsedNotionPage| report_of(p))),
    {
        let ghost links = self.links@;
        let ghost patterns = config.exclusions.page_patterns@;
        let ghost c = cutoff.micros as int;
        let mut root_visited = VisitedSet::new();
        let mut tree_visited = VisitedSet::new();
        let mut out: Vec<ParsedNotionPage> = Vec::new();
        let ghost mut fuel: nat = 0;
        let mut i: usize = 0;
        while i < pages.len()
            invariant
                links == self.links@,
                patterns == config.exclusions.page_patterns@,
                c == cutoff.micros as int,
                i <= pages@.len(),
                root_visited.wf(),
                tree_visited.wf(),
                forall|f: nat|
                    f >= fuel ==> #[trigger] crawl_run(
                        links,
                        pages@.subrange(0, i as int),
                        c,
                        patterns,
                        Set::empty(),
                        Set::empty(),
                        f,
                    ) == Some(
                        (
                            out@.map_values(|p: ParsedNotionPage| report_of(p)),
                            root_visited@,
                            tree_visited@,
                        ),
                    ),
            decreases pages@.len() - i,
        {
            let page = &pages[i];
            let ghost prefix = pages@.subrange(0, i as int);
            let ghost reports = out@.map_values(|p: ParsedNotionPage| report_of(p));
            let ghost rs = root_visited@;
            let ghost ts = tree_visited@;
            proof {
                assert(pages@.subrange(0, i + 1).drop_last() =~= prefix);
                assert(pages@.subrange(0, i + 1).last() == *page);
            }
            if config.should_exclude_page(page.title.as_str(), page.url.as_str()) {
                proof {
                    assert forall|f: nat| f >= fuel implies #[trigger] crawl_run(
                        links,
                        pages@.subrange(0, i + 1),
                        c,
                        patterns,
                        Set::empty(),
                        Set::empty(),
                        f,
                    ) == Some((reports, rs, ts)) by {
                        assert(crawl_run(links, prefix, c, patterns, Set::empty(), Set::empty(), f)
                            == Some((reports, rs, ts)));
                    }
                }
            } else {
                let roots = self.locate_roots(page, cutoff, &mut root_visited);
                let ghost found = roots@;
                let ghost rs2 = root_visited@;
                let ghost fl = choose|f: nat|
                    locate_run(links, page.child_blocks@, rs, Seq::empty(), c, f) == Some(
                        (found, rs2),
                    );
                if roots.len() == 0 {
                    proof {
                        let old_fuel = fuel;
                        fuel = if fl > fuel {
                            fl
                        } else {
                            fuel
                        };
                        assert forall|f: nat| f >= fuel implies #[trigger] crawl_run(
                            links,
                            pages@.subrange(0, i + 1),
                            c,
                            patterns,
                            Set::empty(),
                            Set::empty(),
                            f,
                        ) == Some((reports, rs2, ts)) by {
                            assert(f >= old_fuel);
                            assert(crawl_run(
                                links,
                                prefix,
                                c,
                                patterns,
                                Set::empty(),
                                Set::empty(),
                                f,
                            ) == Some((reports, rs, ts)));
                            lemma_locate_run_more_fuel(
                                links,
                                page.child_blocks@,
                                rs,
                                Seq::empty(),
                                c,
                                fl,
                                f,
                            );
                        }
                    }
                } else {
                    let trees = self.expand_roots(roots, &mut tree_visited);
                    let ghost grown = trees@.map_values(|t: BlockTree| t.nodes());
                    let ghost ts2 = tree_visited@;
                    let ghost fe = choose|f: nat|
                        expand_all(links, found, ts, f) == Some((grown, ts2));
                    let parsed = ParsedNotionPage {
                        page_id: page.id.duplicate(),
                        title: page.title.clone(),
                        page_content: trees,
                    };
                    out.push(parsed);
                    proof {
                        let old_fuel = fuel;
                        fuel = if fl > fuel {
                            fl
                        } else {
                            fuel
                        };
                        fuel = if fe > fuel {
                            fe
                        } else {
                            fuel
                        };
                        assert(report_of(parsed) == (page.id, page.title@, grown));
                        assert(out@.map_values(|p: ParsedNotionPage| report_of(p)) =~= reports.push(
                            (page.id, page.title@, grown),
                        ));
                        assert forall|f: nat| f >= fuel implies #[trigger] crawl_run(
                            links,
                            pages@.subrange(0, i + 1),
                            c,
                            patterns,
                            Set::empty(),
                            Set::empty(),
                            f,
                        ) == Some((reports.push((page.id, page.title@, grown)), rs2, ts2)) by {
                            assert(f >= old_fuel);
                            assert(crawl_run(
                                links,
                                prefix,
                                c,
                                patterns,
                                Set::empty(),
                                Set::empty(),
                                f,
                            ) == Some((reports, rs, ts)));
                            lemma_locate_run_more_fuel(
                                links,
                                page.child_blocks@,
                                rs,
                                Seq::empty(),
                                c,
                                fl,
                                f,
                            );
                            lemma_expand_all_more_fuel(links, found, ts, fe, f);
                        }
                    }
                }
            }
            i = i + 1;
        }
        proof {
            assert(pages@.subrange(0, i as int) =~= pages@);
            assert(crawl_run(links, pages@, c, patterns, Set::empty(), Set::empty(), fuel) == Some(
                (out@.map_values(|p: ParsedNotionPage| report_of(p)), root_visited@, tree_visited@),
            ));
            assert(crawl_reports(links, pages@, c, patterns, fuel) == Some(
                out@.map_values(|p: ParsedNotionPage| report_of(p)),
            ));
        }
        out
    }
}

/// What the caller of `CrawlSession::step` is to do next.
#[derive(Debug)]
pub enum CrawlAction {
    /// Fetch every child of this block (of this page) and hand them to
    /// `CrawlSession::supply_children`.
    FetchChildren(BlockID, PageID),
    /// One decision was taken; call `step` again.
    Continue,
    /// Every page has been crawled.
    Finished,
}

/// The expansion of the current page's roots: the roots, the trees already
/// complete (one per root, in order), and the expansion of the next root.
pub struct ExpansionState {
    pub roots: Vec<Block>,
    pub trees: Vec<BlockTree>,
    pub current: TreeExpansion,
}

/// Where a crawl stands within the current page.
pub enum CrawlPhase {
    /// Between two pages.
    Idle,
    /// Searching the current page for roots.
    Locating(RootLocator),
    /// Expanding the current page's roots into trees.
    Expanding(ExpansionState),
}

/// Whether `x` is the expansion of `root` that has not taken a step yet.
pub open spec fn fresh_expansion(x: TreeExpansion, root: Block) -> bool {
    &&& x.wf()
    &&& x.tree().nodes() == seq![TreeNode { block: root, parent: None }]
    &&& x.queue() == seq![0usize]
    &&& x.awaited() is None
}

/// A crawl of discovered pages, one decision per `step`: the caller performs
/// the fetches that a step asks for and feeds the children back in.
///
/// Each page in turn is skipped when the exclusions match its title or URL;
/// otherwise its roots are searched for (with the deadline set when its search
/// starts), and when it has some they are expanded, one tree per root, and the
/// page is reported with its trees. One visited set is shared by the root
/// searches of all pages, another by all the expansions; both start empty.
pub struct CrawlSession {
    config: Config,
    cutoff: Timestamp,
    pages: Vec<Page>,
    index: usize,
    phase: CrawlPhase,
    root_visited: VisitedSet,
    tree_visited: VisitedSet,
    reports: Vec<ParsedNotionPage>,
}

impl CrawlSession {
    pub closed spec fn pages(&self) -> Seq<Page> {
        self.pages@
    }

    /// The position of the current page in `pages()`.
    pub closed spec fn index(&self) -> int {
        self.index as int
    }

    pub closed spec fn phase(&self) -> CrawlPhase {
        self.phase
    }

    /// The pages reported so far, in order.
    pub closed spec fn reports(&self) -> Seq<ParsedNotionPage> {
        self.reports@
    }

    pub closed spec fn cutoff(&self) -> Timestamp {
        self.cutoff
    }

    pub closed spec fn patterns(&self) -> Seq<String> {
        self.config.exclusions.page_patterns@
    }

    /// The ids visited by the root searches.
    pub closed spec fn root_seen(&self) -> Set<Seq<char>> {
        self.root_visited@
    }

    /// The ids visited by the expansions.
    pub closed spec fn tree_seen(&self) -> Set<Seq<char>> {
        self.tree_visited@
    }

    pub closed spec fn sets_wf(&self) -> bool {
        self.root_visited.wf() && self.tree_visited.wf()
    }

    /// The current page is being crawled and waits on a fetch.
    pub open spec fn awaiting(&self) -> bool {
        match self.phase() {
            CrawlPhase::Idle => false,
            CrawlPhase::Locating(l) => l.awaited() is Some,
            CrawlPhase::Expanding(e) => e.current.awaited() is Some,
        }
    }

    pub open spec fn wf(&self) -> bool {
        &&& self.sets_wf()
        &&& 0 <= self.index() <= self.pages().len()
        &&& match self.phase() {
            CrawlPhase::Idle => true,
            CrawlPhase::Locating(l) => {
                &&& self.index() < self.pages().len()
                &&& l.wf()
                &&& !l.finished()
                &&& l.roots_recorded(self.root_seen())
                &&& l.cutoff() == self.cutoff().micros
            },
            CrawlPhase::Expanding(e) => {
                &&& self.index() < self.pages().len()
                &&& e.trees@.len() < e.roots@.len()
                &&& e.current.wf()
            },
        }
    }

    /// A crawl of `pages`, in order, for blocks edited at or after `cutoff`.
    pub fn new(pages: Vec<Page>, cutoff: Timestamp, config: Config) -> (r: CrawlSession)
        ensures
            r.wf(),
            !r.awaiting(),
            r.pages() == pages@,
            r.cutoff() == cutoff,
            r.patterns() == config.exclusions.page_patterns@,
            r.index() == 0,
            r.phase() is Idle,
            r.reports() == Seq::<ParsedNotionPage>::empty(),
            r.root_seen() == Set::<Seq<char>>::empty(),
            r.tree_seen() == Set::<Seq<char>>::empty(),
    {
        CrawlSession {
            config,
            cutoff,
            pages,
            index: 0,
            phase: CrawlPhase::Idle,
            root_visited: VisitedSet::new(),
            tree_visited: VisitedSet::new(),
            reports: Vec::new(),
        }
    }

    /// Takes one decision, with `now` read from the clock just before.
    ///
    /// Between pages: with no page left the crawl is finished; an excluded
    /// page is skipped; otherwise the root search of the page starts. While
    /// searching: one step of the search; when it finishes, a page without
    /// roots is left, and otherwise the expansion of its first root starts.
    /// While expanding: one step of the current expansion; when it finishes its
    /// tree is kept and the next root is expanded, or, after the last, the
    /// page is reported with its trees.
    pub fn step(&mut self, now: Timestamp) -> (a: CrawlAction)
        requires
            old(self).wf(),
            !old(self).awaiting(),
        ensures
            final(self).wf(),
            !final(self).awaiting() || a is FetchChildren,
            final(self).pages() == old(self).pages(),
            final(self).cutoff() == old(self).cutoff(),
            final(self).patterns() == old(self).patterns(),
            ({
                let s0 = *old(self);
                let s1 = *final(self);
                let page = s0.pages()[s0.index()];
                match s0.phase() {
                    CrawlPhase::Idle => if s0.index() >= s0.pages().len() {
                        &&& a is Finished
                        &&& s1 == s0
                    } else {
                        &&& a is Continue
                        &&& s1.reports() == s0.reports()
                        &&& s1.root_seen() == s0.root_seen()
                        &&& s1.tree_seen() == s0.tree_seen()
                        &&& if excluded_by(s0.patterns(), page.title@, page.url@) {
                            &&& s1.index() == s0.index() + 1
                            &&& s1.phase() is Idle
                        } else {
                            let l = s1.phase()->Locating_0;
                            &&& s1.index() == s0.index()
                            &&& s1.phase() is Locating
                            &&& l.frontier() == page.child_blocks@
                            &&& l.roots() == Seq::<Block>::empty()
                            &&& l.cutoff() == s0.cutoff().micros
                            &&& l.deadline() == deadline_after(
                                now.micros as int,
                                ROOT_SEARCH_BUDGET_MICROS as int,
                            )
                            &&& l.awaited() is None
                            &&& !l.truncated()
                            &&& l.start_visited() == s0.root_seen()
                        }
                    },
                    CrawlPhase::Locating(l0) => exists|r: LocatorStep, l1: RootLocator|
                        {
                            &&& #[trigger] locator_step(
                                l0,
                                s0.root_seen(),
                                now.micros as int,
                                r,
                                l1,
                                s1.root_seen(),
                            )
                            &&& s1.tree_seen() == s0.tree_seen()
                            &&& s1.reports() == s0.reports()
                            &&& match r {
                                LocatorStep::FetchChildren(id) => {
                                    &&& a == CrawlAction::FetchChildren(id, page.id)
                                    &&& s1.index() == s0.index()
                                    &&& s1.phase() == CrawlPhase::Locating(l1)
                                },
                                LocatorStep::Continue => {
                                    &&& a is Continue
                                    &&& s1.index() == s0.index()
                                    &&& s1.phase() == CrawlPhase::Locating(l1)
                                },
                                LocatorStep::Finished => {
                                    &&& a is Continue
                                    &&& if l1.roots().len() == 0 {
                                        &&& s1.index() == s0.index() + 1
                                        &&& s1.phase() is Idle
                                    } else {
                                        &&& s1.index() == s0.index()
                                        &&& s1.phase() matches CrawlPhase::Expanding(e)
                                        &&& e.roots@ == l1.roots()
                                        &&& e.trees@.len() == 0
                                        &&& fresh_expansion(e.current, l1.roots()[0])
                                    }
                                },
                            }
                        },
                    CrawlPhase::Expanding(e0) => exists|r: ExpansionStep, x1: TreeExpansion|
                        {
                            &&& #[trigger] expansion_step(
                                e0.current,
                                s0.tree_seen(),
                                r,
                                x1,
                                s1.tree_seen(),
                            )
                            &&& s1.root_seen() == s0.root_seen()
                            &&& match r {
                                ExpansionStep::Finished => {
                                    let trees = e0.trees@.push(x1.tree());
                                    &&& a is Continue
                                    &&& if trees.len() < e0.roots@.len() {
                                        &&& s1.index() == s0.index()
                                        &&& s1.reports() == s0.reports()
                                        &&& s1.phase() matches CrawlPhase::Expanding(e1)
                                        &&& e1.roots@ == e0.roots@
                                        &&& e1.trees@ == trees
                                        &&& fresh_expansion(e1.current, e0.roots@[trees.len() as int])
                                    } else {
                                        let report = s1.reports().last();
                                        &&& s1.index() == s0.index() + 1
                                        &&& s1.phase() is Idle
                                        &&& s1.reports().len() == s0.reports().len() + 1
                                        &&& s1.reports().drop_last() == s0.reports()
                                        &&& report.page_id == page.id
                                        &&& report.title@ == page.title@
                                        &&& report.page_content@ == trees
                                    }
                                },
                                _ => {
                                    &&& a == match r {
                                        ExpansionStep::FetchChildren(id, p) => CrawlAction::FetchChildren(
                                            id,
                                            p,
                                        ),
                                        _ => CrawlAction::Continue,
                                    }
                                    &&& s1.index() == s0.index()
                                    &&& s1.reports() == s0.reports()
                                    &&& s1.phase() matches CrawlPhase::Expanding(e1)
                                    &&& e1.roots@ == e0.roots@
                                    &&& e1.trees@ == e0.trees@
                                    &&& e1.current == x1
                                },
                            }
                        },
                }
            }),
    {
        let ghost s0 = *self;
        let page_count = self.pages.len();
        let mut phase = CrawlPhase::Idle;
        std::mem::swap(&mut phase, &mut self.phase);
        match phase {
            CrawlPhase::Idle => {
                if self.index >= page_count {
                    return CrawlAction::Finished;
                }
                let page = &self.pages[self.index];
                if self.config.should_exclude_page(page.title.as_str(), page.url.as_str()) {
                    self.index = self.index + 1;
                    return CrawlAction::Continue;
                }
                let loc = RootLocator::new(page, self.cutoff, now, &self.root_visited);
                self.phase = CrawlPhase::Locating(loc);
                CrawlAction::Continue
            },
            CrawlPhase::Locating(mut loc) => {
                let ghost l0 = loc;
                assert(s0.phase() == CrawlPhase::Locating(l0));
                assert(self.index < self.pages@.len());
                let r = loc.step(&mut self.root_visited, now);
                match r {
                    LocatorStep::FetchChildren(id) => {
                        let page_id = self.pages[self.index].id.duplicate();
                        let ghost l1 = loc;
                        self.phase = CrawlPhase::Locating(loc);
                        assert(locator_step(l0, s0.root_seen(), now.micros as int, r, l1, self.root_seen()));
                        CrawlAction::FetchChildren(id, page_id)
                    },
                    LocatorStep::Continue => {
                        let ghost l1 = loc;
                        self.phase = CrawlPhase::Locating(loc);
                        assert(locator_step(l0, s0.root_seen(), now.micros as int, r, l1, self.root_seen()));
                        CrawlAction::Continue
                    },
                    LocatorStep::Finished => {
                        let ghost l1 = loc;
                        let roots = loc.into_roots();
                        if roots.len() == 0 {
                            self.index = self.index + 1;
                        } else {
                            let current = TreeExpansion::new(roots[0].duplicate());
                            self.phase = CrawlPhase::Expanding(
                                ExpansionState { roots, trees: Vec::new(), current },
                            );
                        }
                        assert(locator_step(l0, s0.root_seen(), now.micros as int, r, l1, self.root_seen()));
                        CrawlAction::Continue
                    },
                }
            },
            CrawlPhase::Expanding(state) => {
                assert(s0.phase() == CrawlPhase::Expanding(state));
                assert(self.index < self.pages@.len());
                let ExpansionState { roots, mut trees, mut current } = state;
                let ghost x0 = current;
                let r = current.step(&mut self.tree_visited);
                let ghost x1 = current;
                assert(expansion_step(x0, s0.tree_seen(), r, x1, self.tree_seen()));
                match r {
                    ExpansionStep::Finished => {
                        trees.push(current.into_tree());
                        if trees.len() < roots.len() {
                            let next = TreeExpansion::new(roots[trees.len()].duplicate());
                            self.phase = CrawlPhase::Expanding(
                                ExpansionState { roots, trees, current: next },
                            );
                        } else {
                            let page = &self.pages[self.index];
                            let report = ParsedNotionPage {
                                page_id: page.id.duplicate(),
                                title: page.title.clone(),
                                page_content: trees,
                            };
                            self.reports.push(report);
                            self.index = self.index + 1;
                            assert(self.reports@.drop_last() =~= s0.reports());
                            assert(self.reports@.last() == report);
                        }
                        assert(expansion_step(x0, s0.tree_seen(), r, x1, self.tree_seen()));
                        CrawlAction::Continue
                    },
                    ExpansionStep::FetchChildren(id, page_id) => {
                        self.phase = CrawlPhase::Expanding(ExpansionState { roots, trees, current });
                        assert(expansion_step(x0, s0.tree_seen(), r, x1, self.tree_seen()));
                        CrawlAction::FetchChildren(id, page_id)
                    },
                    ExpansionStep::Continue => {
                        self.phase = CrawlPhase::Expanding(ExpansionState { roots, trees, current });
                        assert(expansion_step(x0, s0.tree_seen(), r, x1, self.tree_seen()));
                        CrawlAction::Continue
                    },
                }
            },
        }
    }

    /// Hands the fetched children of the awaited block to the root search or
    /// the expansion that asked for them.
    pub fn supply_children(&mut self, children: Vec<Block>)
        requires
            old(self).wf(),
            old(self).awaiting(),
        ensures
            final(self).wf(),
            !final(self).awaiting(),
            final(self).pages() == old(self).pages(),
            final(self).cutoff() == old(self).cutoff(),
            final(self).patterns() == old(self).patterns(),
            final(self).index() == old(self).index(),
            final(self).reports() == old(self).reports(),
            final(self).root_seen() == old(self).root_seen(),
            final(self).tree_seen() == old(self).tree_seen(),
            match old(self).phase() {
                CrawlPhase::Locating(l0) => {
                    &&& final(self).phase() is Locating
                    &&& locator_supplied(l0, children@, final(self).phase()->Locating_0)
                },
                CrawlPhase::Expanding(e0) => {
                    let e1 = final(self).phase()->Expanding_0;
                    &&& final(self).phase() is Expanding
                    &&& e1.roots@ == e0.roots@
                    &&& e1.trees@ == e0.trees@
                    &&& expansion_supplied(e0.current, children@, old(self).tree_seen(), e1.current)
                },
                CrawlPhase::Idle => false,
            },
    {
        let mut phase = CrawlPhase::Idle;
        std::mem::swap(&mut phase, &mut self.phase);
        match phase {
            CrawlPhase::Locating(mut loc) => {
                loc.supply_children(children);
                self.phase = CrawlPhase::Locating(loc);
            },
            CrawlPhase::Expanding(state) => {
                let ExpansionState { roots, trees, mut current } = state;
                current.supply_children(children, &self.tree_visited);
                self.phase = CrawlPhase::Expanding(ExpansionState { roots, trees, current });
            },
            CrawlPhase::Idle => {},
        }
    }

    /// Whether every page has been crawled.
    pub fn is_finished(&self) -> (r: bool)
        ensures
            r == (self.phase() is Idle && self.index() >= self.pages().len()),
    {
        match self.phase {
            CrawlPhase::Idle => self.index >= self.pages.len(),
            _ => false,
        }
    }

    /// The pages reported, in order.
    pub fn into_reports(self) -> (r: Vec<ParsedNotionPage>)
        ensures
            r@ == self.reports(),
    {
        self.reports
    }
}

} // verus!
