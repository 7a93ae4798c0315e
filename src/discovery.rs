use crate::datatypes::{PageRecord, Timestamp};
use vstd::prelude::*;

verus! {

/// How many results one search request asks for.
pub const SEARCH_PAGE_SIZE: u32 = 100;

/// One result of the workspace search. Only pages are crawled; databases
/// and other kinds of container are left out.
#[derive(Debug, Clone)]
pub enum SearchResult {
    Page(PageRecord),
    Other,
}

/// The page records among `results`, in order.
pub open spec fn pages_of(results: Seq<SearchResult>) -> Seq<PageRecord>
    decreases results.len(),
{
    if results.len() == 0 {
        Seq::empty()
    } else {
        let earlier = pages_of(results.drop_last());
        match results.last() {
            SearchResult::Page(p) => earlier.push(p),
            SearchResult::Other => earlier,
        }
    }
}

/// Whether `page` was last edited strictly before `cutoff`.
pub open spec fn edited_before(page: PageRecord, cutoff: int) -> bool {
    page.last_edited_time.micros < cutoff
}

/// Finds the pages edited at or after a cutoff, by reading a search sorted by
/// last edit, newest first, one batch at a time.
///
/// Each batch is cut at its first page edited before the cutoff; the search
/// stops there, or when the server reports no more batches.
pub struct PageDiscovery {
    cutoff: Timestamp,
    cursor: Option<String>,
    finished: bool,
}

impl PageDiscovery {
    pub closed spec fn cutoff(&self) -> int {
        self.cutoff.micros as int
    }

    /// The cursor that the next request starts from.
    pub closed spec fn cursor(&self) -> Option<String> {
        self.cursor
    }

    pub closed spec fn finished(&self) -> bool {
        self.finished
    }

    /// A search for pages edited at or after `cutoff`, from the first batch.
    pub fn new(cutoff: Timestamp) -> (r: PageDiscovery)
        ensures
            r.cutoff() == cutoff.micros,
            r.cursor() is None,
            !r.finished(),
    {
        PageDiscovery { cutoff, cursor: None, finished: false }
    }

    /// The cursor of the next request, or `None` once the search is over. The
    /// inner `None` asks for the first batch.
    pub fn next_request(&self) -> (r: Option<Option<String>>)
        ensures
            r == if self.finished() {
                None
            } else {
                Some(self.cursor())
            },
    {
        if self.finished {
            None
        } else {
            match &self.cursor {
                Some(c) => Some(Some(c.clone())),
                None => Some(None),
            }
        }
    }

    /// Takes in one batch of results, whether more batches follow, and the
    /// cursor that the server gave for the next one. Returns the pages of the
    /// batch up to, not including, the first one edited before the cutoff.
    pub fn on_results(
        &mut self,
        results: Vec<SearchResult>,
        has_more: bool,
        next_cursor: Option<String>,
    ) -> (kept: Vec<PageRecord>)
        ensures
            ({
                let pages = pages_of(results@);
                &&& kept@.len() <= pages.len()
                &&& kept@ == pages.subrange(0, kept@.len() as int)
                &&& forall|j: int|
                    0 <= j < kept@.len() ==> !edited_before(
                        #[trigger] kept@[j],
                        old(self).cutoff(),
                    )
                &&& kept@.len() < pages.len() ==> edited_before(
                    pages[kept@.len() as int],
                    old(self).cutoff(),
                )
                &&& final(self).finished() == (!has_more || kept@.len() < pages.len())
            }),
            final(self).cursor() == next_cursor,
            final(self).cutoff() == old(self).cutoff(),
    {
        let mut pages: Vec<PageRecord> = Vec::new();
        let mut i: usize = 0;
        while i < results.len()
            invariant
                i <= results@.len(),
                pages@ == pages_of(results@.subrange(0, i as int)),
            decreases results@.len() - i,
        {
            let ghost before = results@.subrange(0, i as int);
            assert(results@.subrange(0, i + 1).drop_last() =~= before);
            match &results[i] {
                SearchResult::Page(p) => pages.push(p.duplicate()),
                SearchResult::Other => {},
            }
            i = i + 1;
        }
        assert(results@.subrange(0, results@.len() as int) =~= results@);
        let mut kept: Vec<PageRecord> = Vec::new();
        let mut cut = false;
        let mut j: usize = 0;
        while j < pages.len()
            invariant_except_break
                !cut,
            invariant
                j <= pages@.len(),
                kept@ == pages@.subrange(0, j as int),
                forall|k: int| 0 <= k < j ==> !edited_before(#[trigger] pages@[k], self.cutoff()),
            ensures
                cut ==> j < pages@.len() && edited_before(pages@[j as int], self.cutoff()),
                !cut ==> j == pages@.len(),
            decreases pages@.len() - j,
        {
            if pages[j].last_edited_time.micros < self.cutoff.micros {
                cut = true;
                break;
            }
            kept.push(pages[j].duplicate());
            j = j + 1;
            assert(kept@ =~= pages@.subrange(0, j as int));
        }
        self.finished = !has_more || cut;
        self.cursor = next_cursor;
        kept
    }

    /// Whether the search is over.
    pub fn is_finished(&self) -> (r: bool)
        ensures
            r == self.finished(),
    {
        self.finished
    }
}

} // verus!
