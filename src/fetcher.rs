use crate::datatypes::{Block, BlockID, PageID};
use vstd::prelude::*;

verus! {

/// How many children one request for a block's children asks for.
pub const CHILDREN_PAGE_SIZE: u32 = 100;

/// Collects the immediate children of one block across the pages of a
/// paginated listing, following the cursor until the server reports that no
/// more pages remain.
pub struct ChildPager {
    block_id: BlockID,
    page_id: PageID,
    children: Vec<Block>,
    cursor: Option<String>,
    finished: bool,
}

impl ChildPager {
    pub closed spec fn listed_block(&self) -> BlockID {
        self.block_id
    }

    pub closed spec fn owning_page(&self) -> PageID {
        self.page_id
    }

    /// The children collected so far, in server order.
    pub closed spec fn children(&self) -> Seq<Block> {
        self.children@
    }

    /// The cursor that the next request starts from.
    pub closed spec fn cursor(&self) -> Option<String> {
        self.cursor
    }

    pub closed spec fn finished(&self) -> bool {
        self.finished
    }

    /// A listing of the children of `block_id`, which belongs to `page_id`,
    /// that starts at the first page.
    pub fn new(block_id: BlockID, page_id: PageID) -> (r: ChildPager)
        ensures
            r.listed_block() == block_id,
            r.owning_page() == page_id,
            r.children() == Seq::<Block>::empty(),
            r.cursor() is None,
            !r.finished(),
    {
        ChildPager { block_id, page_id, children: Vec::new(), cursor: None, finished: false }
    }

    /// The block whose children are listed.
    pub fn block_id(&self) -> (r: &BlockID)
        ensures
            *r == self.listed_block(),
    {
        &self.block_id
    }

    /// The page that the listed block belongs to.
    pub fn page_id(&self) -> (r: &PageID)
        ensures
            *r == self.owning_page(),
    {
        &self.page_id
    }

    /// The cursor of the next request, or `None` once every page was read.
    /// The inner `None` asks for the first page.
    pub fn next_request(&self) -> (r: Option<Option<String>>)
        ensures
            r == if self.finished() {
                None
            } else {
                Some(self.cursor())
            },
    {
        if self.finished {
            None
        } else {
            match &self.cursor {
                Some(c) => Some(Some(c.clone())),
                None => Some(None),
            }
        }
    }

    /// Takes in one page of the listing: its blocks, whether more pages
    /// follow, and the cursor that the server gave for the next one.
    pub fn on_page(&mut self, batch: Vec<Block>, has_more: bool, next_cursor: Option<String>)
        ensures
            final(self).children() == old(self).children() + batch@,
            final(self).finished() == !has_more,
            final(self).cursor() == next_cursor,
            final(self).listed_block() == old(self).listed_block(),
            final(self).owning_page() == old(self).owning_page(),
    {
        let mut batch = batch;
        self.children.append(&mut batch);
        self.finished = !has_more;
        self.cursor = next_cursor;
    }

    /// Whether every page was read.
    pub fn is_finished(&self) -> (r: bool)
        ensures
            r == self.finished(),
    {
        self.finished
    }

    /// The children collected, in server order.
    pub fn into_children(self) -> (r: Vec<Block>)
        ensures
            r@ == self.children(),
    {
        self.children
    }
}

} // verus!
