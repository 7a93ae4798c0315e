use crate::datatypes::{markdown_prefix, Block, PageID};
use crate::tree::{child_indices, BlockTree, TreeNode};
use vstd::prelude::*;
use vstd::string::StringExecFns;

verus! {

/// Two spaces for each level below a tree's root.
pub open spec fn indent(depth: nat) -> Seq<char> {
    Seq::new(2 * depth, |k: int| ' ')
}

/// One rendered line: indentation, the block's markdown, a newline.
pub open spec fn block_line(b: Block, depth: nat) -> Seq<char> {
    indent(depth) + markdown_prefix(b.block_type) + b.text@ + seq!['\n']
}

/// Node `i` and everything beneath it, in pre-order, node `i` at `depth`.
pub open spec fn render_node(nodes: Seq<TreeNode>, i: int, depth: nat) -> Seq<char>
    decreases nodes.len() - i + 1, 0int,
{
    if 0 <= i < nodes.len() {
        block_line(nodes[i].block, depth) + render_children(
            nodes,
            i,
            child_indices(nodes, i).len() as int,
            depth + 1,
        )
    } else {
        Seq::empty()
    }
}

/// The first `k` children of node `i` rendered one after another at `depth`.
/// A child index not after `i`, or past the end, renders as nothing; a
/// well-formed tree holds neither.
pub open spec fn render_children(nodes: Seq<TreeNode>, i: int, k: int, depth: nat) -> Seq<char>
    decreases nodes.len() - i, k + 1,
{
    let kids = child_indices(nodes, i);
    if 0 <= i < nodes.len() && 0 < k <= kids.len() {
        let c = kids[k - 1];
        render_children(nodes, i, k - 1, depth) + if i < c < nodes.len() {
            render_node(nodes, c, depth)
        } else {
            Seq::empty()
        }
    } else {
        Seq::empty()
    }
}

/// A tree rendered as markdown, one line per node in pre-order.
pub open spec fn tree_text(t: BlockTree) -> Seq<char> {
    render_node(t.nodes(), 0, 0)
}

/// Appends node `i` and everything beneath it, rendered at `depth`.
fn render_into(tree: &BlockTree, i: usize, depth: usize, out: &mut String)
    requires
        i < tree.nodes().len(),
        depth <= i,
    ensures
        final(out)@ == old(out)@ + render_node(tree.nodes(), i as int, depth as nat),
    decreases tree.nodes().len() - i,
{
    let ghost nodes = tree.nodes();
    let ghost start = out@;
    let mut d: usize = 0;
    while d < depth
        invariant
            d <= depth,
            out@ == start + indent(d as nat),
        decreases depth - d,
    {
        proof {
            reveal_strlit("  ");
        }
        out.append("  ");
        d = d + 1;
        assert(out@ =~= start + indent(d as nat));
    }
    let block = tree.block(i);
    let md = block.to_markdown();
    out.append(md.as_str());
    proof {
        reveal_strlit("\n");
    }
    out.append("\n");
    assert(out@ =~= start + block_line(nodes[i as int].block, depth as nat));
    let kids = tree.children(i);
    let ghost line_end = out@;
    let mut k: usize = 0;
    while k < kids.len()
        invariant
            nodes == tree.nodes(),
            i < nodes.len(),
            depth <= i,
            k <= kids@.len(),
            kids@.map_values(|x: usize| x as int) == child_indices(nodes, i as int),
            out@ == line_end + render_children(nodes, i as int, k as int, (depth + 1) as nat),
        decreases kids@.len() - k,
    {
        let c = kids[k];
        assert(child_indices(nodes, i as int)[k as int] == c as int);
        if i < c && c < tree.len() {
            render_into(tree, c, depth + 1, out);
        }
        k = k + 1;
        assert(out@ =~= line_end + render_children(nodes, i as int, k as int, (depth + 1) as nat));
    }
    assert(out@ =~= start + render_node(nodes, i as int, depth as nat));
}

impl BlockTree {
    /// The tree as markdown: one line per node in pre-order, each indented by
    /// two spaces per level below the root and ended by a newline.
    pub fn to_markdown(&self) -> (r: String)
        ensures
            r@ == tree_text(*self),
    {
        let mut out = String::new();
        if self.len() > 0 {
            render_into(self, 0, 0, &mut out);
        }
        assert(out@ =~= tree_text(*self));
        out
    }
}

/// A page whose content changed, with the trees of its changed blocks.
#[derive(Debug, Clone)]
pub struct ParsedNotionPage {
    pub page_id: PageID,
    pub title: String,
    pub page_content: Vec<BlockTree>,
}

/// One page rendered for the prompt: its title line, then its trees.
pub open spec fn page_text(title: Seq<char>, trees: Seq<BlockTree>) -> Seq<char>
    decreases trees.len(),
{
    if trees.len() == 0 {
        "Page Title: "@ + title + seq!['\n']
    } else {
        page_text(title, trees.drop_last()) + tree_text(trees.last())
    }
}

/// The pages rendered one after another, separated by a blank line.
pub open spec fn prompt_text(pages: Seq<ParsedNotionPage>) -> Seq<char>
    decreases pages.len(),
{
    if pages.len() == 0 {
        Seq::empty()
    } else if pages.len() == 1 {
        page_text(pages[0].title@, pages[0].page_content@)
    } else {
        prompt_text(pages.drop_last()) + "\n\n"@ + page_text(
            pages.last().title@,
            pages.last().page_content@,
        )
    }
}

/// Renders one page: the line `Page Title: <title>`, then each tree.
pub fn page_to_text(page: &ParsedNotionPage) -> (r: String)
    ensures
        r@ == page_text(page.title@, page.page_content@),
{
    let mut out = String::from_str("Page Title: ");
    out.append(page.title.as_str());
    proof {
        reveal_strlit("\n");
    }
    out.append("\n");
    let mut i: usize = 0;
    assert(page.page_content@.subrange(0, 0) =~= Seq::<BlockTree>::empty());
    while i < page.page_content.len()
        invariant
            i <= page.page_content@.len(),
            out@ == page_text(page.title@, page.page_content@.subrange(0, i as int)),
        decreases page.page_content@.len() - i,
    {
        let md = page.page_content[i].to_markdown();
        out.append(md.as_str());
        let ghost before = page.page_content@.subrange(0, i as int);
        i = i + 1;
        assert(page.page_content@.subrange(0, i as int).drop_last() =~= before);
    }
    assert(page.page_content@.subrange(0, i as int) =~= page.page_content@);
    out
}

/// The text handed to the chat session: every page rendered, separated by a
/// blank line.
pub fn to_prompt_text(notion_pages: Vec<ParsedNotionPage>) -> (r: String)
    ensures
        r@ == prompt_text(notion_pages@),
{
    let mut out = String::new();
    let mut i: usize = 0;
    while i < notion_pages.len()
        invariant
            i <= notion_pages@.len(),
            out@ == prompt_text(notion_pages@.subrange(0, i as int)),
        decreases notion_pages@.len() - i,
    {
        let ghost before = notion_pages@.subrange(0, i as int);
        if i > 0 {
            proof {
                reveal_strlit("\n\n");
            }
            out.append("\n\n");
        }
        let text = page_to_text(&notion_pages[i]);
        out.append(text.as_str());
        i = i + 1;
        assert(notion_pages@.subrange(0, i as int).drop_last() =~= before);
    }
    assert(notion_pages@.subrange(0, i as int) =~= notion_pages@);
    out
}

} // verus!
