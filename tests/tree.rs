use navi::datatypes::{Block, BlockID, BlockKind, PageID, Timestamp};
use navi::render::{to_prompt_text, ParsedNotionPage};
use navi::tree::{BlockTree, ExpansionStep, TreeExpansion};
use navi::visited::VisitedSet;
use std::collections::HashMap;

fn blk(id: &str, text: &str, has_children: bool) -> Block {
    Block {
        id: BlockID::new(id.to_string()),
        page_id: PageID::new("page".to_string()),
        block_type: BlockKind::Paragraph,
        text: text.to_string(),
        creation_date: Timestamp::from_micros(0),
        update_date: Timestamp::from_micros(0),
        parent: None,
        has_children,
    }
}

fn expand(root: Block, graph: &HashMap<&str, Vec<Block>>, visited: &mut VisitedSet) -> BlockTree {
    let mut x = TreeExpansion::new(root);
    loop {
        match x.step(visited) {
            ExpansionStep::FetchChildren(id, page) => {
                assert_eq!(page.as_str(), "page");
                let kids = graph.get(id.as_str()).cloned().unwrap_or_default();
                x.supply_children(kids, visited);
            }
            ExpansionStep::Continue => {}
            ExpansionStep::Finished => break,
        }
    }
    x.into_tree()
}

fn ids(tree: &BlockTree, of: &[usize]) -> Vec<String> {
    of.iter().map(|&i| tree.block(i).id.as_str().to_string()).collect()
}

fn p7_graph() -> HashMap<&'static str, Vec<Block>> {
    let mut graph = HashMap::new();
    graph.insert(
        "root",
        vec![blk("A", "alpha", false), blk("B", "", true), blk("C", "gamma", true)],
    );
    graph.insert("B", vec![blk("X", "under empty", false)]);
    graph.insert("C", vec![blk("D", "delta", false)]);
    graph
}

#[test]
fn expansion_drops_empty_child_and_its_subtree() {
    let mut visited = VisitedSet::new();
    let tree = expand(blk("root", "root", true), &p7_graph(), &mut visited);
    assert_eq!(tree.len(), 4);
    assert_eq!(tree.root().id.as_str(), "root");
    let top = tree.children(0);
    assert_eq!(ids(&tree, &top), vec!["A", "C"]);
    let under_c = tree.children(top[1]);
    assert_eq!(ids(&tree, &under_c), vec!["D"]);
    assert!(tree.children(top[0]).is_empty());
    assert_eq!(tree.parent(under_c[0]), Some(top[1]));
    assert_eq!(tree.parent(0), None);
    let all: Vec<String> = tree.blocks().iter().map(|n| n.block.id.as_str().to_string()).collect();
    assert!(!all.contains(&"B".to_string()));
    assert!(!all.contains(&"X".to_string()));
}

#[test]
fn cycle_back_to_root_is_dropped() {
    let mut graph = HashMap::new();
    graph.insert("r", vec![blk("a", "a", true)]);
    graph.insert("a", vec![blk("r", "r", true), blk("b", "b", false)]);
    let mut visited = VisitedSet::new();
    let tree = expand(blk("r", "r", true), &graph, &mut visited);
    assert_eq!(tree.len(), 3);
    let a = tree.children(0);
    assert_eq!(ids(&tree, &a), vec!["a"]);
    assert_eq!(ids(&tree, &tree.children(a[0])), vec!["b"]);
}

#[test]
fn expansion_visited_set_spans_roots() {
    let mut graph = HashMap::new();
    graph.insert("r1", vec![blk("shared", "s", false)]);
    graph.insert("r2", vec![blk("shared", "s", false), blk("own", "o", false)]);
    let mut visited = VisitedSet::new();
    let t1 = expand(blk("r1", "one", true), &graph, &mut visited);
    let t2 = expand(blk("r2", "two", true), &graph, &mut visited);
    assert_eq!(t1.len(), 2);
    assert_eq!(ids(&t2, &t2.children(0)), vec!["own"]);
    let mut fresh = VisitedSet::new();
    let t3 = expand(blk("r2", "two", true), &graph, &mut fresh);
    assert_eq!(ids(&t3, &t3.children(0)), vec!["shared", "own"]);
    let mut seeded = VisitedSet::new();
    seeded.insert(&BlockID::new("own".to_string()));
    let t4 = expand(blk("r2", "two", true), &graph, &mut seeded);
    assert_eq!(ids(&t4, &t4.children(0)), vec!["shared"]);
}

#[test]
fn duplicated_root_is_not_expanded_twice() {
    let mut graph = HashMap::new();
    graph.insert("r", vec![blk("a", "a", false)]);
    let mut visited = VisitedSet::new();
    let first = expand(blk("r", "r", true), &graph, &mut visited);
    let second = expand(blk("r", "r", true), &graph, &mut visited);
    assert_eq!(first.len(), 2);
    assert_eq!(second.len(), 1);
}

#[test]
fn tree_renders_in_pre_order_with_indentation() {
    let mut visited = VisitedSet::new();
    let tree = expand(blk("root", "root", true), &p7_graph(), &mut visited);
    assert_eq!(tree.to_markdown(), "root\n  alpha\n  gamma\n    delta\n");
}

#[test]
fn prompt_text_joins_pages_with_blank_line() {
    let mut single = BlockTree::from_root(blk("h", "Plan", false));
    let mut heading = blk("h2", "Notes", false);
    heading.block_type = BlockKind::Heading1;
    let other = BlockTree::from_root(heading);
    single = single.clone();
    let pages = vec![
        ParsedNotionPage {
            page_id: PageID::new("monday".to_string()),
            title: "Monday".to_string(),
            page_content: vec![single, other],
        },
        ParsedNotionPage {
            page_id: PageID::new("tuesday".to_string()),
            title: "Tuesday".to_string(),
            page_content: vec![],
        },
    ];
    assert_eq!(
        to_prompt_text(pages),
        "Page Title: Monday\nPlan\n# Notes\n\n\nPage Title: Tuesday\n"
    );
    assert_eq!(to_prompt_text(vec![]), "");
}
