use navi::datatypes::{Block, BlockID, BlockKind, Page, PageID, Timestamp};
use navi::locator::{LocatorStep, RootLocator, ROOT_SEARCH_BUDGET_MICROS};
use navi::visited::VisitedSet;
use std::collections::HashMap;

fn blk(id: &str, text: &str, updated: i64, has_children: bool) -> Block {
    Block {
        id: BlockID::new(id.to_string()),
        page_id: PageID::new("page".to_string()),
        block_type: BlockKind::Paragraph,
        text: text.to_string(),
        creation_date: Timestamp::from_micros(0),
        update_date: Timestamp::from_micros(updated),
        parent: None,
        has_children,
    }
}

fn page(children: Vec<Block>) -> Page {
    Page {
        id: PageID::new("page".to_string()),
        title: "Page".to_string(),
        url: "https://example.com/Page-1".to_string(),
        creation_date: Timestamp::from_micros(0),
        update_date: Timestamp::from_micros(0),
        child_blocks: children,
    }
}

/// Runs the search with a clock that never moves; returns the root ids and
/// the ids whose children were requested.
fn run(
    p: &Page,
    graph: &HashMap<&str, Vec<Block>>,
    cutoff: i64,
    visited: &mut VisitedSet,
) -> (Vec<String>, Vec<String>) {
    let now = Timestamp::from_micros(0);
    let mut loc = RootLocator::new(p, Timestamp::from_micros(cutoff), now, visited);
    let mut fetched = Vec::new();
    loop {
        match loc.step(visited, now) {
            LocatorStep::FetchChildren(id) => {
                fetched.push(id.as_str().to_string());
                let kids = graph.get(id.as_str()).cloned().unwrap_or_default();
                loc.supply_children(kids);
            }
            LocatorStep::Continue => {}
            LocatorStep::Finished => break,
        }
    }
    assert!(!loc.was_truncated());
    let roots = loc.into_roots().iter().map(|b| b.id.as_str().to_string()).collect();
    (roots, fetched)
}

#[test]
fn roots_are_shallowest_recent_non_empty_blocks() {
    let p = page(vec![
        blk("a", "old parent", 10, true),
        blk("b", "recent with children", 100, true),
        blk("e", "  ", 100, false),
    ]);
    let mut graph = HashMap::new();
    graph.insert("a", vec![blk("c", "recent child", 200, false)]);
    graph.insert("b", vec![blk("hidden", "never reached", 300, false)]);
    let mut visited = VisitedSet::new();
    let (roots, fetched) = run(&p, &graph, 50, &mut visited);
    assert_eq!(roots, vec!["b", "c"]);
    assert_eq!(fetched, vec!["a"]);
    assert_eq!(visited.len(), 4);
}

#[test]
fn recent_block_is_a_root_whatever_its_children_flag() {
    let p = page(vec![blk("x", "leaf", 100, false), blk("y", "parent", 100, true)]);
    let mut visited = VisitedSet::new();
    let (roots, fetched) = run(&p, &HashMap::new(), 100, &mut visited);
    assert_eq!(roots, vec!["x", "y"]);
    assert!(fetched.is_empty());
}

#[test]
fn cycle_is_walked_once() {
    let p = page(vec![blk("a", "a", 0, true)]);
    let mut graph = HashMap::new();
    graph.insert("a", vec![blk("b", "b", 0, true)]);
    graph.insert("b", vec![blk("a", "a", 0, true), blk("c", "fresh", 9, false)]);
    let mut visited = VisitedSet::new();
    let (roots, fetched) = run(&p, &graph, 5, &mut visited);
    assert_eq!(roots, vec!["c"]);
    assert_eq!(fetched, vec!["a", "b"]);
}

#[test]
fn visited_set_is_shared_across_pages() {
    let first = page(vec![blk("shared", "text", 100, false)]);
    let second = page(vec![blk("shared", "text", 100, false), blk("own", "text", 100, false)]);
    let mut visited = VisitedSet::new();
    let (roots1, _) = run(&first, &HashMap::new(), 50, &mut visited);
    let (roots2, _) = run(&second, &HashMap::new(), 50, &mut visited);
    assert_eq!(roots1, vec!["shared"]);
    assert_eq!(roots2, vec!["own"]);
}

#[test]
fn deadline_stops_with_roots_so_far() {
    let p = page(vec![blk("r1", "one", 100, false), blk("r2", "two", 100, false)]);
    let start = Timestamp::from_micros(1_000);
    let mut visited = VisitedSet::new();
    let mut loc = RootLocator::new(&p, Timestamp::from_micros(50), start, &visited);
    assert!(matches!(loc.step(&mut visited, start), LocatorStep::Continue));
    let late = Timestamp::from_micros(1_000 + ROOT_SEARCH_BUDGET_MICROS + 1);
    assert!(matches!(loc.step(&mut visited, late), LocatorStep::Finished));
    assert!(loc.is_finished());
    assert!(loc.was_truncated());
    assert_eq!(loc.pending(), 1);
    let roots = loc.into_roots();
    assert_eq!(roots.len(), 1);
    assert_eq!(roots[0].id.as_str(), "r1");
}

#[test]
fn no_fetch_is_asked_after_the_deadline() {
    let p = page(vec![blk("old", "old", 0, true)]);
    let mut visited = VisitedSet::new();
    let mut loc = RootLocator::new(&p, Timestamp::from_micros(50), Timestamp::from_micros(0), &visited);
    let late = Timestamp::from_micros(ROOT_SEARCH_BUDGET_MICROS + 1);
    assert!(matches!(loc.step(&mut visited, late), LocatorStep::Finished));
    assert_eq!(visited.len(), 0);
    assert!(loc.into_roots().is_empty());
}

#[test]
fn deadline_exactly_reached_still_processes() {
    let p = page(vec![blk("old", "old", 0, true)]);
    let mut visited = VisitedSet::new();
    let mut loc = RootLocator::new(&p, Timestamp::from_micros(50), Timestamp::from_micros(0), &visited);
    let edge = Timestamp::from_micros(ROOT_SEARCH_BUDGET_MICROS);
    match loc.step(&mut visited, edge) {
        LocatorStep::FetchChildren(id) => assert_eq!(id.as_str(), "old"),
        other => panic!("unexpected {:?}", other),
    }
}

#[test]
fn deadline_saturates_at_the_last_instant() {
    let p = page(vec![blk("r", "text", 100, false)]);
    let mut visited = VisitedSet::new();
    let mut loc = RootLocator::new(&p, Timestamp::from_micros(0), Timestamp::from_micros(i64::MAX - 5), &visited);
    assert!(matches!(
        loc.step(&mut visited, Timestamp::from_micros(i64::MAX)),
        LocatorStep::Continue
    ));
}

#[test]
fn empty_page_finishes_at_once() {
    let p = page(vec![]);
    let mut visited = VisitedSet::new();
    let (roots, fetched) = run(&p, &HashMap::new(), 0, &mut visited);
    assert!(roots.is_empty());
    assert!(fetched.is_empty());
}

#[test]
fn visited_set_membership() {
    let mut v = VisitedSet::new();
    let a = BlockID::new("a".to_string());
    assert!(!v.contains(&a));
    assert!(v.insert(&a));
    assert!(v.contains(&a));
    assert!(!v.insert(&a));
    assert_eq!(v.len(), 1);
}
