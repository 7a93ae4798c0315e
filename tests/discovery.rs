use navi::datatypes::{Block, BlockID, BlockKind, PageID, PageRecord, Timestamp};
use navi::discovery::{PageDiscovery, SearchResult};
use navi::fetcher::ChildPager;

const HOUR: i64 = 3_600_000_000;

fn record(id: &str, edited: i64) -> PageRecord {
    PageRecord {
        id: id.to_string(),
        url: format!("https://www.notion.so/{}-0123", id),
        created_time: Timestamp::from_micros(0),
        last_edited_time: Timestamp::from_micros(edited),
    }
}

fn blk(id: &str) -> Block {
    Block {
        id: BlockID::new(id.to_string()),
        page_id: PageID::new("p".to_string()),
        block_type: BlockKind::Paragraph,
        text: id.to_string(),
        creation_date: Timestamp::from_micros(0),
        update_date: Timestamp::from_micros(0),
        parent: None,
        has_children: false,
    }
}

#[test]
fn discovery_keeps_only_pages_at_or_after_cutoff() {
    let mut d = PageDiscovery::new(Timestamp::from_micros(9 * HOUR + HOUR / 2));
    assert_eq!(d.next_request(), Some(None));
    let kept = d.on_results(
        vec![
            SearchResult::Page(record("ten", 10 * HOUR)),
            SearchResult::Page(record("nine", 9 * HOUR)),
            SearchResult::Page(record("eight", 8 * HOUR)),
        ],
        true,
        Some("next".to_string()),
    );
    assert_eq!(kept.len(), 1);
    assert_eq!(kept[0].id, "ten");
    assert!(d.is_finished());
    assert_eq!(d.next_request(), None);
}

#[test]
fn discovery_follows_cursor_until_no_more() {
    let mut d = PageDiscovery::new(Timestamp::from_micros(0));
    let kept = d.on_results(
        vec![SearchResult::Page(record("a", 5)), SearchResult::Other, SearchResult::Page(record("b", 4))],
        true,
        Some("c1".to_string()),
    );
    assert_eq!(kept.iter().map(|p| p.id.as_str()).collect::<Vec<_>>(), vec!["a", "b"]);
    assert!(!d.is_finished());
    assert_eq!(d.next_request(), Some(Some("c1".to_string())));
    let kept = d.on_results(vec![SearchResult::Page(record("c", 3))], false, None);
    assert_eq!(kept.len(), 1);
    assert!(d.is_finished());
    assert_eq!(d.next_request(), None);
}

#[test]
fn discovery_page_at_cutoff_is_kept() {
    let mut d = PageDiscovery::new(Timestamp::from_micros(100));
    let kept = d.on_results(
        vec![SearchResult::Page(record("at", 100)), SearchResult::Page(record("before", 99))],
        true,
        None,
    );
    assert_eq!(kept.len(), 1);
    assert_eq!(kept[0].id, "at");
    assert!(d.is_finished());
}

#[test]
fn discovery_empty_batch() {
    let mut d = PageDiscovery::new(Timestamp::from_micros(100));
    assert!(d.on_results(vec![], false, None).is_empty());
    assert!(d.is_finished());
}

#[test]
fn child_pager_collects_all_pages_in_order() {
    let mut pager = ChildPager::new(BlockID::new("b".to_string()), PageID::new("p".to_string()));
    assert_eq!(pager.block_id().as_str(), "b");
    assert_eq!(pager.page_id().as_str(), "p");
    assert_eq!(pager.next_request(), Some(None));
    pager.on_page(vec![blk("1"), blk("2")], true, Some("cur".to_string()));
    assert!(!pager.is_finished());
    assert_eq!(pager.next_request(), Some(Some("cur".to_string())));
    pager.on_page(vec![blk("3")], false, None);
    assert!(pager.is_finished());
    assert_eq!(pager.next_request(), None);
    let ids: Vec<String> = pager.into_children().iter().map(|b| b.id.as_str().to_string()).collect();
    assert_eq!(ids, vec!["1", "2", "3"]);
}
