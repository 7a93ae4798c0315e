use navi::crawl::{CrawlAction, CrawlSession};
use navi::datatypes::{Block, BlockID, BlockKind, Page, PageID, Timestamp};
use navi::snapshot::{Link, Workspace};
use navi::visited::VisitedSet;

fn blk(id: &str, text: &str, updated: i64, has_children: bool) -> Block {
    Block {
        id: BlockID::new(id.to_string()),
        page_id: PageID::new("page".to_string()),
        block_type: BlockKind::Paragraph,
        text: text.to_string(),
        creation_date: Timestamp::from_micros(0),
        update_date: Timestamp::from_micros(updated),
        parent: None,
        has_children,
    }
}

fn link(parent: &str, child: Block) -> Link {
    Link { parent: BlockID::new(parent.to_string()), child }
}

fn workspace() -> Workspace {
    Workspace {
        links: vec![
            link("a", blk("b", "b", 0, true)),
            link("b", blk("a", "a", 0, true)),
            link("b", blk("new", "fresh text", 50, true)),
            link("new", blk("deep", "deep", 60, false)),
            link("new", blk("blank", " ", 60, true)),
            link("blank", blk("lost", "lost", 60, false)),
        ],
    }
}

fn page() -> Page {
    Page {
        id: PageID::new("page".to_string()),
        title: "P".to_string(),
        url: "https://example.com/P-1".to_string(),
        creation_date: Timestamp::from_micros(0),
        update_date: Timestamp::from_micros(0),
        child_blocks: vec![blk("a", "a", 0, true)],
    }
}

#[test]
fn snapshot_crawl_terminates_on_cycle() {
    let ws = workspace();
    let mut visited = VisitedSet::new();
    let roots = ws.locate_roots(&page(), Timestamp::from_micros(10), &mut visited);
    assert_eq!(roots.len(), 1);
    assert_eq!(roots[0].id.as_str(), "new");
    assert_eq!(visited.len(), 3);

    let mut expanded = VisitedSet::new();
    let trees = ws.expand_roots(roots, &mut expanded);
    assert_eq!(trees.len(), 1);
    assert_eq!(trees[0].len(), 2);
    assert_eq!(trees[0].to_markdown(), "fresh text\n  deep\n");
}

#[test]
fn snapshot_crawl_is_repeatable() {
    let ws = workspace();
    let run = || {
        let mut visited = VisitedSet::new();
        ws.locate_roots(&page(), Timestamp::from_micros(10), &mut visited)
            .iter()
            .map(|b| b.id.as_str().to_string())
            .collect::<Vec<_>>()
    };
    assert_eq!(run(), run());
}

#[test]
fn snapshot_children_in_list_order() {
    let ws = workspace();
    let kids = ws.children_of(&BlockID::new("b".to_string()));
    let ids: Vec<&str> = kids.iter().map(|b| b.id.as_str()).collect();
    assert_eq!(ids, vec!["a", "new"]);
    assert!(ws.children_of(&BlockID::new("none".to_string())).is_empty());
}

fn titled(id: &str, title: &str, children: Vec<Block>) -> Page {
    Page {
        id: PageID::new(id.to_string()),
        title: title.to_string(),
        url: format!("https://example.com/{}-1", id),
        creation_date: Timestamp::from_micros(0),
        update_date: Timestamp::from_micros(0),
        child_blocks: children,
    }
}

fn crawl_pages() -> Vec<Page> {
    vec![
        titled("weekly", "Weekly", vec![blk("a", "a", 0, true)]),
        titled("draft", "Draft notes", vec![blk("d", "draft text", 99, false)]),
        titled("quiet", "Quiet", vec![blk("q", "old", 0, false)]),
        titled("shared", "Shared", vec![blk("a", "a", 0, true)]),
    ]
}

fn summary(parsed: &[navi::render::ParsedNotionPage]) -> Vec<(String, String, Vec<String>)> {
    parsed
        .iter()
        .map(|p| {
            (
                p.page_id.as_str().to_string(),
                p.title.clone(),
                p.page_content.iter().map(|t| t.to_markdown()).collect(),
            )
        })
        .collect()
}

#[test]
fn snapshot_crawl_reports_changed_pages_only() {
    let mut config = navi::config::Config::default();
    config.exclusions.page_patterns.push("^Draft".to_string());
    let parsed = workspace().crawl(&crawl_pages(), Timestamp::from_micros(10), &config);
    assert_eq!(
        summary(&parsed),
        vec![(
            "weekly".to_string(),
            "Weekly".to_string(),
            vec!["fresh text\n  deep\n".to_string()]
        )]
    );
}

#[test]
fn snapshot_whole_crawl_is_repeatable() {
    let config = navi::config::Config::default();
    let ws = workspace();
    let first = ws.crawl(&crawl_pages(), Timestamp::from_micros(10), &config);
    let second = ws.crawl(&crawl_pages(), Timestamp::from_micros(10), &config);
    assert_eq!(summary(&first), summary(&second));
    assert_eq!(first.len(), 2);
    assert_eq!(first[1].page_id.as_str(), "draft");
}

#[test]
fn crawl_session_matches_snapshot_crawl() {
    let mut config = navi::config::Config::default();
    config.exclusions.page_patterns.push("^Draft".to_string());
    let ws = workspace();
    let expected = ws.crawl(&crawl_pages(), Timestamp::from_micros(10), &config);

    let mut session = CrawlSession::new(crawl_pages(), Timestamp::from_micros(10), config);
    let mut fetched = Vec::new();
    loop {
        match session.step(Timestamp::from_micros(0)) {
            CrawlAction::FetchChildren(id, _page) => {
                fetched.push(id.as_str().to_string());
                let kids = ws.children_of(&id);
                session.supply_children(kids);
            }
            CrawlAction::Continue => {}
            CrawlAction::Finished => break,
        }
    }
    assert!(session.is_finished());
    let reports = session.into_reports();
    assert_eq!(summary(&reports), summary(&expected));
    assert_eq!(fetched, vec!["a", "b", "new"]);
}

#[test]
fn crawl_session_with_no_pages_finishes() {
    let mut session =
        CrawlSession::new(vec![], Timestamp::from_micros(0), navi::config::Config::default());
    assert!(matches!(session.step(Timestamp::from_micros(0)), CrawlAction::Finished));
    assert!(session.into_reports().is_empty());
}
