use navi::datatypes::{
    title_of_url, Block, BlockID, BlockKind, BlockParent, Page, PageID, PageRecord, Timestamp,
};

fn block(id: &str, kind: BlockKind, text: &str) -> Block {
    Block {
        id: BlockID::new(id.to_string()),
        page_id: PageID::new("7b1b3b0c-14cb-45a6-a4b6-d2b48faecccb".to_string()),
        block_type: kind,
        text: text.to_string(),
        creation_date: Timestamp::from_micros(0),
        update_date: Timestamp::from_micros(0),
        parent: None,
        has_children: false,
    }
}

#[test]
fn test_block_to_markdown() {
    let blocks = vec![
        block("1", BlockKind::Heading1, "Heading 1"),
        block("2", BlockKind::Heading2, "Heading 2"),
        block("3", BlockKind::BulletedListItem, "Bullet point"),
        block("4", BlockKind::Paragraph, "Normal text"),
    ];

    let expected_markdown = "# Heading 1\n## Heading 2\n- Bullet point\nNormal text";
    let result_markdown = blocks
        .iter()
        .map(|block| block.to_markdown())
        .collect::<Vec<String>>()
        .join("\n");

    assert_eq!(result_markdown, expected_markdown);
}

#[test]
fn markdown_prefixes_of_other_kinds() {
    assert_eq!(block("a", BlockKind::Heading3, "t").to_markdown(), "### t");
    assert_eq!(block("a", BlockKind::NumberedListItem, "t").to_markdown(), "1. t");
    assert_eq!(block("a", BlockKind::ToDo, "t").to_markdown(), "- [ ] t");
    assert_eq!(block("a", BlockKind::Toggle, "t").to_markdown(), "> t");
    assert_eq!(block("a", BlockKind::Quote, "t").to_markdown(), "t");
}

#[test]
fn emptiness_ignores_white_space() {
    assert!(block("a", BlockKind::Paragraph, "").is_empty());
    assert!(block("a", BlockKind::Paragraph, "  \t\n").is_empty());
    assert!(block("a", BlockKind::Paragraph, "\u{a0}\u{3000}").is_empty());
    assert!(!block("a", BlockKind::Paragraph, " x ").is_empty());
}

#[test]
fn ids_compare_by_text() {
    assert_eq!(BlockID::new("x".to_string()), BlockID::new("x".to_string()));
    assert_ne!(BlockID::new("x".to_string()), BlockID::new("y".to_string()));
    assert_eq!(PageID::new("p".to_string()).as_str(), "p");
}

#[test]
fn block_from_remote_joins_spans_with_spaces() {
    let b = Block::from_remote(
        Some("b1".to_string()),
        PageID::new("p".to_string()),
        BlockKind::ToDo,
        vec![Some("buy".to_string()), None, Some("milk".to_string())],
        None,
        Some(Timestamp::from_micros(42)),
        Some(BlockParent::Page("p".to_string())),
        None,
    );
    assert_eq!(b.id.as_str(), "b1");
    assert_eq!(b.text, "buy  milk");
    assert_eq!(b.creation_date, Timestamp::from_micros(0));
    assert_eq!(b.update_date, Timestamp::from_micros(42));
    assert!(!b.has_children);
    assert_eq!(b.parent, Some(BlockParent::Page("p".to_string())));

    let missing = Block::from_remote(
        None,
        PageID::new("p".to_string()),
        BlockKind::Unknown,
        vec![],
        None,
        None,
        None,
        Some(true),
    );
    assert_eq!(missing.id.as_str(), "");
    assert_eq!(missing.text, "");
    assert!(missing.has_children);
}

#[test]
fn title_drops_the_id_suffix() {
    assert_eq!(
        title_of_url("https://www.notion.so/August-19-2024-651d530e07a14f9c97b4084614c5049b"),
        "August 19 2024"
    );
    assert_eq!(title_of_url("https://www.notion.so/651d530e07a14f9c97b4084614c5049b"), "");
    assert_eq!(title_of_url("no-slash-here"), "Unknown Page Title");
}

#[test]
fn host_only_url_gets_placeholder_title() {
    assert_eq!(title_of_url("http://ab"), "Unknown Page Title");
    assert_eq!(title_of_url("https://my-site.com"), "Unknown Page Title");
    assert_eq!(title_of_url("https://my-site.com/"), "Unknown Page Title");
    assert_eq!(title_of_url("https://my-site.com/Road-Map-42"), "Road Map");
    assert_eq!(title_of_url("https://my-site.com/notes/Road-Map-42"), "Road Map");
}

#[test]
fn page_from_record_reads_title_off_url() {
    let record = PageRecord {
        id: "pid".to_string(),
        url: "https://www.notion.so/Weekly-Notes-abc123".to_string(),
        created_time: Timestamp::from_micros(1),
        last_edited_time: Timestamp::from_micros(2),
    };
    let page: Page = Page::from_record(record, vec![block("c", BlockKind::Paragraph, "x")]);
    assert_eq!(page.id, PageID::new("pid".to_string()));
    assert_eq!(page.title, "Weekly Notes");
    assert_eq!(page.update_date, Timestamp::from_micros(2));
    assert_eq!(page.child_blocks.len(), 1);
}

#[test]
fn blocks_are_equal_when_ids_are() {
    let a = block("same", BlockKind::Paragraph, "one");
    let mut b = block("same", BlockKind::Heading1, "two");
    b.has_children = true;
    assert_eq!(a, b);
    assert_ne!(a, block("other", BlockKind::Paragraph, "one"));
}
