use vectorless::node::PageNode;
use vectorless::pdf::Page;
use vectorless::toc::TocEntry;
use vectorless::tree_builder::{
    collect_nodes_in_page_range, extract_page_number, extract_page_range,
    extract_page_range_with_boundaries, find_node_for_page, get_path_to_node,
    validate_page_boundaries, TreeBuilder, ValidationError,
};

#[test]
fn test_extract_page_number() {
    let physical = "<physical_index_5>";
    assert_eq!(extract_page_number(physical), Some(5));
}

#[test]
fn test_extract_page_number_invalid() {
    let physical = "<physical_index_abc>";
    assert_eq!(extract_page_number(physical), None);
}

#[test]
fn test_extract_page_number_none() {
    let physical = "no index here";
    assert_eq!(extract_page_number(physical), None);
}

#[test]
fn test_extract_page_range() {
    let pages = vec![
        Page::new(1, "Page 1 content".to_string()),
        Page::new(2, "Page 2 content".to_string()),
        Page::new(3, "Page 3 content".to_string()),
    ];

    let result = extract_page_range(&pages, 1, 2);
    assert!(result.contains("Page 1 content"));
    assert!(result.contains("Page 2 content"));
    assert!(!result.contains("Page 3 content"));
}

#[test]
fn test_extract_page_range_with_boundaries() {
    let pages = vec![Page::new(1, "Page 1".to_string()), Page::new(2, "Page 2".to_string())];

    let result = extract_page_range_with_boundaries(&pages, 1, 2);
    assert!(result.contains("<physical_index_1>"));
    assert!(result.contains("<physical_index_2>"));
}

#[test]
fn test_tree_builder_basic() {
    let entries = vec![
        TocEntry::new("Chapter 1", 1),
        TocEntry::new("Section 1.1", 2),
        TocEntry::new("Chapter 2", 1),
    ];

    let mut builder = TreeBuilder::new();
    let root = builder.build_from_toc(&entries);

    assert_eq!(root.children.len(), 2); // Two chapters

    // First chapter
    let ch1 = &root.children[0];
    assert_eq!(ch1.title, "Chapter 1");
    assert_eq!(ch1.children.len(), 1); // One section

    // Section 1.1
    let sec = &ch1.children[0];
    assert_eq!(sec.title, "Section 1.1");
}

#[test]
fn test_tree_builder_with_ids() {
    let entries = vec![TocEntry::new("Chapter 1", 1), TocEntry::new("Chapter 2", 1)];

    let mut builder = TreeBuilder::new().without_ids();
    let root = builder.build_from_toc(&entries);

    // Root doesn't get an ID
    assert!(root.node_id.is_none());
}

#[test]
fn test_find_node_for_page() {
    let mut root = PageNode::new("root", "");
    let mut child1 = PageNode::with_pages("Chapter 1", "", 1, 5);
    let child2 = PageNode::with_pages("Section 1.1", "", 2, 3);
    child1.children.push(child2);
    root.children.push(child1);

    // Find page 2 - should return Section 1.1
    let found = find_node_for_page(&root, 2);
    assert!(found.is_some());
    assert_eq!(found.unwrap().title, "Section 1.1");
}

#[test]
fn tree_builder_test_collect_nodes_in_page_range() {
    let mut root = PageNode::new("root", "");
    root.children.push(PageNode::with_pages("Chapter 1", "", 1, 5));
    root.children.push(PageNode::with_pages("Chapter 2", "", 6, 10));

    // Collect nodes in range 1-5
    let nodes = collect_nodes_in_page_range(&root, 1, 5);
    assert_eq!(nodes.len(), 1);
    assert_eq!(nodes[0].title, "Chapter 1");

    // Collect nodes in range 3-8
    let nodes = collect_nodes_in_page_range(&root, 3, 8);
    assert_eq!(nodes.len(), 2); // Both chapters intersect
}

#[test]
fn test_get_path_to_node() {
    let mut root = PageNode::new("root", "");
    let mut child1 = PageNode::new("Chapter 1", "");
    let child2 = PageNode::new("Section 1.1", "");
    child1.children.push(child2);
    root.children.push(child1);

    // the node is named by its child indices from the root
    let path = get_path_to_node(&root, &[0, 0]);
    assert_eq!(path, vec!["root", "Chapter 1", "Section 1.1"]);
}

#[test]
fn test_validate_page_boundaries() {
    let mut root = PageNode::new("root", "");
    root.children.push(PageNode::with_pages("Chapter 1", "", 1, 10));

    // Valid - should pass
    assert!(validate_page_boundaries(&root, 10).is_ok());

    // Invalid - page out of range
    let result = validate_page_boundaries(&root, 5);
    assert!(result.is_err());
}

#[test]
fn test_validate_invalid_range() {
    let mut root = PageNode::new("root", "");
    root.children.push(PageNode::with_pages("Chapter 1", "", 10, 5)); // start > end

    let result = validate_page_boundaries(&root, 10);
    assert!(result.is_err());
}

#[test]
fn validation_error_messages() {
    let mut root = PageNode::new("root", "");
    root.children.push(PageNode::with_pages("Chapter 1", "", 10, 5));
    match validate_page_boundaries(&root, 10) {
        Err(e @ ValidationError::InvalidPageRange { .. }) => {
            assert_eq!(e.message(), "Invalid page range for node 'Chapter 1': start 10 > end 5")
        }
        _ => panic!("expected an inverted range"),
    }
    let mut root = PageNode::new("root", "");
    root.children.push(PageNode::with_pages("Chapter 1", "", 1, 10));
    match validate_page_boundaries(&root, 5) {
        Err(e @ ValidationError::PageOutOfRange { .. }) => assert_eq!(
            e.message(),
            "Page number out of range for node 'Chapter 1': range 1-10, document has 5 pages"
        ),
        _ => panic!("expected a page out of range"),
    }
}

#[test]
fn ids_follow_entry_order_then_breadth_first() {
    let entries = vec![
        TocEntry::new("Chapter 1", 1),
        TocEntry::new("Section 1.1", 2),
        TocEntry::new("Chapter 2", 1),
    ];
    let mut builder = TreeBuilder::new();
    let mut root = builder.build_from_toc(&entries);
    assert!(root.node_id.is_none());
    assert_eq!(root.children[0].node_id.as_deref(), Some("0001"));
    assert_eq!(root.children[0].children[0].node_id.as_deref(), Some("0002"));
    assert_eq!(root.children[1].node_id.as_deref(), Some("0003"));
    assert_eq!(builder.next_id, 4);

    let mut b2 = TreeBuilder::new();
    b2.assign_node_ids(&mut root);
    assert_eq!(root.node_id.as_deref(), Some("0001"));
    assert_eq!(root.children[0].node_id.as_deref(), Some("0002"));
    assert_eq!(root.children[1].node_id.as_deref(), Some("0003"));
    assert_eq!(root.children[0].children[0].node_id.as_deref(), Some("0004"));
    assert_eq!(b2.next_id, 5);
}

#[test]
fn built_nodes_take_pages_and_content() {
    let mut a = TocEntry::new("A", 1);
    a.physical_index = Some("<physical_index_1>".to_string());
    let mut b = TocEntry::new("B", 1);
    b.physical_index = Some("<physical_index_2>".to_string());
    let pages = vec![
        Page::new(1, "p1".to_string()),
        Page::new(2, "p2".to_string()),
        Page::new(3, "p3".to_string()),
    ];
    let mut builder = TreeBuilder::new().without_ids();
    let root = builder.build_from_toc_with_content(&[a, b], &pages);
    assert_eq!(root.children[0].start_page, Some(1));
    assert_eq!(root.children[0].content, "p1");
    assert_eq!(root.children[1].start_page, Some(2));
}

#[test]
fn page_marker_round_trip() {
    for n in [0usize, 1, 7, 42, 1234567] {
        let marker = format!("<physical_index_{}>", n);
        assert_eq!(extract_page_number(&marker), Some(n));
    }
}

#[test]
fn content_carries_markers_when_asked() {
    let entries = vec![TocEntry::with_page("Chapter 1", 1, 1)];
    let pages = vec![Page::new(1, "Page 1".to_string())];
    let mut builder = TreeBuilder::new().include_boundaries(true);
    let root = builder.build_from_toc_with_content(&entries, &pages);
    assert_eq!(root.children[0].title, "Chapter 1");
    assert_eq!(root.children[0].content, "<physical_index_1>\nPage 1\n<physical_index_1>\n");
    assert_eq!(root.children[0].content, extract_page_range_with_boundaries(&pages, 1, 1));

    let mut plain = TreeBuilder::new();
    let root = plain.build_from_toc_with_content(&entries, &pages);
    assert_eq!(root.children[0].content, "Page 1");

    let mut tree = PageNode::new("root", "");
    tree.children.push(PageNode::with_pages("A", "", 1, 1));
    TreeBuilder::new().include_boundaries(true).populate_content_from_pages(&mut tree, &pages);
    assert_eq!(tree.children[0].content, "<physical_index_1>\nPage 1\n<physical_index_1>\n");
}

#[test]
fn marker_with_non_ascii_digits_comes_first() {
    // An Arabic-Indic digit three is a digit for the marker pattern, so this
    // marker is the first one found, and its number does not parse.
    let text = "<physical_index_\u{0663}><physical_index_5>";
    assert_eq!(extract_page_number(text), None);
    // A marker with a letter is no marker at all; the next one is read.
    assert_eq!(extract_page_number("<physical_index_x><physical_index_7>"), Some(7));
}
