use vectorless::node::PageNode;
use vectorless::retrieve::{
    build_enhanced_path_context, child_choice_prompt, child_index_from_reply,
    collect_nodes_in_page_range_recursive, estimate_tokens, extract_pages_from_section,
    path_step, retrieve_page_range, RetrieveError, RetrieveMetadata, RetrieveMode,
};

fn two_chapters() -> PageNode {
    let mut root = PageNode::new("root", "");
    let child1 = PageNode::with_pages("Chapter 1", "", 1, 5);
    let child2 = PageNode::with_pages("Chapter 2", "", 6, 10);
    root.children.push(child1);
    root.children.push(child2);
    root
}

#[test]
fn test_retrieve_mode_tree_navigation() {
    let mode = RetrieveMode::TreeNavigation;
    assert!(matches!(mode, RetrieveMode::TreeNavigation));
}

#[test]
fn test_retrieve_mode_page_range() {
    let mode = RetrieveMode::PageRange { start: 5, end: 10 };
    match mode {
        RetrieveMode::PageRange { start, end } => {
            assert_eq!(start, 5);
            assert_eq!(end, 10);
        }
        _ => panic!("Wrong mode"),
    }
}

#[test]
fn test_retrieve_mode_multi_path() {
    let mode = RetrieveMode::MultiPath { top_k: 3 };
    match mode {
        RetrieveMode::MultiPath { top_k } => assert_eq!(top_k, 3),
        _ => panic!("Wrong mode"),
    }
}

#[test]
fn retrieve_test_estimate_tokens() {
    let text = "This is a test string with some words.";
    let tokens = estimate_tokens(text);
    assert!(tokens > 0);
    assert!(tokens <= text.len());
}

#[test]
fn retrieve_test_collect_nodes_in_page_range() {
    let root = two_chapters();

    // Collect nodes in range 1-5
    let nodes = collect_nodes_in_page_range_recursive(&root, 1, 5);
    assert_eq!(nodes.len(), 2); // root + Chapter 1

    // Collect nodes in range 3-8
    let nodes = collect_nodes_in_page_range_recursive(&root, 3, 8);
    assert_eq!(nodes.len(), 3); // root + Chapter 1 + Chapter 2
}

#[test]
fn metadata_default() {
    let m = RetrieveMetadata::default();
    assert_eq!(m.section_count, 0);
    assert_eq!(m.total_tokens, 0);
    assert!(m.pages_covered.is_empty());
    assert_eq!(m.mode, RetrieveMode::TreeNavigation);
    assert!(m.success);
}

#[test]
fn pages_of_a_section() {
    let n = PageNode::with_pages("S", "", 3, 5);
    assert_eq!(extract_pages_from_section(&n), vec![3, 4, 5]);
    let m = PageNode::new("T", "");
    assert!(extract_pages_from_section(&m).is_empty());
}

#[test]
fn page_range_retrieval() {
    let mut root = PageNode::new("root", "");
    root.children.push(PageNode::with_pages("Chapter 1", "abcdefgh", 1, 5));
    root.children.push(PageNode::with_pages("Chapter 2", "xyzw", 6, 10));
    let r = retrieve_page_range(&root, 4, 7);
    assert_eq!(r.sections.len(), 3);
    assert_eq!(r.sections[1].title, "Chapter 1");
    assert_eq!(r.metadata.total_tokens, 2 + 1);
    assert_eq!(r.metadata.pages_covered, vec![4, 5, 6, 7]);
    assert_eq!(r.metadata.section_count, 3);
    assert!(r.metadata.success);
    assert!(r.answer.contains("## Chapter 1\n\nabcdefgh"));
    assert!(r.answer.contains("\n\n---\n\n"));
}

#[test]
fn path_context_follows_titles() {
    let mut root = PageNode::new("root", "");
    let mut ch = PageNode::new("Chapter 1", "");
    ch.summary = "about one".to_string();
    ch.children.push(PageNode::new("Section 1.1", "leaf"));
    root.children.push(ch);
    let path = vec![
        path_step(&root),
        path_step(&root.children[0]),
        path_step(&root.children[0].children[0]),
    ];
    // each step looks among the children for the title of the step before
    let ctx = build_enhanced_path_context(&root, &path);
    assert_eq!(ctx.len(), 1);
    assert_eq!(ctx[0].title, "root");

    let mut doc = PageNode::new("Doc", "");
    let mut inner = PageNode::new("Doc", "");
    inner.summary = "inner".to_string();
    inner.children.push(PageNode::new("Leaf", "x"));
    doc.children.push(inner);
    let path = vec![
        path_step(&doc),
        path_step(&doc.children[0]),
        path_step(&doc.children[0].children[0]),
    ];
    let ctx = build_enhanced_path_context(&doc, &path);
    assert_eq!(ctx.len(), 2);
    assert_eq!(ctx[1].summary, "inner");
}

#[test]
fn child_choice_prompt_and_reply() {
    let mut root = two_chapters();
    root.children[0].summary = "first".to_string();
    let p = child_choice_prompt(&root, "where?");
    assert!(p.contains("Current section: \"root\""));
    assert!(p.contains("Question: where?"));
    assert!(p.contains("1. [Chapter 1]: first\n2. [Chapter 2]: "));
    assert_eq!(child_index_from_reply(" 2 ", 2).ok().unwrap(), 1);
    assert!(matches!(child_index_from_reply("0", 2), Err(RetrieveError::InvalidResponse(_))));
    assert!(matches!(child_index_from_reply("3", 2), Err(RetrieveError::InvalidResponse(_))));
    assert!(matches!(child_index_from_reply("two", 2), Err(RetrieveError::InvalidResponse(_))));
}

#[test]
fn chosen_children_are_gathered_in_order() {
    let mut root = PageNode::new("root", "");
    root.children.push(PageNode::with_pages("A", "aaaaaaaa", 1, 3));
    root.children.push(PageNode::with_pages("B", "bbbb", 2, 5));
    root.children.push(PageNode::new("C", "cccccccccccc"));
    let r = vectorless::retrieve::sections_of_children(&root, &[2, 0, 1]);
    let titles: Vec<&str> = r.sections.iter().map(|s| s.title.as_str()).collect();
    assert_eq!(titles, vec!["C", "A", "B"]);
    assert_eq!(r.sections[1].page_range, Some((1, 3)));
    assert_eq!(r.sections[0].page_range, None);
    assert_eq!(r.total_tokens, 3 + 2 + 1);
    assert_eq!(r.pages_covered, vec![1, 2, 3, 4, 5]);
    let none = vectorless::retrieve::sections_of_children(&root, &[]);
    assert!(none.sections.is_empty());
    assert_eq!(none.total_tokens, 0);
    assert!(none.pages_covered.is_empty());
}
