use vectorless::document::{to_structure_dto, StructureNodeDto};
use vectorless::llm::{
    api_status_error, bearer, completion_from_choices, completions_url, ChatError,
};
use vectorless::node::PageNode;
use vectorless::retrieve::{
    build_enhanced_path_context, comprehensive_answer, merge_pages, navigation_result,
    new_section_indices, section_of, with_path_context, RetrieveMode,
};
use vectorless::storage::DocumentCache;
use vectorless::toc::{
    answer_is_yes, detect_page_numbers_prompt, detect_toc_prompt, entries_without_pages_prompt,
    entry_with_level, transform_toc_prompt,
};

fn book() -> PageNode {
    let mut root = PageNode::new("root", "intro text");
    let mut ch1 = PageNode::with_pages("Chapter 1", "", 1, 4);
    ch1.summary = "first chapter".to_string();
    ch1.node_id = Some("0002".to_string());
    let mut s11 = PageNode::with_pages("Section 1.1", "the answer is here", 2, 3);
    s11.node_id = Some("0004".to_string());
    ch1.children.push(s11);
    let mut ch2 = PageNode::with_pages("Chapter 2", "second", 5, 6);
    ch2.node_id = Some("0003".to_string());
    root.children.push(ch1);
    root.children.push(ch2);
    root
}

#[test]
fn navigation_to_a_leaf() {
    let root = book();
    let r = navigation_result(&root, &[0, 0]).unwrap();
    assert_eq!(r.answer, "the answer is here");
    assert_eq!(r.sections.len(), 1);
    assert_eq!(r.sections[0].title, "Section 1.1");
    assert_eq!(r.sections[0].page_range, Some((2, 3)));
    let titles: Vec<&str> = r.path.iter().map(|s| s.title.as_str()).collect();
    assert_eq!(titles, vec!["root", "Chapter 1", "Section 1.1"]);
    // "intro text" = 10 bytes -> 2, "" -> 0, "the answer is here" = 18 bytes -> 4
    assert_eq!(r.metadata.total_tokens, 6);
    assert_eq!(r.metadata.pages_covered, vec![2, 3]);
    assert_eq!(r.metadata.mode, RetrieveMode::TreeNavigation);
    assert!(r.metadata.success);
    // not yet at a leaf, or a child that does not exist
    assert!(navigation_result(&root, &[0]).is_none());
    assert!(navigation_result(&root, &[]).is_none());
    assert!(navigation_result(&root, &[7]).is_none());
    assert_eq!(navigation_result(&root, &[1]).unwrap().answer, "second");
}

#[test]
fn path_context_result() {
    let root = book();
    let target = navigation_result(&root, &[0, 0]).unwrap();
    let ctx = build_enhanced_path_context(&root, &target.path);
    let r = with_path_context(target, &ctx);
    assert_eq!(r.sections.len(), 2);
    assert_eq!(r.sections[1].title, "root");
    assert_eq!(r.sections[1].content, "");
    assert_eq!(r.answer, "Document Path: root: \n\n---\n\nthe answer is here");
    assert_eq!(r.metadata.section_count, 2);
    assert_eq!(r.metadata.mode, RetrieveMode::PathContext);
    assert_eq!(r.metadata.total_tokens, 6);
}

#[test]
fn comprehensive_merging() {
    let root = book();
    let primary = vec![section_of(&root.children[0]), section_of(&root)];
    let extra = vec![
        section_of(&root.children[1]),
        section_of(&root.children[0]),
        section_of(&root),
    ];
    // Chapter 2 is new; Chapter 1 is already there; the root has no id
    assert_eq!(new_section_indices(&primary, &extra), vec![0]);
    assert_eq!(merge_pages(&vec![5, 2, 3], &vec![3, 1]), vec![1, 2, 3, 5]);
    assert_eq!(
        comprehensive_answer("A", "B"),
        "Primary Result:\nA\n\n---\n\nAdditional Relevant Sections:\nB"
    );
}

#[test]
fn toc_prompts_and_answers() {
    let p = detect_toc_prompt("PAGE");
    assert!(p.starts_with("Your job is to detect if there is a table of contents in the given text.\nNote:"));
    assert!(p.contains("\n\nGiven text: PAGE\n\nReturn JSON format:\n{\n\"thinking\""));
    assert!(p.ends_with("Do not output anything else."));
    let p = detect_page_numbers_prompt("TOC");
    assert!(p.contains("\"page_index_given_in_toc\": \"<yes or no>\""));
    assert!(p.contains("Given text: TOC\n"));
    let p = transform_toc_prompt("TOC");
    assert!(p.ends_with("Given table of contents:\nTOC"));
    let p = entries_without_pages_prompt("TOC");
    assert!(p.contains("\"level\": <1-6>"));
    assert!(answer_is_yes("YES"));
    assert!(answer_is_yes("Yes"));
    assert!(!answer_is_yes("yes "));
    assert!(!answer_is_yes("no"));
    let e = entry_with_level("Scope", 2, "1.2");
    assert_eq!(e.level, 2);
    assert_eq!(e.structure.as_deref(), Some("1.2"));
    assert!(e.page.is_none());
}

#[test]
fn chat_helpers() {
    assert_eq!(completions_url("https://api.openai.com/v1"), "https://api.openai.com/v1/chat/completions");
    assert_eq!(bearer("k"), "Bearer k");
    match api_status_error("OpenAI", "404 Not Found", "nope") {
        ChatError::RequestFailed(m) => assert_eq!(m, "OpenAI API error (404 Not Found): nope"),
        _ => panic!("a failed status is a failed request"),
    }
    let c = completion_from_choices(vec![
        ("one".to_string(), Some("stop".to_string())),
        ("two".to_string(), None),
    ]);
    assert_eq!(c.content, "one");
    assert_eq!(c.finish_reason.as_deref(), Some("stop"));
    let c = completion_from_choices(vec![]);
    assert_eq!(c.content, "");
    assert!(c.finish_reason.is_none());
    assert_eq!(ChatError::AuthenticationFailed.message(), "Authentication failed");
}

fn dto(title: &str) -> StructureNodeDto {
    to_structure_dto(&PageNode::new(title, ""))
}

#[test]
fn cache_read_after_write() {
    let mut c = DocumentCache::new("/c", 1);
    c.remember("a", dto("A"));
    assert_eq!(c.cached("a").unwrap().title, "A");
    c.remember("b", dto("B"));
    assert_eq!(c.cached("b").unwrap().title, "B");
    assert!(c.cached("a").is_none());
    // a cache that holds nothing keeps nothing
    let mut z = DocumentCache::new("/c", 0);
    z.remember("a", dto("A"));
    assert!(z.cached("a").is_none());
}

#[test]
fn inserted_document_is_found() {
    let mut c = vectorless::client::DocumentCollection::new();
    let d1 = vectorless::client::markdown_document("id-1", "/docs/a.md", "# A\ntext\n");
    let d2 = vectorless::client::pdf_document("id-2", "/docs/b.pdf", "");
    c.insert_document(d1);
    c.insert_document(d2);
    let m = c.get_document("id-1").ok().unwrap();
    assert_eq!(m.doc_name, "a.md");
    assert_eq!(m.doc_type, "markdown");
    assert_eq!(m.line_count, Some(2));
    assert_eq!(m.doc_description, "Markdown document with 2 lines");
    // replacing keeps one document per id
    let d3 = vectorless::client::pdf_document("id-1", "/docs/c.pdf", "abc");
    c.insert_document(d3);
    assert_eq!(c.list_documents(), vec!["id-1".to_string(), "id-2".to_string()]);
    let m = c.get_document("id-1").ok().unwrap();
    assert_eq!(m.doc_type, "pdf");
    assert_eq!(m.doc_description, "PDF document with 3 bytes");
    c.remove_from_memory("id-1");
    assert!(c.get_document("id-1").is_err());
    assert_eq!(c.list_documents(), vec!["id-2".to_string()]);
}

#[test]
fn every_toc_entry_becomes_a_node() {
    let entries = vec![
        vectorless::toc::TocEntry::new("A", 1),
        vectorless::toc::TocEntry::new("A.1", 2),
        vectorless::toc::TocEntry::new("A.1.1", 3),
        vectorless::toc::TocEntry::new("B", 1),
        vectorless::toc::TocEntry::new("B.1", 3),
    ];
    let mut b = vectorless::tree_builder::TreeBuilder::new();
    let root = b.build_from_toc(&entries);
    assert_eq!(vectorless::markdown::count_nodes(&root), entries.len());
    assert_eq!(root.children[1].children[0].title, "B.1");
}
