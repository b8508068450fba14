use vectorless::document::{
    get_document, get_document_structure, get_page_content, parse_page_range, to_structure_dto,
    CachedPage, Document, DocumentError, DocumentType,
};
use vectorless::node::PageNode;

fn pdf_doc(id: &str, name: &str, path: &str, page_count: Option<usize>) -> Document {
    Document {
        id: id.to_string(),
        doc_type: DocumentType::Pdf,
        doc_name: name.to_string(),
        doc_description: "Test".to_string(),
        file_path: path.to_string(),
        page_count,
        line_count: None,
        root: None,
        pages: None,
    }
}

#[test]
fn test_parse_page_range_single() {
    let pages = parse_page_range("5").ok().unwrap();
    assert_eq!(pages, vec![5]);
}

#[test]
fn test_parse_page_range_range() {
    let pages = parse_page_range("5-7").ok().unwrap();
    assert_eq!(pages, vec![5, 6, 7]);
}

#[test]
fn test_parse_page_range_mixed() {
    let pages = parse_page_range("5-7,3,8,12").ok().unwrap();
    assert_eq!(pages, vec![3, 5, 6, 7, 8, 12]);
}

#[test]
fn test_parse_page_range_duplicates() {
    let pages = parse_page_range("5-7,5,6").ok().unwrap();
    assert_eq!(pages, vec![5, 6, 7]); // Duplicates removed
}

#[test]
fn test_parse_page_range_invalid_start() {
    let result = parse_page_range("abc-7");
    assert!(result.is_err());
}

#[test]
fn test_parse_page_range_invalid_end() {
    let result = parse_page_range("5-abc");
    assert!(result.is_err());
}

#[test]
fn test_parse_page_range_inverted_range() {
    let result = parse_page_range("7-5");
    assert!(result.is_err());
}

#[test]
fn parse_page_range_messages_and_empty_parts() {
    match parse_page_range("7-5") {
        Err(DocumentError::InvalidPageRange(m)) => {
            assert_eq!(m, "Invalid range '7-5': start (7) must be <= end (5)")
        }
        _ => panic!("expected an invalid range"),
    }
    match parse_page_range("abc-7") {
        Err(DocumentError::InvalidPageRange(m)) => assert_eq!(m, "Invalid start number: abc-7"),
        _ => panic!("expected an invalid start"),
    }
    assert_eq!(parse_page_range(" 3 , ,1 ").ok().unwrap(), vec![1, 3]);
}

#[test]
fn document_test_get_document_not_found() {
    let documents: Vec<Document> = Vec::new();
    let result = get_document(&documents, "non-existent");
    let err = result.err().unwrap();
    assert!(!err.error.is_empty());
    assert!(err.error.contains("not found"));
}

#[test]
fn test_get_document_success() {
    let mut doc = pdf_doc("test-doc-1", "Test Document", "/test/doc.pdf", Some(10));
    doc.doc_description = "A test PDF".to_string();
    let documents = vec![doc];

    let result = get_document(&documents, "test-doc-1").ok().unwrap();
    assert_eq!(result.doc_id, "test-doc-1");
    assert_eq!(result.doc_name, "Test Document");
    assert_eq!(result.doc_type, "pdf");
    assert_eq!(result.page_count, Some(10));
}

#[test]
fn test_get_document_structure_not_found() {
    let documents: Vec<Document> = Vec::new();
    let result = get_document_structure(&documents, "non-existent");
    assert!(result.is_err());
}

#[test]
fn test_get_document_structure_no_root() {
    let documents = vec![pdf_doc("test-doc-2", "Test Doc 2", "/test/doc2.pdf", None)];
    let result = get_document_structure(&documents, "test-doc-2");
    let err = result.err().unwrap();
    assert!(!err.error.is_empty());
    assert!(err.error.contains("no structure loaded"));
}

#[test]
fn test_get_document_structure_with_root() {
    let mut root = PageNode::new("Root", "Root content");
    root.node_id = Some("0001".to_string());
    root.summary = "Root summary".to_string();
    root.depth = 0;
    root.start_page = Some(1);
    root.end_page = Some(10);

    let mut doc = pdf_doc("test-doc-3", "Test Doc 3", "/test/doc3.pdf", Some(10));
    doc.root = Some(root);
    let documents = vec![doc];

    let result = get_document_structure(&documents, "test-doc-3").ok().unwrap();

    // Should contain structure but not text content
    assert_eq!(result.title, "Root");
    assert_eq!(result.summary, Some("Root summary".to_string()));
    assert_eq!(result.depth, 0);
    assert_eq!(result.start_index, Some(1));
    assert_eq!(result.end_index, Some(10));
    assert!(result.nodes.is_empty());
}

#[test]
fn test_get_page_content_not_found() {
    let documents: Vec<Document> = Vec::new();
    let result = get_page_content(&documents, "non-existent", "1-3");
    assert!(result.is_err());
}

#[test]
fn test_get_page_content_invalid_range() {
    let documents = vec![pdf_doc("test-doc-4", "Test Doc 4", "/test/doc4.pdf", None)];
    let result = get_page_content(&documents, "test-doc-4", "invalid");
    let err = result.err().unwrap();
    assert!(!err.error.is_empty());
    assert!(err.error.contains("Invalid pages format"));
}

#[test]
fn test_get_page_content_pdf_cached() {
    let pages = vec![
        CachedPage { page: 1, content: "Page 1 content".to_string() },
        CachedPage { page: 2, content: "Page 2 content".to_string() },
        CachedPage { page: 3, content: "Page 3 content".to_string() },
    ];
    let mut doc = pdf_doc("test-doc-5", "Test Doc 5", "/test/doc5.pdf", Some(3));
    doc.pages = Some(pages);
    let documents = vec![doc];

    let result = get_page_content(&documents, "test-doc-5", "1-2").ok().unwrap();
    assert_eq!(result.len(), 2);
    assert_eq!(result[0].page, 1);
    assert_eq!(result[1].page, 2);
    assert_eq!(result[0].content, "Page 1 content");
    assert_eq!(result[1].content, "Page 2 content");
    assert!(result.iter().all(|p| p.content != "Page 3 content"));
}

#[test]
fn test_to_structure_dto_no_text() {
    let mut root = PageNode::new("Root", "Secret content");
    root.summary = "Public summary".to_string();
    root.depth = 0;

    let dto = to_structure_dto(&root);

    assert_eq!(dto.title, "Root");
    assert_eq!(dto.summary, Some("Public summary".to_string()));
    assert_eq!(dto.depth, 0);
}

#[test]
fn test_to_structure_dto_with_children() {
    let mut root = PageNode::new("Root", "Root content");
    root.depth = 0;

    let mut child1 = PageNode::new("Chapter 1", "Chapter 1 content");
    child1.depth = 1;
    child1.node_id = Some("0001".to_string());

    let mut child2 = PageNode::new("Chapter 2", "Chapter 2 content");
    child2.depth = 1;
    child2.node_id = Some("0002".to_string());

    root.children.push(child1);
    root.children.push(child2);

    let dto = to_structure_dto(&root);

    assert_eq!(dto.title, "Root");
    assert_eq!(dto.nodes.len(), 2);
    assert_eq!(dto.nodes[0].title, "Chapter 1");
    assert_eq!(dto.nodes[1].title, "Chapter 2");
    assert_eq!(dto.nodes[0].node_id, Some("0001".to_string()));
    assert_eq!(dto.nodes[1].node_id, Some("0002".to_string()));
}

#[test]
fn markdown_page_content_by_line() {
    let mut root = PageNode::new("root", "");
    let mut a = PageNode::new("A", "text a");
    a.start_page = Some(3);
    let mut b = PageNode::new("B", "text b");
    b.start_page = Some(1);
    root.children.push(a);
    root.children.push(b);
    let doc = Document {
        id: "md".to_string(),
        doc_type: DocumentType::Markdown,
        doc_name: "M".to_string(),
        doc_description: String::new(),
        file_path: "/m.md".to_string(),
        page_count: None,
        line_count: Some(5),
        root: Some(root),
        pages: None,
    };
    let r = get_page_content(&vec![doc], "md", "1-3").ok().unwrap();
    assert_eq!(r.len(), 2);
    assert_eq!((r[0].page, r[0].content.as_str()), (1, "text b"));
    assert_eq!((r[1].page, r[1].content.as_str()), (3, "text a"));
}

#[test]
fn page_range_reads_only_non_empty_parts() {
    assert_eq!(parse_page_range("3,,5").ok().unwrap(), vec![3, 5]);
    assert!(vectorless::pdf::parse_page_spec("3,,5").is_err());
    assert_eq!(vectorless::pdf::parse_page_spec("3,5").ok().unwrap(), vec![3, 5]);
    assert_eq!(parse_page_range(" , ").ok().unwrap(), Vec::<usize>::new());
    assert_eq!(parse_page_range(" 7-5 ,").is_err(), vectorless::pdf::parse_page_spec("7-5").is_err());
}
