use vectorless::pdf::{
    estimate_tokens, mark_page_boundaries, pages_from_text, parse_page_spec, Page, PdfDocument,
    PdfError, PdfExtractor, TokenStrategy,
};

#[test]
fn test_page_creation() {
    let page = Page::new(1, "Test content".to_string());
    assert_eq!(page.index, 1);
    assert_eq!(page.content, "Test content");
    assert!(page.tokens > 0);
}

#[test]
fn test_page_with_boundaries() {
    let page = Page::new(1, "Test content".to_string());
    let marked = page.with_boundaries();
    // PageIndex uses same format for both start and end tags
    assert!(marked.contains("<physical_index_1>"));
    assert!(marked.contains("Test content"));
    // Should have two occurrences of the marker (start and end)
    assert_eq!(marked.matches("<physical_index_1>").count(), 2);
}

#[test]
fn pdf_test_estimate_tokens() {
    let text = "This is a test string with some words.";
    let tokens = estimate_tokens(text);
    assert!(tokens > 0);
    assert!(tokens < text.len()); // Should be less than character count
}

#[test]
fn test_token_strategy_simple() {
    let tokens = TokenStrategy::Simple.count("Hello world");
    assert_eq!(tokens, 2); // 11 bytes / 4 = 2
}

#[test]
fn test_token_strategy_word_based() {
    let tokens = TokenStrategy::WordBased.count("Hello world test");
    assert_eq!(tokens, 2); // 3 words * 0.75 = 2.25 -> 2
}

#[test]
fn test_mark_page_boundaries() {
    let pages = vec!["First page".to_string(), "Second page".to_string()];
    let marked = mark_page_boundaries(&pages);
    assert!(marked.contains("<physical_index_1>"));
    assert!(marked.contains("<physical_index_2>"));
    assert!(marked.contains("First page"));
    assert!(marked.contains("Second page"));
}

#[test]
fn test_parse_page_spec_single() {
    let pages = parse_page_spec("5").ok().unwrap();
    assert_eq!(pages, vec![5]);
}

#[test]
fn test_parse_page_spec_range() {
    let pages = parse_page_spec("5-7").ok().unwrap();
    assert_eq!(pages, vec![5, 6, 7]);
}

#[test]
fn test_parse_page_spec_mixed() {
    let pages = parse_page_spec("3,5-7,10").ok().unwrap();
    assert_eq!(pages, vec![3, 5, 6, 7, 10]);
}

#[test]
fn test_parse_page_spec_invalid_range() {
    let result = parse_page_spec("7-5");
    assert!(result.is_err());
}

#[test]
fn parse_page_spec_error_messages() {
    match parse_page_spec("7-5") {
        Err(PdfError::InvalidPageSpec(m)) => assert_eq!(m, "Range start > end: 7 > 5"),
        _ => panic!("expected a refused range"),
    }
    match parse_page_spec("x") {
        Err(PdfError::InvalidPageSpec(m)) => assert_eq!(m, "Invalid page number: x"),
        _ => panic!("expected a refused number"),
    }
    // an empty part is refused here, unlike in page ranges of documents
    assert!(parse_page_spec("3,,4").is_err());
    assert_eq!(parse_page_spec("4, 2-3 ,2").ok().unwrap(), vec![2, 3, 4]);
}

#[test]
fn test_pdf_document_get_page() {
    let pages = vec![
        Page::new(1, "First".to_string()),
        Page::new(2, "Second".to_string()),
        Page::new(3, "Third".to_string()),
    ];
    let doc = PdfDocument::new(pages);

    assert_eq!(doc.page_count, 3);
    assert_eq!(doc.get_page(1).unwrap().content, "First");
    assert_eq!(doc.get_page(2).unwrap().content, "Second");
    assert!(doc.get_page(0).is_none());
    assert!(doc.get_page(4).is_none());
}

#[test]
fn test_pdf_document_get_page_range() {
    let pages = vec![
        Page::new(1, "First".to_string()),
        Page::new(2, "Second".to_string()),
        Page::new(3, "Third".to_string()),
    ];
    let doc = PdfDocument::new(pages);

    let range = doc.get_page_range(1, 2).unwrap();
    assert!(range.contains("First"));
    assert!(range.contains("Second"));
    assert!(!range.contains("Third"));

    // Invalid range
    assert!(doc.get_page_range(0, 2).is_none());
    assert!(doc.get_page_range(2, 1).is_none());
    assert!(doc.get_page_range(1, 10).is_none());
}

#[test]
fn test_pdf_document_to_marked_text() {
    let pages = vec![
        Page::new(1, "First".to_string()),
        Page::new(2, "Second".to_string()),
    ];
    let doc = PdfDocument::new(pages);
    let marked = doc.to_marked_text();

    assert!(marked.contains("<physical_index_1>"));
    assert!(marked.contains("<physical_index_2>"));
    assert!(marked.contains("First"));
    assert!(marked.contains("Second"));
}

#[test]
fn test_pdf_extractor_default() {
    let extractor = PdfExtractor::new();
    assert_eq!(extractor.token_strategy, TokenStrategy::Simple);
    assert!(!extractor.preserve_layout);
}

#[test]
fn test_pdf_extractor_with_strategy() {
    let extractor = PdfExtractor::with_strategy(TokenStrategy::WordBased);
    assert_eq!(extractor.token_strategy, TokenStrategy::WordBased);
}

#[test]
fn pages_are_cut_at_form_feeds() {
    let pages = pages_from_text("  one \x0c\x0c two\n\x0c   ").ok().unwrap();
    assert_eq!(pages, vec!["one".to_string(), "two".to_string()]);
    assert!(matches!(pages_from_text(" \x0c \n"), Err(PdfError::NoContent)));
}

#[test]
fn extraction_failure_is_reported() {
    let e = PdfExtractor::new();
    match e.extract_from_data(b"this is not a pdf") {
        Err(PdfError::ExtractionFailed(_)) => {}
        _ => panic!("garbage bytes must not extract"),
    }
}

#[test]
fn document_from_texts_numbers_pages() {
    let d = PdfExtractor::document_from_texts(
        vec!["one two three four".to_string(), "x".to_string()],
        TokenStrategy::WordBased,
    )
    .unwrap();
    assert_eq!(d.page_count, 2);
    assert_eq!(d.pages[0].index, 1);
    assert_eq!(d.pages[1].index, 2);
    assert_eq!(d.pages[0].tokens, 3);
    assert_eq!(d.pages[1].tokens, 1);
    assert_eq!(d.total_tokens, 4);
}

#[test]
fn pdf_error_messages() {
    assert_eq!(PdfError::NoContent.message(), "No content found in PDF");
    assert_eq!(PdfError::InvalidPageSpec("x".to_string()).message(), "Invalid page specification: x");
}
