use vectorless::pdf::Page;
use vectorless::toc::{
    apply_page_offset, calculate_level_from_structure, clean_json, entries_from_items,
    extract_toc_content, find_title_in_pages, json_object_slice, match_page_numbers,
    most_common_offset, normalize_title, transform_dots_to_colon, TocConfig, TocEntry, TocItem,
    TocResult, TocScan,
};

/// Reads the `toc_detected` field of a model reply the way the TOC
/// processor does: the reply as a whole, or else its cleaned object slice.
fn toc_detected(text: &str) -> String {
    let value: serde_json::Value = match serde_json::from_str(text.trim()) {
        Ok(v) => v,
        Err(_) => {
            let slice = json_object_slice(text).ok().unwrap();
            serde_json::from_str(&clean_json(&slice)).unwrap()
        }
    };
    value["toc_detected"].as_str().unwrap().to_string()
}

#[test]
fn test_toc_entry_creation() {
    let entry = TocEntry::new("Chapter 1", 1);
    assert_eq!(entry.title, "Chapter 1");
    assert_eq!(entry.level, 1);
    assert!(entry.page.is_none());
}

#[test]
fn test_toc_entry_with_page() {
    let entry = TocEntry::with_page("Chapter 1", 1, 5);
    assert_eq!(entry.page, Some(5));
}

#[test]
fn test_transform_dots_to_colon() {
    let input = "Chapter 1.......5";
    let output = transform_dots_to_colon(input);
    assert!(output.contains("Chapter 1:"));
}

#[test]
fn test_transform_spaced_dots() {
    let input = "Chapter 1. . . . . . 5";
    let output = transform_dots_to_colon(input);
    assert!(output.contains("Chapter 1:"));
}

#[test]
fn test_normalize_title() {
    let title = "  Hello   World  ";
    let normalized = normalize_title(title);
    assert_eq!(normalized, "hello world");
}

#[test]
fn test_calculate_level_from_structure() {
    assert_eq!(calculate_level_from_structure("1"), 1);
    assert_eq!(calculate_level_from_structure("1.1"), 2);
    assert_eq!(calculate_level_from_structure("1.2.3"), 3);
}

#[test]
fn test_toc_result_not_found() {
    let result = TocResult::not_found();
    assert!(!result.detected);
    assert!(result.entries.is_empty());
}

#[test]
fn test_toc_config_default() {
    let config = TocConfig::default();
    assert_eq!(config.toc_check_pages, 20);
    assert_eq!(config.max_retries, 5);
}

#[test]
fn test_toc_config_builder() {
    let config = TocConfig::builder().toc_check_pages(10).max_retries(3).verbose(true).build();

    assert_eq!(config.toc_check_pages, 10);
    assert_eq!(config.max_retries, 3);
    assert!(config.verbose);
}

#[test]
fn test_extract_json_simple() {
    let json = r#"{"toc_detected": "yes"}"#;
    assert_eq!(toc_detected(json), "yes");
}

#[test]
fn test_extract_json_with_markdown() {
    let json = r#"```json
        {"toc_detected": "yes"}
        ```"#;
    assert_eq!(toc_detected(json), "yes");
}

#[test]
fn test_extract_json_with_extra_text() {
    let json = r#"Some text before {"toc_detected": "yes"} some text after"#;
    assert_eq!(toc_detected(json), "yes");
}

#[test]
fn json_slice_errors_and_cleaning() {
    assert_eq!(json_object_slice("no braces").err().unwrap(), "No JSON object found");
    assert_eq!(json_object_slice("} then {").err().unwrap(), "Invalid JSON object bounds");
    assert_eq!(clean_json("{\"a\": None,\n\"b\": 1}"), "{\"a\": null, \"b\": 1}");
}

#[test]
fn dots_and_levels_edge_cases() {
    assert_eq!(transform_dots_to_colon("A...B"), "A...B");
    assert_eq!(transform_dots_to_colon("A.....B"), "A: B");
    assert_eq!(calculate_level_from_structure(""), 1);
}

#[test]
fn toc_content_of_pages() {
    let pages = vec![Page::new(1, "one".to_string()), Page::new(2, "two".to_string())];
    assert_eq!(extract_toc_content(&pages, &[1, 0]), "two\none\n");
}

#[test]
fn title_search_in_pages() {
    let pages = vec![
        Page::new(1, "Preface".to_string()),
        Page::new(2, "1 Getting  STARTED here".to_string()),
    ];
    assert_eq!(find_title_in_pages("getting started", &pages, 1, 2), Some(2));
    assert_eq!(find_title_in_pages("missing", &pages, 1, 2), None);
}

#[test]
fn offsets_pick_the_first_most_common() {
    assert_eq!(most_common_offset(&vec![(1, 3), (2, 4), (5, 5)]), 2);
    assert_eq!(most_common_offset(&vec![(3, 1), (4, 4)]), -2);
    assert_eq!(most_common_offset(&vec![]), 0);
    let entries = vec![TocEntry::with_page("A", 1, 1), TocEntry::new("B", 1), TocEntry::with_page("C", 1, 9)];
    let shifted = apply_page_offset(&entries, 2, 10);
    assert_eq!(shifted[0].physical_index.as_deref(), Some("<physical_index_3>"));
    assert!(shifted[1].physical_index.is_none());
    assert!(shifted[2].physical_index.is_none());
}

#[test]
fn page_numbers_matched_against_pages() {
    let pages = vec![
        Page::new(1, "cover".to_string()),
        Page::new(2, "contents".to_string()),
        Page::new(3, "Intro text".to_string()),
        Page::new(4, "Method text".to_string()),
    ];
    let entries = vec![TocEntry::with_page("Intro", 1, 1), TocEntry::with_page("Method", 1, 2)];
    let out = match_page_numbers(&entries, &pages);
    assert_eq!(out[0].physical_index.as_deref(), Some("<physical_index_3>"));
    assert_eq!(out[1].physical_index.as_deref(), Some("<physical_index_4>"));
}

#[test]
fn items_become_entries() {
    let items = vec![TocItem {
        structure: "2.1".to_string(),
        title: "Scope".to_string(),
        page: Some("12".to_string()),
    }];
    let e = entries_from_items(&items);
    assert_eq!(e[0].level, 2);
    assert_eq!(e[0].page, Some(12));
    assert_eq!(e[0].structure.as_deref(), Some("2.1"));
}

#[test]
fn toc_scan_stops_after_the_toc() {
    let mut scan = TocScan::new(20, 5);
    assert_eq!(scan.next_page(), Some(0));
    scan.record(false);
    assert_eq!(scan.next_page(), Some(1));
    scan.record(true);
    assert_eq!(scan.next_page(), Some(2));
    scan.record(true);
    assert_eq!(scan.next_page(), Some(3));
    scan.record(false);
    assert_eq!(scan.next_page(), None);
    assert_eq!(scan.toc_pages, vec![1, 2]);
}
