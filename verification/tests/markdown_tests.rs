use vectorless::markdown::{
    apply_short_summaries, build_tree, count_nodes, count_tokens, extract_header_nodes,
    extract_node_text, find_all_children, node_by_path, parse_markdown_tree, set_summary,
    split_lines, summary_targets, thin_tree, update_token_counts, MdConfig, MdError, MdRawNode,
};

fn lines_of(content: &str) -> Vec<String> {
    content.lines().map(|l| l.to_string()).collect()
}

fn raw(title: &str, level: usize, line_num: usize) -> MdRawNode {
    MdRawNode {
        title: title.to_string(),
        level,
        line_num,
        text: String::new(),
        text_token_count: None,
    }
}

#[test]
fn test_extract_header_nodes() {
    let content = r#"
# Title 1

Some content.

## Title 1.1

More content.

### Title 1.1.1

Details.

# Title 2

Final content.
"#;

    let lines = lines_of(content);
    let nodes = extract_header_nodes(&lines).ok().unwrap();

    assert_eq!(nodes.len(), 4);
    assert_eq!(nodes[0].level, 1);
    assert_eq!(nodes[0].title, "Title 1");
    assert_eq!(nodes[1].level, 2);
    assert_eq!(nodes[1].title, "Title 1.1");
}

#[test]
fn test_extract_header_nodes_skips_code_blocks() {
    let content = r#"
# Title 1

Content before code.

```
# This is not a header
# Also not a header
```

## Title 1.1

Content after code.
"#;

    let lines = lines_of(content);
    let nodes = extract_header_nodes(&lines).ok().unwrap();

    assert_eq!(nodes.len(), 2);
    assert_eq!(nodes[0].title, "Title 1");
    assert_eq!(nodes[1].title, "Title 1.1");
}

#[test]
fn test_extract_node_text() {
    let content = r#"
# Title 1

Content under title 1.

## Title 1.1

Content under title 1.1.

# Title 2

Content under title 2.
"#;

    let lines = lines_of(content);
    let mut nodes = vec![raw("Title 1", 1, 2), raw("Title 1.1", 2, 6), raw("Title 2", 1, 10)];

    extract_node_text(&mut nodes, &lines);

    assert!(nodes[0].text.contains("Content under title 1."));
    assert!(nodes[0].text.contains("# Title 1"));
    // nodes[0].text contains content up to (but not including) the next header at line 6
    assert!(!nodes[0].text.contains("## Title 1.1"));
    assert!(!nodes[0].text.contains("Content under title 2."));
}

#[test]
fn test_find_all_children() {
    let nodes = vec![
        raw("Level 1", 1, 1),
        raw("Level 2", 2, 2),
        raw("Level 3", 3, 3),
        raw("Level 2 again", 2, 4),
        raw("Level 1 again", 1, 5),
    ];

    // Children of first node (index 0)
    let children = find_all_children(0, &nodes);
    assert_eq!(children, vec![1, 2, 3]);

    // Children of second node (index 1)
    let children = find_all_children(1, &nodes);
    assert_eq!(children, vec![2]);
}

#[test]
fn test_count_tokens() {
    let text = "This is a test string with some words.";
    let tokens = count_tokens(text);
    assert!(tokens > 0);
}

#[test]
fn test_no_headers_error() {
    let content = "This is just plain text\nwith no headers.";
    let lines = lines_of(content);
    let result = extract_header_nodes(&lines);
    assert!(matches!(result, Err(MdError::NoHeaders)));
}

#[test]
fn test_simple_markdown_parsing() {
    let content = r#"# Introduction

This is the introduction section with some text.

## Background

More background information here.

### History

Historical context.

## Methodology

The methodology section.

# Conclusion

Final thoughts."#;

    let result = parse_markdown_tree(content, &MdConfig::default()).ok().unwrap();

    // Should have 5 sections: Introduction, Background, History, Methodology, Conclusion
    assert_eq!(result.node_count, 5);
    assert!(result.line_count > 10);
}

#[test]
fn test_markdown_with_code_blocks() {
    let content = r#"# Code Example

Here's some code:

```rust
fn main() {
    println!("Hello");
}
```

## Analysis

The code above prints Hello."#;

    let result = parse_markdown_tree(content, &MdConfig::default()).ok().unwrap();
    assert_eq!(result.node_count, 2);
}

#[test]
fn test_deeply_nested_headers() {
    let content = r#"
# Level 1

## Level 2

### Level 3

#### Level 4

##### Level 5

###### Level 6
"#;

    let result = parse_markdown_tree(content, &MdConfig::default()).ok().unwrap();
    assert_eq!(result.node_count, 6);
}

#[test]
fn test_markdown_thinning() {
    let content = r#"
# Main Section

## Small Section 1

Brief content.

## Small Section 2

More brief content.

## Large Section

This section has a lot more content that should exceed the thinning threshold when combined with other sections.
"#;

    let config = MdConfig {
        thinning: true,
        thinning_threshold: 100,
        generate_summary: false,
        summary_threshold: 0,
    };
    let result = parse_markdown_tree(content, &config).ok().unwrap();
    assert!(result.node_count > 0);
    // every section is small: all are merged into the first
    assert_eq!(result.node_count, 1);
}

#[test]
fn test_empty_markdown() {
    let content = "Just some text with no headers.";
    let result = parse_markdown_tree(content, &MdConfig::default());
    assert!(result.is_err());
}

#[test]
fn test_tree_structure_hierarchy() {
    let content = r#"
# Chapter 1

Content of chapter 1.

## Section 1.1

Content of section 1.1.

### Subsection 1.1.1

Content of subsection.

## Section 1.2

Content of section 1.2.

# Chapter 2

Content of chapter 2.
"#;

    let result = parse_markdown_tree(content, &MdConfig::default()).ok().unwrap();
    let root = &result.root;
    assert_eq!(root.children.len(), 2);
    let first_chapter = &root.children[0];
    assert_eq!(first_chapter.children.len(), 2);
    let first_section = &first_chapter.children[0];
    assert_eq!(first_section.children.len(), 1);
    assert_eq!(count_nodes(root), 6 - 1);
}

#[test]
fn test_markdown_without_summaries() {
    let content = "\n# Title\n\nContent here.\n\n## Subtitle\n\nMore content.\n";
    let config = MdConfig { thinning: false, generate_summary: false, ..MdConfig::default() };
    let result = parse_markdown_tree(content, &config).ok().unwrap();
    let first_child = &result.root.children[0];
    assert!(first_child.summary.is_empty() || first_child.summary == first_child.content);
}

#[test]
fn lines_split_like_str_lines() {
    assert_eq!(split_lines("a\r\nb\n\nc\n"), vec!["a", "b", "", "c"]);
    assert_eq!(split_lines(""), Vec::<String>::new());
}

#[test]
fn token_counts_include_descendants() {
    let content = "# A\naaaa aaaa\n## B\nbbbbbbbb\n# C\nc";
    let lines = lines_of(content);
    let mut nodes = extract_header_nodes(&lines).ok().unwrap();
    extract_node_text(&mut nodes, &lines);
    update_token_counts(&mut nodes);
    let own_a = count_tokens(&nodes[0].text);
    let own_b = count_tokens(&nodes[1].text);
    assert_eq!(nodes[1].text_token_count, Some(own_b));
    assert_eq!(nodes[0].text_token_count, Some(own_a + own_b));
    let tree = build_tree(&nodes).ok().unwrap();
    assert_eq!(tree.children.len(), 2);
    assert_eq!(tree.children[0].children[0].title, "B");
}

#[test]
fn thinning_merges_small_children() {
    let content = "# A\nx\n## B\ny\n# C\nz";
    let lines = lines_of(content);
    let mut nodes = extract_header_nodes(&lines).ok().unwrap();
    extract_node_text(&mut nodes, &lines);
    update_token_counts(&mut nodes);
    thin_tree(&mut nodes, 100);
    assert_eq!(nodes.len(), 2);
    assert_eq!(nodes[0].title, "A");
    assert!(nodes[0].text.contains("## B"));
    assert_eq!(nodes[1].title, "C");
}

#[test]
fn short_sections_get_their_text_as_summary() {
    let content = "# A\nshort\n# B\n".to_string() + &"long text ".repeat(100);
    let mut r = parse_markdown_tree(&content, &MdConfig::default()).ok().unwrap();
    apply_short_summaries(&mut r.root, 200);
    assert_eq!(r.root.children[0].summary, r.root.children[0].content);
    let due = summary_targets(&r.root, 200);
    assert_eq!(due, vec![vec![1usize]]);
    set_summary(&mut r.root, &due[0], "  model says  ");
    assert_eq!(node_by_path(&r.root, &[1]).unwrap().summary, "model says");
}

#[test]
fn test_parse_markdown_basic() {
    let content = r#"
# Main Title

Some content here.

## Section 1

Content for section 1.

### Subsection 1.1

Subsection content.

## Section 2

Content for section 2.
"#;

    let result = parse_markdown_tree(content, &MdConfig::default()).ok().unwrap();

    assert_eq!(result.node_count, 4);
    assert!(result.line_count > 0);
}
