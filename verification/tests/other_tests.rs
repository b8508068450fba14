use vectorless::cli::IndexArgs;
use vectorless::config::IndexerConfig;
use vectorless::document::{to_structure_dto, StructureNodeDto};
use vectorless::llm::{Message, OpenAIClient, Role, ZaiClient};
use vectorless::node::PageNode;
use vectorless::parse::{
    document_tree, extract_json, json_candidate, needs_subsections, section_node, segment_prompt,
    Section,
};
use vectorless::service::{count_sections, AgentConfig, IndexStore};
use vectorless::storage::{document_id_of_file, DocumentCache, NodeDto, Workspace};
use vectorless::summary::{
    md_summary_prompt, node_summary_request, summarize_prompt, summary_order, summary_source,
    SummaryRequest,
};
use vectorless::pdf::can_cut;

fn dto(title: &str) -> StructureNodeDto {
    to_structure_dto(&PageNode::new(title, ""))
}

#[test]
fn indexer_config_default_and_builder() {
    let c = IndexerConfig::default();
    assert_eq!(c.subsection_threshold, 300);
    assert_eq!(c.max_segment_tokens, 3000);
    assert_eq!(c.summary_model, "gpt-4-mini");
    assert_eq!(c.max_summary_tokens, 150);
    assert_eq!(c.max_content_tokens, 1500);
    let c = IndexerConfig::builder().subsection_threshold(5).max_content_tokens(7).build();
    assert_eq!(c.subsection_threshold, 5);
    assert_eq!(c.max_content_tokens, 7);
    assert_eq!(c.max_segment_tokens, 3000);
}

#[test]
fn index_args_give_their_config() {
    let args = IndexArgs {
        file: "doc.txt".to_string(),
        output: "index.json".to_string(),
        api_key: "k".to_string(),
        endpoint: "https://api.z.ai/api/paas/v4".to_string(),
        model: "glm-5".to_string(),
        subsection_threshold: 200,
        max_segment_tokens: 4000,
        max_summary_tokens: 200,
    };
    let c = args.indexer_config();
    assert_eq!(c.subsection_threshold, 200);
    assert_eq!(c.max_segment_tokens, 4000);
    assert_eq!(c.summary_model, "glm-5");
    assert_eq!(c.max_summary_tokens, 200);
    assert_eq!(c.max_content_tokens, 1500);
}

#[test]
fn workspace_paths() {
    let w = Workspace::new("/data/ws");
    assert_eq!(w.meta_path(), "/data/ws/_meta.json");
    assert_eq!(w.doc_path("abc"), "/data/ws/abc.json");
    let w = Workspace::new("/data/ws/");
    assert_eq!(w.meta_path(), "/data/ws/_meta.json");
}

#[test]
fn cache_remembers_and_evicts_oldest() {
    let mut c = DocumentCache::new("/c", 2);
    c.remember("a", dto("A"));
    c.remember("b", dto("B"));
    c.remember("a", dto("A2"));
    assert_eq!(c.entries.len(), 2);
    assert_eq!(c.cached("a").unwrap().title, "A2");
    c.remember("c", dto("C"));
    assert_eq!(c.entries.len(), 2);
    assert!(c.entries.len() <= c.max_memory_items);
    c.forget("c");
    assert!(c.cached("c").is_none());
    c.forget_all();
    assert!(c.entries.is_empty());
    assert_eq!(c.cache_path("x"), "/c/x.json");
}

#[test]
fn node_dto_round_trip() {
    let mut root = PageNode::new("Root", "body");
    root.summary = "sum".to_string();
    root.depth = 0;
    let mut ch = PageNode::new("Child", "text");
    ch.depth = 1;
    root.children.push(ch);
    let back = NodeDto::from_node(&root).to_node();
    assert_eq!(back.title, "Root");
    assert_eq!(back.content, "body");
    assert_eq!(back.summary, "sum");
    assert_eq!(back.children.len(), 1);
    assert_eq!(back.children[0].title, "Child");
    assert_eq!(back.children[0].depth, 1);
}

#[test]
fn llm_settings() {
    let c = OpenAIClient::new("k");
    assert_eq!(c.model, "gpt-4o");
    assert_eq!(c.base_url, "https://api.openai.com/v1");
    let z = ZaiClient::for_coding("k");
    assert_eq!(z.base_url, "https://api.z.ai/api/coding/paas/v4");
    assert_eq!(Role::User.as_str(), "user");
    let m = Message::user("hi");
    assert_eq!(m.content, "hi");
    assert!(matches!(m.role, Role::User));
}

#[test]
fn json_extraction() {
    assert_eq!(extract_json("  {\"a\": 1}  ").ok().unwrap(), "{\"a\": 1}");
    assert_eq!(extract_json("Here: {\"a\": 1} done").ok().unwrap(), "{\"a\": 1}");
    assert_eq!(extract_json(" [1, 2] ").ok().unwrap(), "[1, 2]");
    assert_eq!(extract_json("nothing").err().unwrap(), "No JSON object found");
    assert_eq!(json_candidate(" x {} ", true).ok().unwrap(), "x {}");
    assert_eq!(json_candidate(" x {} ", false).ok().unwrap(), "{}");
}

#[test]
fn sections_become_nodes() {
    assert!(needs_subsections("a b c", 2));
    assert!(!needs_subsections("a b", 2));
    let leaf = section_node("T", "body text", &vec![]);
    assert_eq!(leaf.depth, 1);
    assert_eq!(leaf.content, "body text");
    assert!(leaf.children.is_empty());
    let one = vec![Section { title: "only".to_string(), content: "x".to_string() }];
    assert_eq!(section_node("T", "body", &one).content, "body");
    let subs = vec![
        Section { title: "s1".to_string(), content: "c1".to_string() },
        Section { title: "s2".to_string(), content: "c2".to_string() },
    ];
    let n = section_node("T", "body", &subs);
    assert_eq!(n.content, "");
    assert_eq!(n.children.len(), 2);
    assert_eq!(n.children[1].title, "s2");
    assert_eq!(n.children[1].content, "c2");
    assert_eq!(n.children[1].depth, 2);
    let root = document_tree(vec![leaf, n]);
    assert_eq!(root.title, "root");
    assert_eq!(root.depth, 0);
    assert_eq!(count_sections(&root), 5);
}

#[test]
fn segment_prompt_cuts_long_text() {
    let p = segment_prompt("short text");
    assert!(p.starts_with("You are a document parser."));
    assert!(p.ends_with("Text to parse:\nshort text"));
    let long = "ab".repeat(5000);
    let p = segment_prompt(&long);
    assert!(p.ends_with(&"ab".repeat(4000)));
    assert!(!p.ends_with(&"ab".repeat(4001)));
    // a cut inside a character cannot be made
    let s = "a".to_string() + &"é".repeat(5000);
    assert!(!can_cut(&s, 8000));
    assert!(can_cut(&s, 7999));
}

#[test]
fn summaries_children_first() {
    let mut root = PageNode::new("root", "");
    let mut a = PageNode::new("A", "");
    a.children.push(PageNode::new("A1", "  "));
    root.children.push(a);
    root.children.push(PageNode::new("B", "b text"));
    let order = summary_order(&root);
    assert_eq!(order, vec![vec![0, 0], vec![0], vec![1], vec![]]);
    match node_summary_request(&root.children[0].children[0], &IndexerConfig::default()) {
        SummaryRequest::Fixed(s) => assert_eq!(s, "(empty section)"),
        _ => panic!("a blank leaf is not summarised by the model"),
    }
    let config = IndexerConfig::builder().max_summary_tokens(77).build();
    match node_summary_request(&root.children[1], &config) {
        SummaryRequest::Ask { prompt: p, max_tokens } => {
            assert_eq!(max_tokens, 77);
            assert!(p.starts_with("This is the section titled: B.\nSummarize the following"));
            assert!(p.ends_with("\n\nb text"));
        }
        _ => panic!("a leaf with text is summarised by the model"),
    }
    root.children[0].children[0].summary = "(empty section)".to_string();
    root.children[1].summary = "about b".to_string();
    assert_eq!(summary_source(&root), "[A]: \n\n[B]: about b");
    assert!(summarize_prompt("t", "").starts_with("Summarize the following"));
}

#[test]
fn markdown_summary_prompt_marks_the_cut() {
    let p = md_summary_prompt("text", "T");
    assert_eq!(p, "Summarize the following section titled 'T' in 2-3 sentences. Be specific and factual:\n\ntext");
    let long = "x".repeat(3001);
    let p = md_summary_prompt(&long, "T");
    assert!(p.ends_with(&("x".repeat(3000) + "...")));
}

#[test]
fn index_store_and_agent_defaults() {
    let s = IndexStore::new("./indices");
    assert_eq!(s.get_index_path("1234"), "./indices/1234.json");
    let c = AgentConfig::default();
    assert_eq!(c.max_iterations, 10);
    assert!(!c.verbose);
}

#[test]
fn workspace_file_names() {
    assert_eq!(document_id_of_file("abc.json"), Some("abc".to_string()));
    assert_eq!(document_id_of_file("_meta.json"), None);
    assert_eq!(document_id_of_file("notes.txt"), None);
    assert_eq!(document_id_of_file(".json"), Some(String::new()));
}

#[test]
fn collection_default_is_new() {
    let c = vectorless::client::DocumentCollection::default();
    assert!(c.documents.is_empty());
    assert_eq!(c.model, "gpt-4");
}
