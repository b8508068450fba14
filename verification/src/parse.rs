//! Parsing a plain document into a tree with a language model: the model
//! splits the text into sections, long sections are split once more into
//! subsections. Here stand the prompts, the reading of the model's JSON
//! reply and the building of the tree; asking the model is the caller's
//! part.

use vstd::prelude::*;
use crate::node::{is_fresh, PageNode};
use crate::pdf::{cuttable, head, is_head};
use crate::text::{count_words, extend_str, str_chars, string_from, trim, trim_chars, word_count};
use crate::toc::{json_object_slice, json_slice};

verus! {

/// Whether `serde_json::from_str::<serde_json::Value>` accepts the text as
/// one JSON value.
pub uninterp spec fn json_valid(s: Seq<char>) -> bool;

/// `serde_json::from_str::<serde_json::Value>(text).is_ok()`: whether the
/// text is one JSON value, named [`json_valid`].
#[verifier::external_body]
fn is_json(text: &str) -> (r: bool)
    ensures
        r == json_valid(text@),
{
    serde_json::from_str::<serde_json::Value>(text).is_ok()
}

/// What [`extract_json`] returns once it knows whether the trimmed text is
/// JSON as a whole: then the trimmed text, else the object slice of
/// [`json_slice`].
pub open spec fn json_choice(text: Seq<char>, whole_is_json: bool) -> Result<Seq<char>, Seq<char>> {
    if whole_is_json {
        Ok(trim(text))
    } else {
        json_slice(text)
    }
}

/// The JSON part of a model reply, given whether the trimmed reply is JSON
/// as a whole (see [`json_choice`]).
pub fn json_candidate(text: &str, whole_is_json: bool) -> (r: Result<String, String>)
    ensures
        match json_choice(text@, whole_is_json) {
            Ok(s) => r matches Ok(x) && x@ == s,
            Err(m) => r matches Err(x) && x@ == m,
        },
{
    if whole_is_json {
        Ok(string_from(&trim_chars(&str_chars(text))))
    } else {
        json_object_slice(text)
    }
}

/// The JSON part of a model reply: the trimmed reply when it is JSON as a
/// whole, else the part from the first `{` to the last `}`.
pub fn extract_json(text: &str) -> (r: Result<String, String>)
    ensures
        match json_choice(text@, json_valid(trim(text@))) {
            Ok(s) => r matches Ok(x) && x@ == s,
            Err(m) => r matches Err(x) && x@ == m,
        },
{
    let t = string_from(&trim_chars(&str_chars(text)));
    let whole = is_json(t.as_str());
    json_candidate(text, whole)
}

/// The instruction that opens the segmentation prompt.
pub open spec fn segment_intro() -> Seq<char> {
    "You are a document parser. Split the following text into logical sections.\n\nReturn ONLY a valid JSON object (no additional text). Format:\n{\"sections\":[{\"title\":\"short title\",\"content\":\"text belonging to this section\"},...]}\n\nText to parse:\n"@
}

/// The prompt that asks the model to split a text into sections: the
/// instruction followed by the text cut after 8000 bytes.
pub fn segment_prompt(text: &str) -> (r: String)
    requires
        cuttable(text@, 8000),
    ensures
        exists|h: Seq<char>| is_head(text@, 8000, h) && r@ == segment_intro() + h,
{
    let h = head(text, 8000);
    let mut m: Vec<char> = Vec::new();
    extend_str(&mut m, "You are a document parser. Split the following text into logical sections.\n\nReturn ONLY a valid JSON object (no additional text). Format:\n{\"sections\":[{\"title\":\"short title\",\"content\":\"text belonging to this section\"},...]}\n\nText to parse:\n");
    extend_str(&mut m, h);
    proof {
        reveal_strlit("You are a document parser. Split the following text into logical sections.\n\nReturn ONLY a valid JSON object (no additional text). Format:\n{\"sections\":[{\"title\":\"short title\",\"content\":\"text belonging to this section\"},...]}\n\nText to parse:\n");
    }
    assert(m@ =~= segment_intro() + h@);
    assert(is_head(text@, 8000, h@));
    string_from(&m)
}

/// A section named by the model.
pub struct Section {
    /// Section title.
    pub title: String,
    /// Section text.
    pub content: String,
}

/// Whether a section is long enough to be split once more: more words than
/// the threshold.
pub fn needs_subsections(content: &str, threshold: usize) -> (r: bool)
    ensures
        r == (word_count(content@) > threshold),
{
    count_words(&str_chars(content)) > threshold
}

/// Whether `n` is the node of a top-level section `title`/`content` whose
/// second split gave `subs`: at depth 1; with more than one subsection it
/// has no text and one child per subsection, at depth 2, in order;
/// otherwise it is a leaf holding the section's text.
pub open spec fn is_section_node(n: PageNode, title: Seq<char>, content: Seq<char>, subs: Seq<Section>) -> bool {
    &&& n.title@ == title
    &&& n.summary@.len() == 0
    &&& n.depth == 1
    &&& n.start_page is None && n.end_page is None
    &&& n.node_id is None && n.physical_index is None
    &&& if subs.len() > 1 {
        &&& n.content@.len() == 0
        &&& n.children@.len() == subs.len()
        &&& forall|i: int| 0 <= i < subs.len() ==> {
            &&& (#[trigger] n.children@[i]).title@ == subs[i].title@
            &&& n.children@[i].content@ == subs[i].content@
            &&& n.children@[i].summary@.len() == 0
            &&& n.children@[i].depth == 2
            &&& n.children@[i].children@.len() == 0
            &&& n.children@[i].start_page is None && n.children@[i].end_page is None
            &&& n.children@[i].node_id is None && n.children@[i].physical_index is None
        }
    } else {
        &&& n.content@ == content
        &&& n.children@.len() == 0
    }
}

/// The node of a top-level section (see [`is_section_node`]); `subs` is
/// what the second split gave, empty where none was asked for.
pub fn section_node(title: &str, content: &str, subs: &Vec<Section>) -> (r: PageNode)
    ensures
        is_section_node(r, title@, content@, subs@),
{
    let mut node = PageNode::new(title, "");
    proof {
        reveal_strlit("");
    }
    node.depth = 1;
    if subs.len() > 1 {
        let mut i: usize = 0;
        while i < subs.len()
            invariant
                i <= subs.len(),
                subs.len() > 1,
                node.title@ == title@,
                node.content@.len() == 0,
                node.summary@.len() == 0,
                node.depth == 1,
                node.start_page is None && node.end_page is None,
                node.node_id is None && node.physical_index is None,
                node.children@.len() == i,
                forall|j: int| 0 <= j < i ==> {
                    &&& (#[trigger] node.children@[j]).title@ == subs@[j].title@
                    &&& node.children@[j].content@ == subs@[j].content@
                    &&& node.children@[j].summary@.len() == 0
                    &&& node.children@[j].depth == 2
                    &&& node.children@[j].children@.len() == 0
                    &&& node.children@[j].start_page is None && node.children@[j].end_page is None
                    &&& node.children@[j].node_id is None && node.children@[j].physical_index is None
                },
            decreases subs.len() - i,
        {
            let mut child = PageNode::new(subs[i].title.as_str(), subs[i].content.as_str());
            child.depth = 2;
            node.children.push(child);
            i = i + 1;
        }
    } else {
        node.content = string_from(&str_chars(content));
    }
    node
}

/// The tree of a parsed document: a root titled `root` with no text at
/// depth 0, whose children are the section nodes in order.
pub fn document_tree(sections: Vec<PageNode>) -> (r: PageNode)
    ensures
        r.title@ == "root"@,
        r.content@.len() == 0,
        r.summary@.len() == 0,
        r.depth == 0,
        r.start_page is None && r.end_page is None,
        r.node_id is None && r.physical_index is None,
        r.children@ == sections@,
{
    let mut root = PageNode::new("root", "");
    proof {
        reveal_strlit("root");
        reveal_strlit("");
    }
    root.children = sections;
    root
}

/// Errors of document parsing.
pub enum ParseError {
    /// The model call failed.
    Llm(String),
    /// The model's reply was not the JSON asked for.
    InvalidJson(String),
    /// Parsing failed.
    ParsingFailed(String),
}

/// The message of a parse error.
pub open spec fn parse_error_message(e: ParseError) -> Seq<char> {
    match e {
        ParseError::Llm(m) => "LLM error: "@ + m@,
        ParseError::InvalidJson(m) => "Invalid JSON response: "@ + m@,
        ParseError::ParsingFailed(m) => "Parsing failed: "@ + m@,
    }
}

impl ParseError {
    /// The error message.
    pub fn message(&self) -> (r: String)
        ensures
            r@ == parse_error_message(*self),
    {
        let mut m: Vec<char> = Vec::new();
        match self {
            ParseError::Llm(x) => {
                extend_str(&mut m, "LLM error: ");
                extend_str(&mut m, x.as_str());
            },
            ParseError::InvalidJson(x) => {
                extend_str(&mut m, "Invalid JSON response: ");
                extend_str(&mut m, x.as_str());
            },
            ParseError::ParsingFailed(x) => {
                extend_str(&mut m, "Parsing failed: ");
                extend_str(&mut m, x.as_str());
            },
        }
        assert(m@ =~= parse_error_message(*self));
        string_from(&m)
    }
}

} // verus!
