//! Summaries of a document tree, made by a language model: children before
//! their parent, a leaf from its own text, an inner node from its
//! children's summaries. Here stand the order of the nodes, the request for
//! each node and the prompts; asking the model, and writing each reply with
//! [`crate::markdown::set_summary`], is the caller's part.

use vstd::prelude::*;
use crate::config::IndexerConfig;
use crate::markdown::path_views;
use crate::node::{forest_size, node_at, PageNode, tree_size};
use crate::pdf::{byte_len, cuttable, head, is_head};
use crate::text::{extend_chars, extend_str, join, join_chars, str_chars, string_from, trim, trim_chars};

verus! {

/// The paths of the nodes of the tree rooted at `n` in post-order: a node
/// after its descendants, children in order.
pub open spec fn post_paths(n: PageNode) -> Seq<Seq<usize>>
    decreases n,
{
    forest_post_paths(n.children@) + seq![Seq::<usize>::empty()]
}

/// [`post_paths`] for a sequence of sibling trees, each path starting with
/// the index of its tree.
pub open spec fn forest_post_paths(s: Seq<PageNode>) -> Seq<Seq<usize>>
    decreases s,
{
    if s.len() == 0 {
        Seq::empty()
    } else {
        forest_post_paths(s.drop_last()) + post_paths(s.last()).map_values(
            |p: Seq<usize>| seq![(s.len() - 1) as usize] + p,
        )
    }
}

/// There is one path per node, and the root comes last.
pub proof fn lemma_post_paths_len(n: PageNode)
    ensures
        post_paths(n).len() == tree_size(n),
        post_paths(n).last() == Seq::<usize>::empty(),
    decreases n,
{
    lemma_forest_post_paths_len(n.children@);
}

/// There is one path per node of the sequence of trees.
pub proof fn lemma_forest_post_paths_len(s: Seq<PageNode>)
    ensures
        forest_post_paths(s).len() == forest_size(s),
    decreases s,
{
    if s.len() > 0 {
        lemma_forest_post_paths_len(s.drop_last());
        lemma_post_paths_len(s.last());
    }
}

fn copy_path(prefix: &Vec<usize>) -> (r: Vec<usize>)
    ensures
        r@ == prefix@,
{
    let mut p: Vec<usize> = Vec::new();
    let mut j: usize = 0;
    while j < prefix.len()
        invariant
            j <= prefix.len(),
            p@ == prefix@.take(j as int),
        decreases prefix.len() - j,
    {
        p.push(prefix[j]);
        assert(prefix@.take(j + 1) =~= prefix@.take(j as int).push(prefix@[j as int]));
        j = j + 1;
    }
    assert(prefix@.take(prefix.len() as int) =~= prefix@);
    p
}

fn collect_post(node: &PageNode, prefix: &Vec<usize>, out: &mut Vec<Vec<usize>>)
    ensures
        path_views(final(out)@) == path_views(old(out)@) + post_paths(*node).map_values(
            |p: Seq<usize>| prefix@ + p,
        ),
    decreases node,
{
    let ghost start = path_views(out@);
    let mut i: usize = 0;
    assert(node.children@.take(0) =~= Seq::<PageNode>::empty());
    assert(path_views(out@) =~= start + forest_post_paths(node.children@.take(0)).map_values(
        |p: Seq<usize>| prefix@ + p,
    ));
    while i < node.children.len()
        invariant
            i <= node.children.len(),
            path_views(out@) == start + forest_post_paths(node.children@.take(i as int)).map_values(
                |p: Seq<usize>| prefix@ + p,
            ),
        decreases node.children.len() - i,
    {
        let mut sub = copy_path(prefix);
        sub.push(i);
        assert(decreases_to!(*node => node.children@[i as int]));
        collect_post(&node.children[i], &sub, out);
        proof {
            let t = node.children@.take(i + 1);
            assert(t.drop_last() =~= node.children@.take(i as int));
            assert(t.last() == node.children@[i as int]);
            let a = forest_post_paths(node.children@.take(i as int));
            let b = post_paths(node.children@[i as int]).map_values(
                |p: Seq<usize>| seq![i as usize] + p,
            );
            assert(forest_post_paths(t) == a + b);
            assert((a + b).map_values(|p: Seq<usize>| prefix@ + p) =~= a.map_values(
                |p: Seq<usize>| prefix@ + p,
            ) + b.map_values(|p: Seq<usize>| prefix@ + p));
            assert(b.map_values(|p: Seq<usize>| prefix@ + p) =~= post_paths(
                node.children@[i as int],
            ).map_values(|p: Seq<usize>| sub@ + p)) by {
                assert forall|k: int| #![trigger b[k]] 0 <= k < b.len() implies b.map_values(
                    |p: Seq<usize>| prefix@ + p,
                )[k] == post_paths(node.children@[i as int]).map_values(
                    |p: Seq<usize>| sub@ + p,
                )[k] by {
                    let q = post_paths(node.children@[i as int])[k];
                    assert(prefix@ + (seq![i as usize] + q) =~= sub@ + q);
                }
            }
        }
        i = i + 1;
    }
    assert(node.children@.take(node.children.len() as int) =~= node.children@);
    let ghost mid = path_views(out@);
    out.push(copy_path(prefix));
    assert(post_paths(*node).map_values(|p: Seq<usize>| prefix@ + p) =~= forest_post_paths(
        node.children@,
    ).map_values(|p: Seq<usize>| prefix@ + p).push(prefix@)) by {
        assert(prefix@ + Seq::<usize>::empty() =~= prefix@);
    }
    assert(path_views(out@) =~= mid.push(prefix@));
}

/// The paths of all nodes in post-order (see [`post_paths`]): the order in
/// which their summaries are made.
pub fn summary_order(root: &PageNode) -> (r: Vec<Vec<usize>>)
    ensures
        path_views(r@) == post_paths(*root),
{
    let mut out: Vec<Vec<usize>> = Vec::new();
    let prefix: Vec<usize> = Vec::new();
    collect_post(root, &prefix, &mut out);
    assert(post_paths(*root).map_values(|p: Seq<usize>| prefix@ + p) =~= post_paths(*root)) by {
        assert forall|k: int| #![trigger post_paths(*root)[k]] 0 <= k < post_paths(*root).len() implies post_paths(
            *root,
        ).map_values(|p: Seq<usize>| prefix@ + p)[k] == post_paths(*root)[k] by {
            assert(prefix@ + post_paths(*root)[k] =~= post_paths(*root)[k]);
        }
    }
    assert(path_views(out@) =~= post_paths(*root));
    out
}

/// The line that stands for a child in its parent's summary text.
pub open spec fn child_line(c: PageNode) -> Seq<char> {
    "["@ + c.title@ + "]: "@ + c.summary@
}

/// The text a node is summarised from: a leaf's own text, or its
/// children's lines separated by blank lines.
pub open spec fn summary_text(n: PageNode) -> Seq<char> {
    if n.children@.len() == 0 {
        n.content@
    } else {
        join(n.children@.map_values(|c: PageNode| child_line(c)), "\n\n"@)
    }
}

/// The text a node is summarised from (see [`summary_text`]).
pub fn summary_source(node: &PageNode) -> (r: String)
    ensures
        r@ == summary_text(*node),
{
    if node.children.len() == 0 {
        return string_from(&str_chars(node.content.as_str()));
    }
    let mut lines: Vec<Vec<char>> = Vec::new();
    let mut i: usize = 0;
    while i < node.children.len()
        invariant
            i <= node.children.len(),
            lines@.map_values(|p: Vec<char>| p@) == node.children@.take(i as int).map_values(
                |c: PageNode| child_line(c),
            ),
        decreases node.children.len() - i,
    {
        let c = &node.children[i];
        let mut l: Vec<char> = Vec::new();
        extend_str(&mut l, "[");
        extend_str(&mut l, c.title.as_str());
        extend_str(&mut l, "]: ");
        extend_str(&mut l, c.summary.as_str());
        let ghost before = lines@.map_values(|p: Vec<char>| p@);
        lines.push(l);
        assert(lines@.map_values(|p: Vec<char>| p@) =~= before.push(child_line(node.children@[i as int])));
        assert(node.children@.take(i + 1).map_values(|c: PageNode| child_line(c)) =~= node.children@.take(
            i as int,
        ).map_values(|c: PageNode| child_line(c)).push(child_line(node.children@[i as int])));
        i = i + 1;
    }
    assert(node.children@.take(node.children.len() as int) =~= node.children@);
    let mut sep: Vec<char> = Vec::new();
    extend_str(&mut sep, "\n\n");
    string_from(&join_chars(&lines, &sep))
}

/// The opening of the summary prompt: the title, when there is one, then
/// the instruction.
pub open spec fn summarize_intro(title: Seq<char>) -> Seq<char> {
    (if title.len() == 0 {
        Seq::empty()
    } else {
        "This is the section titled: "@ + title + ".\n"@
    }) + "Summarize the following in 2-3 sentences. Be specific and factual. Do not add anything not in the text.\n\n"@
}

/// The prompt that asks for the summary of `text` under `title`: the
/// opening followed by the text cut after 3000 bytes.
pub fn summarize_prompt(text: &str, title: &str) -> (r: String)
    requires
        cuttable(text@, 3000),
    ensures
        exists|h: Seq<char>| is_head(text@, 3000, h) && r@ == summarize_intro(title@) + h,
{
    let h = head(text, 3000);
    let mut m: Vec<char> = Vec::new();
    if str_chars(title).len() > 0 {
        extend_str(&mut m, "This is the section titled: ");
        extend_str(&mut m, title);
        extend_str(&mut m, ".\n");
    }
    extend_str(&mut m, "Summarize the following in 2-3 sentences. Be specific and factual. Do not add anything not in the text.\n\n");
    extend_str(&mut m, h);
    assert(m@ =~= summarize_intro(title@) + h@);
    assert(is_head(text@, 3000, h@));
    string_from(&m)
}

/// What a node's summary comes from: the fixed text `(empty section)`, or
/// the model's reply to one request with a prompt and a token limit.
pub enum SummaryRequest {
    /// The summary is this text.
    Fixed(String),
    /// The summary is the model's reply to this prompt, within this many
    /// tokens.
    Ask { prompt: String, max_tokens: u32 },
}

/// Whether a node's summary is fixed: a leaf whose text is blank.
pub open spec fn summary_fixed(n: PageNode) -> bool {
    n.children@.len() == 0 && trim(n.content@).len() == 0
}

/// The request for a node's summary: `(empty section)` for a blank leaf,
/// else one model request with the summary prompt of its [`summary_text`]
/// under its title and the configured summary token limit.
pub fn node_summary_request(node: &PageNode, config: &IndexerConfig) -> (r: SummaryRequest)
    requires
        !summary_fixed(*node) ==> cuttable(summary_text(*node), 3000),
    ensures
        summary_fixed(*node) ==> (r matches SummaryRequest::Fixed(s) && s@ == "(empty section)"@),
        !summary_fixed(*node) ==> (r matches SummaryRequest::Ask { prompt, max_tokens }
            && max_tokens == config.max_summary_tokens && exists|h: Seq<char>|
            is_head(summary_text(*node), 3000, h) && prompt@ == summarize_intro(node.title@) + h),
{
    if node.children.len() == 0 && trim_chars(&str_chars(node.content.as_str())).len() == 0 {
        let mut m: Vec<char> = Vec::new();
        extend_str(&mut m, "(empty section)");
        return SummaryRequest::Fixed(string_from(&m));
    }
    let text = summary_source(node);
    SummaryRequest::Ask {
        prompt: summarize_prompt(text.as_str(), node.title.as_str()),
        max_tokens: config.max_summary_tokens,
    }
}

/// The text a Markdown section is summarised from: the whole text, or the
/// text cut after 3000 bytes followed by `...` when it is longer.
pub open spec fn md_excerpt(text: Seq<char>, h: Seq<char>) -> Seq<char> {
    if byte_len(text) > 3000 {
        h + "..."@
    } else {
        h
    }
}

/// The prompt that asks for the summary of a Markdown section.
pub fn md_summary_prompt(text: &str, title: &str) -> (r: String)
    requires
        cuttable(text@, 3000),
    ensures
        exists|h: Seq<char>| is_head(text@, 3000, h) && r@ == "Summarize the following section titled '"@
            + title@ + "' in 2-3 sentences. Be specific and factual:\n\n"@ + md_excerpt(text@, h),
{
    let h = head(text, 3000);
    let mut m: Vec<char> = Vec::new();
    extend_str(&mut m, "Summarize the following section titled '");
    extend_str(&mut m, title);
    extend_str(&mut m, "' in 2-3 sentences. Be specific and factual:\n\n");
    extend_str(&mut m, h);
    if text.len() > 3000 {
        extend_str(&mut m, "...");
    }
    assert(m@ =~= "Summarize the following section titled '"@ + title@
        + "' in 2-3 sentences. Be specific and factual:\n\n"@ + md_excerpt(text@, h@));
    assert(is_head(text@, 3000, h@));
    string_from(&m)
}

/// Errors of summary making.
pub enum IndexError {
    /// The model call failed.
    Llm(String),
    /// A summary could not be made.
    SummaryFailed(String),
}

/// The message of a summary error.
pub open spec fn index_error_message(e: IndexError) -> Seq<char> {
    match e {
        IndexError::Llm(m) => "LLM error: "@ + m@,
        IndexError::SummaryFailed(m) => "Summary generation failed: "@ + m@,
    }
}

impl IndexError {
    /// The error message.
    pub fn message(&self) -> (r: String)
        ensures
            r@ == index_error_message(*self),
    {
        let mut m: Vec<char> = Vec::new();
        match self {
            IndexError::Llm(x) => {
                extend_str(&mut m, "LLM error: ");
                extend_str(&mut m, x.as_str());
            },
            IndexError::SummaryFailed(x) => {
                extend_str(&mut m, "Summary generation failed: ");
                extend_str(&mut m, x.as_str());
            },
        }
        assert(m@ =~= index_error_message(*self));
        string_from(&m)
    }
}


/// Every path of [`post_paths`] leads to a node of the tree.
pub proof fn lemma_post_paths_sound(n: PageNode, k: int)
    requires
        0 <= k < post_paths(n).len(),
    ensures
        node_at(n, post_paths(n)[k]) is Some,
    decreases n, n.children@.len() + 1,
{
    let f = forest_post_paths(n.children@);
    if k < f.len() {
        assert(n.children@.take(n.children@.len() as int) =~= n.children@);
        lemma_forest_post_paths_sound(n, n.children@, k);
        let p = f[k];
        assert(post_paths(n)[k] == p);
        assert(seq![p[0]] + p.drop_first() =~= p);
    } else {
        assert(post_paths(n)[k] == Seq::<usize>::empty());
    }
}

/// [`lemma_post_paths_sound`] for the children of `n`; each path starts
/// with the index of its tree.
pub proof fn lemma_forest_post_paths_sound(n: PageNode, s: Seq<PageNode>, k: int)
    requires
        s.len() <= n.children@.len(),
        s == n.children@.take(s.len() as int),
        0 <= k < forest_post_paths(s).len(),
    ensures
        forest_post_paths(s)[k].len() > 0,
        forest_post_paths(s)[k][0] < s.len(),
        node_at(n, seq![forest_post_paths(s)[k][0]] + forest_post_paths(s)[k].drop_first()) is Some,
    decreases n, s.len(),
{
    let prev = forest_post_paths(s.drop_last());
    let last = s.len() - 1;
    if k < prev.len() {
        assert(s.drop_last() =~= n.children@.take(last));
        lemma_forest_post_paths_sound(n, s.drop_last(), k);
        assert(forest_post_paths(s)[k] == prev[k]);
    } else {
        let q = post_paths(s.last())[k - prev.len()];
        assert(s.last() == n.children@[last]);
        assert(decreases_to!(n => n.children@[last]));
        lemma_post_paths_sound(n.children@[last], k - prev.len());
        let p = seq![last as usize] + q;
        assert(forest_post_paths(s)[k] == p);
        assert(p[0] == last as usize);
        assert(p.drop_first() =~= q);
        assert(seq![p[0]] + p.drop_first() =~= p);
        assert(n.children@.len() == n.children.len());
        assert((last as usize) as int == last);
        assert(node_at(n, p) == node_at(n.children@[last], q));
    }
}

/// No path occurs twice in [`post_paths`].
pub proof fn lemma_post_paths_distinct(n: PageNode)
    ensures
        forall|i: int, j: int| 0 <= i < j < post_paths(n).len() ==> post_paths(n)[i] != post_paths(n)[j],
    decreases n, n.children@.len() + 1,
{
    let f = forest_post_paths(n.children@);
    assert(n.children@.take(n.children@.len() as int) =~= n.children@);
    lemma_forest_post_paths_distinct(n, n.children@);
    assert forall|i: int, j: int| 0 <= i < j < post_paths(n).len() implies post_paths(n)[i] != post_paths(n)[j] by {
        if j == f.len() {
            lemma_forest_post_paths_sound(n, n.children@, i);
            assert(post_paths(n)[i] == f[i]);
            assert(f[i].len() > 0);
        } else {
            assert(post_paths(n)[i] == f[i]);
            assert(post_paths(n)[j] == f[j]);
        }
    }
}

/// No path occurs twice in [`forest_post_paths`].
pub proof fn lemma_forest_post_paths_distinct(n: PageNode, s: Seq<PageNode>)
    requires
        s.len() <= n.children@.len(),
        s == n.children@.take(s.len() as int),
    ensures
        forall|i: int, j: int| 0 <= i < j < forest_post_paths(s).len() ==> forest_post_paths(s)[i] != forest_post_paths(s)[j],
    decreases n, s.len(),
{
    if s.len() > 0 {
        let prev = forest_post_paths(s.drop_last());
        let last = s.len() - 1;
        let tail = post_paths(s.last());
        let f = forest_post_paths(s);
        assert(s.drop_last() =~= n.children@.take(last));
        lemma_forest_post_paths_distinct(n, s.drop_last());
        assert(s.last() == n.children@[last]);
        assert(decreases_to!(n => n.children@[last]));
        lemma_post_paths_distinct(n.children@[last]);
        assert(n.children@.len() == n.children.len());
        assert((last as usize) as int == last);
        assert forall|i: int, j: int| 0 <= i < j < f.len() implies f[i] != f[j] by {
            if j < prev.len() {
                assert(f[i] == prev[i]);
                assert(f[j] == prev[j]);
            } else if i < prev.len() {
                lemma_forest_post_paths_sound(n, s.drop_last(), i);
                assert(f[i] == prev[i]);
                assert(f[j] == seq![last as usize] + tail[j - prev.len()]);
                assert(f[j][0] == last as usize);
            } else {
                let a = tail[i - prev.len()];
                let b = tail[j - prev.len()];
                assert(f[i] == seq![last as usize] + a);
                assert(f[j] == seq![last as usize] + b);
                if f[i] == f[j] {
                    assert(f[i].drop_first() =~= a);
                    assert(f[j].drop_first() =~= b);
                }
            }
        }
    }
}

/// Every node gets its summary once: the order (that of [`post_paths`])
/// lists one path per node of the tree, each leading to a node, no path
/// twice, and the root last.
pub proof fn lemma_summary_order(n: PageNode)
    ensures
        post_paths(n).len() == tree_size(n),
        post_paths(n).last() == Seq::<usize>::empty(),
        forall|k: int| 0 <= k < post_paths(n).len() ==> node_at(n, #[trigger] post_paths(n)[k]) is Some,
        forall|i: int, j: int| 0 <= i < j < post_paths(n).len() ==> post_paths(n)[i] != post_paths(n)[j],
{
    lemma_post_paths_len(n);
    lemma_post_paths_distinct(n);
    assert forall|k: int| 0 <= k < post_paths(n).len() implies node_at(n, #[trigger] post_paths(n)[k]) is Some by {
        lemma_post_paths_sound(n, k);
    }
}

} // verus!
