//! Retrieval over document trees: the retrieval modes, the steps of a path
//! through the tree, retrieval of the sections in a page range, the path
//! context of a navigation, and the reading of a model's choice of child.

use vstd::prelude::*;
use crate::node::{PageNode, covers, forest_preorder, preorder};
use crate::pagespec::{insert_range, range_set, strictly_increasing};
use crate::pdf::simple_tokens;
use crate::text::{
    clone_opt, decimal, decimal_chars, extend_chars, extend_str, join, join_chars, opt_view,
    parse_usize, parse_usize_chars, str_chars, string_from, trim, trim_bounds,
};
use crate::tree_builder::{derefs, lemma_forest_preorder_take};

verus! {

/// Retrieval strategy.
#[derive(Clone, Copy, Debug, PartialEq, Eq, Structural)]
pub enum RetrieveMode {
    /// Walk down to the most relevant leaf and return its text.
    TreeNavigation,
    /// Every section whose pages meet `start..=end`.
    PageRange {
        /// First page.
        start: usize,
        /// Last page.
        end: usize,
    },
    /// The `top_k` most relevant branches below the root.
    MultiPath {
        /// Number of branches.
        top_k: usize,
    },
    /// The target of a navigation with the summaries along its path.
    PathContext,
    /// Path context and the most relevant branches together.
    Comprehensive {
        /// Number of branches.
        top_k: usize,
    },
}

/// A step of the path through the tree.
pub struct PathStep {
    /// Title of the section at this level.
    pub title: String,
    /// Its summary.
    pub summary: String,
    /// Its depth.
    pub depth: usize,
    /// Its identifier, if any.
    pub node_id: Option<String>,
}

/// Metadata of a retrieval.
pub struct RetrieveMetadata {
    /// Number of sections retrieved.
    pub section_count: usize,
    /// Estimated tokens of the retrieved text.
    pub total_tokens: usize,
    /// Pages covered.
    pub pages_covered: Vec<usize>,
    /// Mode used.
    pub mode: RetrieveMode,
    /// Whether the retrieval found anything.
    pub success: bool,
}

impl Default for RetrieveMetadata {
    fn default() -> (r: RetrieveMetadata)
        ensures
            r.section_count == 0,
            r.total_tokens == 0,
            r.pages_covered@.len() == 0,
            r.mode == RetrieveMode::TreeNavigation,
            r.success,
    {
        RetrieveMetadata {
            section_count: 0,
            total_tokens: 0,
            pages_covered: Vec::new(),
            mode: RetrieveMode::TreeNavigation,
            success: true,
        }
    }
}

/// Retrieval errors.
pub enum RetrieveError {
    /// Model error, with its message.
    Llm(String),
    /// A reply that could not be used, with the reason.
    InvalidResponse(String),
    /// A node without children where one was needed.
    NoChildren,
    /// Retrieval failed, with the reason.
    RetrievalFailed(String),
}

/// Estimated token count of a text: 0 when empty, else one per four bytes
/// and at least one.
pub fn estimate_tokens(text: &str) -> (r: usize)
    ensures
        r == simple_tokens(text@),
{
    crate::pdf::estimate_tokens(text)
}

/// Whether `s` is the path step of node `n`.
pub open spec fn is_step_of(s: PathStep, n: PageNode) -> bool {
    &&& s.title@ == n.title@
    &&& s.summary@ == n.summary@
    &&& s.depth == n.depth
    &&& opt_view(s.node_id) == opt_view(n.node_id)
}

/// The path step of a node: its title, summary, depth and identifier.
pub fn path_step(node: &PageNode) -> (r: PathStep)
    ensures
        is_step_of(r, *node),
{
    PathStep {
        title: node.title.clone(),
        summary: node.summary.clone(),
        depth: node.depth,
        node_id: clone_opt(&node.node_id),
    }
}

// ------------------------------------------------------------------
// Page ranges
// ------------------------------------------------------------------

/// Whether page-range retrieval takes node `n`: its pages meet
/// `start..=end`, or it lacks a page bound.
pub open spec fn range_hit(n: PageNode, start: usize, end: usize) -> bool {
    match (n.start_page, n.end_page) {
        (Some(a), Some(b)) => a <= end && b >= start,
        _ => true,
    }
}

/// [`range_hit`] as a predicate.
pub open spec fn range_hit_pred(start: usize, end: usize) -> spec_fn(PageNode) -> bool {
    |n: PageNode| range_hit(n, start, end)
}

fn collect_hits<'a>(node: &'a PageNode, start: usize, end: usize, out: &mut Vec<&'a PageNode>)
    ensures
        derefs(final(out)@) == derefs(old(out)@) + preorder(*node).filter(range_hit_pred(start, end)),
    decreases node,
{
    let ghost pred = range_hit_pred(start, end);
    let ghost before = derefs(out@);
    let hit = match (node.start_page, node.end_page) {
        (Some(a), Some(b)) => a <= end && b >= start,
        _ => true,
    };
    if hit {
        out.push(node);
    }
    proof {
        assert(seq![*node].filter(pred) =~= (if hit { seq![*node] } else { Seq::empty() })) by {
            assert(seq![*node] =~= Seq::<PageNode>::empty().push(*node));
            Seq::<PageNode>::empty().lemma_filter_push(*node, pred);
            assert(Seq::<PageNode>::empty().filter(pred) =~= Seq::<PageNode>::empty());
        }
        assert(derefs(out@) =~= before + seq![*node].filter(pred));
        assert(node.children@.take(0) =~= Seq::<PageNode>::empty());
        assert(seq![*node] + forest_preorder(node.children@.take(0)) =~= seq![*node]);
    }
    let mut i: usize = 0;
    while i < node.children.len()
        invariant
            i <= node.children.len(),
            pred == range_hit_pred(start, end),
            derefs(out@) == before + (seq![*node] + forest_preorder(node.children@.take(i as int))).filter(pred),
        decreases node.children.len() - i,
    {
        assert(decreases_to!(*node => node.children@[i as int]));
        collect_hits(&node.children[i], start, end, out);
        proof {
            lemma_forest_preorder_take(node.children@, i as int);
            let a = seq![*node] + forest_preorder(node.children@.take(i as int));
            let b = preorder(node.children@[i as int]);
            assert(seq![*node] + forest_preorder(node.children@.take(i + 1)) =~= a + b);
            Seq::filter_distributes_over_add(a, b, pred);
        }
        i = i + 1;
    }
    assert(node.children@.take(node.children.len() as int) =~= node.children@);
}

/// The nodes, in pre-order, whose pages meet `start..=end`, together with
/// the nodes that lack a page bound (the root among them).
pub fn collect_nodes_in_page_range_recursive<'a>(root: &'a PageNode, start: usize, end: usize) -> (r:
    Vec<&'a PageNode>)
    ensures
        derefs(r@) == preorder(*root).filter(range_hit_pred(start, end)),
{
    let mut out: Vec<&PageNode> = Vec::new();
    collect_hits(root, start, end, &mut out);
    assert(derefs(Seq::<&PageNode>::empty()) =~= Seq::<PageNode>::empty());
    assert(Seq::<PageNode>::empty() + preorder(*root).filter(range_hit_pred(start, end))
        =~= preorder(*root).filter(range_hit_pred(start, end)));
    out
}

/// The pages of a section: `start..=end` when both bounds are known,
/// otherwise none.
pub open spec fn section_pages(n: PageNode) -> Seq<usize> {
    match (n.start_page, n.end_page) {
        (Some(a), Some(b)) => if a <= b {
            Seq::new((b - a + 1) as nat, |k: int| (a + k) as usize)
        } else {
            Seq::empty()
        },
        _ => Seq::empty(),
    }
}

/// The pages of a section (see [`section_pages`]).
pub fn extract_pages_from_section(node: &PageNode) -> (r: Vec<usize>)
    ensures
        r@ == section_pages(*node),
{
    let mut out: Vec<usize> = Vec::new();
    if let (Some(a), Some(b)) = (node.start_page, node.end_page) {
        if a <= b {
            let mut p = a;
            loop
                invariant_except_break
                    a <= p <= b,
                    out@ == Seq::new((p - a) as nat, |k: int| (a + k) as usize),
                ensures
                    out@ == Seq::new((b - a + 1) as nat, |k: int| (a + k) as usize),
                decreases b - p,
            {
                out.push(p);
                assert(out@ =~= Seq::new((p + 1 - a) as nat, |k: int| (a + k) as usize));
                if p == b {
                    break;
                }
                p = p + 1;
            }
        }
    }
    out
}

/// A retrieved section, without a relevance score.
pub struct SectionInfo {
    /// Section title.
    pub title: String,
    /// Section text.
    pub content: String,
    /// Section summary.
    pub summary: String,
    /// Page range, when both bounds are known.
    pub page_range: Option<(usize, usize)>,
    /// Node identifier, if any.
    pub node_id: Option<String>,
    /// Depth in the tree.
    pub depth: usize,
}

/// Whether `s` is the section of node `n`.
pub open spec fn is_section_of(s: SectionInfo, n: PageNode) -> bool {
    &&& s.title@ == n.title@
    &&& s.content@ == n.content@
    &&& s.summary@ == n.summary@
    &&& s.page_range == (match (n.start_page, n.end_page) {
        (Some(a), Some(b)) => Some((a, b)),
        _ => None,
    })
    &&& opt_view(s.node_id) == opt_view(n.node_id)
    &&& s.depth == n.depth
}

/// The result of a retrieval without relevance scores.
pub struct SectionsResult {
    /// The combined answer text.
    pub answer: String,
    /// The sections retrieved.
    pub sections: Vec<SectionInfo>,
    /// The path taken through the tree.
    pub path: Vec<PathStep>,
    /// Metadata.
    pub metadata: RetrieveMetadata,
}

/// Sum of the token estimates of the nodes' texts.
pub open spec fn tokens_of(nodes: Seq<PageNode>) -> nat
    decreases nodes.len(),
{
    if nodes.len() == 0 {
        0
    } else {
        tokens_of(nodes.drop_last()) + simple_tokens(nodes.last().content@)
    }
}

/// Whether node `n` has both page bounds and covers page `p`, and `p` lies
/// in `start..=end`.
pub open spec fn covers_within(n: PageNode, p: usize, start: usize, end: usize) -> bool {
    match (n.start_page, n.end_page) {
        (Some(a), Some(b)) => a <= p && p <= b && start <= p && p <= end,
        _ => false,
    }
}

/// The pages within `start..=end` that some node's page range covers.
pub open spec fn covered_pages(nodes: Seq<PageNode>, start: usize, end: usize) -> Set<usize> {
    Set::new(
        |p: usize| exists|k: int| 0 <= k < nodes.len() && covers_within(#[trigger] nodes[k], p, start, end),
    )
}

/// `"## {title}\n\n{content}"`.
pub open spec fn section_block(n: PageNode) -> Seq<char> {
    "## "@ + n.title@ + "\n\n"@ + n.content@
}

/// Retrieves every section in a page range: the nodes in pre-order whose
/// pages meet `start..=end` or that lack a page bound; the answer joins
/// `"## {title}\n\n{content}"` of each with `"\n\n---\n\n"`; the metadata
/// counts the sections and their tokens, lists the pages within the range
/// that they cover (increasing), and reports success when there is a
/// section.
pub fn retrieve_page_range(root: &PageNode, start: usize, end: usize) -> (r: SectionsResult)
    requires
        tokens_of(preorder(*root).filter(range_hit_pred(start, end))) <= usize::MAX,
    ensures
        ({
            let nodes = preorder(*root).filter(range_hit_pred(start, end));
            &&& r.sections@.len() == nodes.len()
            &&& forall|i: int| 0 <= i < nodes.len() ==> is_section_of(#[trigger] r.sections@[i], nodes[i])
            &&& r.answer@ == join(nodes.map_values(|n: PageNode| section_block(n)), "\n\n---\n\n"@)
            &&& r.path@.len() == 0
            &&& r.metadata.section_count == nodes.len()
            &&& r.metadata.total_tokens == tokens_of(nodes)
            &&& strictly_increasing(r.metadata.pages_covered@)
            &&& r.metadata.pages_covered@.to_set() == covered_pages(nodes, start, end)
            &&& r.metadata.mode == (RetrieveMode::PageRange { start, end })
            &&& r.metadata.success == (nodes.len() > 0)
        }),
{
    let nodes = collect_nodes_in_page_range_recursive(root, start, end);
    let ghost ns = derefs(nodes@);
    let mut sections: Vec<SectionInfo> = Vec::new();
    let mut blocks: Vec<Vec<char>> = Vec::new();
    let mut covered: Vec<usize> = Vec::new();
    let mut total: usize = 0;
    let mut i: usize = 0;
    assert(covered@.to_set() =~= covered_pages(ns.take(0), start, end));
    while i < nodes.len()
        invariant
            i <= nodes.len(),
            ns == derefs(nodes@),
            ns == preorder(*root).filter(range_hit_pred(start, end)),
            tokens_of(ns) <= usize::MAX,
            sections@.len() == i,
            forall|k: int| 0 <= k < i ==> is_section_of(#[trigger] sections@[k], ns[k]),
            blocks@.map_values(|b: Vec<char>| b@) == ns.take(i as int).map_values(|n: PageNode| section_block(n)),
            total == tokens_of(ns.take(i as int)),
            strictly_increasing(covered@),
            covered@.to_set() == covered_pages(ns.take(i as int), start, end),
        decreases nodes.len() - i,
    {
        let node: &PageNode = nodes[i];
        assert(*node == ns[i as int]);
        let ghost before_cov = covered@.to_set();
        assert(ns.take(i + 1).drop_last() =~= ns.take(i as int));
        assert(ns.take(i + 1).last() == ns[i as int]);
        proof {
            crate::retrieve::lemma_tokens_prefix(ns, i + 1);
        }
        total = total + estimate_tokens(node.content.as_str());
        let range = match (node.start_page, node.end_page) {
            (Some(a), Some(b)) => Some((a, b)),
            _ => None,
        };
        if let Some((a, b)) = range {
            let lo = if a > start { a } else { start };
            let hi = if b < end { b } else { end };
            if lo <= hi {
                insert_range(&mut covered, lo, hi);
            }
        }
        proof {
            assert forall|p: usize| covered@.to_set().contains(p) <==> covered_pages(ns.take(i + 1), start, end).contains(p) by {
                if covered_pages(ns.take(i + 1), start, end).contains(p) {
                    let k = choose|k: int|
                        0 <= k < ns.take(i + 1).len() && covers_within(#[trigger] ns.take(i + 1)[k], p, start, end);
                    if k < i {
                        assert(ns.take(i as int)[k] == ns.take(i + 1)[k]);
                        assert(covered_pages(ns.take(i as int), start, end).contains(p));
                    }
                }
                if before_cov.contains(p) {
                    assert(covered_pages(ns.take(i as int), start, end).contains(p));
                    let k = choose|k: int|
                        0 <= k < ns.take(i as int).len() && covers_within(#[trigger] ns.take(i as int)[k], p, start, end);
                    assert(ns.take(i + 1)[k] == ns.take(i as int)[k]);
                }
                if covered@.to_set().contains(p) && !before_cov.contains(p) {
                    assert(range_set(
                        if node.start_page.unwrap() > start { node.start_page.unwrap() } else { start },
                        if node.end_page.unwrap() < end { node.end_page.unwrap() } else { end },
                    ).contains(p));
                    assert(ns.take(i + 1)[i as int] == *node);
                }
            }
            assert(covered@.to_set() =~= covered_pages(ns.take(i + 1), start, end));
        }
        let mut block: Vec<char> = Vec::new();
        extend_str(&mut block, "## ");
        extend_str(&mut block, node.title.as_str());
        extend_str(&mut block, "\n\n");
        extend_str(&mut block, node.content.as_str());
        let ghost bv = blocks@;
        assert(block@ =~= section_block(*node));
        blocks.push(block);
        proof {
            assert(blocks@.map_values(|b: Vec<char>| b@) =~= bv.map_values(|b: Vec<char>| b@).push(section_block(*node)));
            assert(blocks@.map_values(|b: Vec<char>| b@) =~= ns.take(i + 1).map_values(|n: PageNode| section_block(n)));
        }
        sections.push(
            SectionInfo {
                title: node.title.clone(),
                content: node.content.clone(),
                summary: node.summary.clone(),
                page_range: range,
                node_id: clone_opt(&node.node_id),
                depth: node.depth,
            },
        );
        i = i + 1;
    }
    assert(ns.take(nodes.len() as int) =~= ns);
    let mut sep: Vec<char> = Vec::new();
    extend_str(&mut sep, "\n\n---\n\n");
    let answer = string_from(&join_chars(&blocks, &sep));
    let section_count = sections.len();
    let success = section_count > 0;
    SectionsResult {
        answer,
        sections,
        path: Vec::new(),
        metadata: RetrieveMetadata {
            section_count,
            total_tokens: total,
            pages_covered: covered,
            mode: RetrieveMode::PageRange { start, end },
            success,
        },
    }
}

/// The children of `root` at the indices in `chosen`, in that order.
pub open spec fn chosen_children(root: PageNode, chosen: Seq<usize>) -> Seq<PageNode> {
    chosen.map_values(|i: usize| root.children@[i as int])
}

/// The pages that the page range of some node covers.
pub open spec fn spanned_pages(nodes: Seq<PageNode>) -> Set<usize> {
    Set::new(|p: usize| exists|k: int| 0 <= k < nodes.len() && covers(#[trigger] nodes[k], p))
}

/// The sections gathered from chosen children: their sections in order,
/// the sum of their token estimates, and the pages they cover.
pub struct ChosenSections {
    /// The section of each chosen child, in the order chosen.
    pub sections: Vec<SectionInfo>,
    /// The token estimates of their texts, added up.
    pub total_tokens: usize,
    /// The pages that their page ranges cover, increasing, each once.
    pub pages_covered: Vec<usize>,
}

/// Gathers the children of `root` at the indices in `chosen` (the branches
/// a multi-path retrieval picked): the section of each in the order given,
/// their tokens added up, and every page that their page ranges cover.
pub fn sections_of_children(root: &PageNode, chosen: &[usize]) -> (r: ChosenSections)
    requires
        forall|k: int| 0 <= k < chosen.len() ==> chosen[k] < root.children@.len(),
        tokens_of(chosen_children(*root, chosen@)) <= usize::MAX,
    ensures
        ({
            let nodes = chosen_children(*root, chosen@);
            &&& r.sections@.len() == nodes.len()
            &&& forall|i: int| 0 <= i < nodes.len() ==> is_section_of(#[trigger] r.sections@[i], nodes[i])
            &&& r.total_tokens == tokens_of(nodes)
            &&& strictly_increasing(r.pages_covered@)
            &&& r.pages_covered@.to_set() == spanned_pages(nodes)
        }),
{
    let ghost ns = chosen_children(*root, chosen@);
    let mut sections: Vec<SectionInfo> = Vec::new();
    let mut covered: Vec<usize> = Vec::new();
    let mut total: usize = 0;
    let mut i: usize = 0;
    assert(covered@.to_set() =~= spanned_pages(ns.take(0)));
    while i < chosen.len()
        invariant
            i <= chosen.len(),
            ns == chosen_children(*root, chosen@),
            forall|k: int| 0 <= k < chosen.len() ==> chosen[k] < root.children@.len(),
            tokens_of(ns) <= usize::MAX,
            sections@.len() == i,
            forall|k: int| 0 <= k < i ==> is_section_of(#[trigger] sections@[k], ns[k]),
            total == tokens_of(ns.take(i as int)),
            strictly_increasing(covered@),
            covered@.to_set() == spanned_pages(ns.take(i as int)),
        decreases chosen.len() - i,
    {
        let node: &PageNode = &root.children[chosen[i]];
        assert(*node == ns[i as int]);
        let ghost before_cov = covered@.to_set();
        assert(ns.take(i + 1).drop_last() =~= ns.take(i as int));
        assert(ns.take(i + 1).last() == ns[i as int]);
        proof {
            lemma_tokens_prefix(ns, i + 1);
        }
        total = total + estimate_tokens(node.content.as_str());
        if let (Some(a), Some(b)) = (node.start_page, node.end_page) {
            if a <= b {
                insert_range(&mut covered, a, b);
            }
        }
        proof {
            assert forall|p: usize| covered@.to_set().contains(p) <==> spanned_pages(ns.take(i + 1)).contains(p) by {
                if spanned_pages(ns.take(i + 1)).contains(p) {
                    let k = choose|k: int| 0 <= k < ns.take(i + 1).len() && covers(#[trigger] ns.take(i + 1)[k], p);
                    if k < i {
                        assert(ns.take(i as int)[k] == ns.take(i + 1)[k]);
                        assert(spanned_pages(ns.take(i as int)).contains(p));
                    }
                }
                if before_cov.contains(p) {
                    assert(spanned_pages(ns.take(i as int)).contains(p));
                    let k = choose|k: int| 0 <= k < ns.take(i as int).len() && covers(#[trigger] ns.take(i as int)[k], p);
                    assert(ns.take(i + 1)[k] == ns.take(i as int)[k]);
                }
                if covered@.to_set().contains(p) && !before_cov.contains(p) {
                    assert(range_set(node.start_page.unwrap(), node.end_page.unwrap()).contains(p));
                    assert(ns.take(i + 1)[i as int] == *node);
                }
            }
            assert(covered@.to_set() =~= spanned_pages(ns.take(i + 1)));
        }
        sections.push(section_of(node));
        i = i + 1;
    }
    assert(ns.take(chosen.len() as int) =~= ns);
    ChosenSections { sections, total_tokens: total, pages_covered: covered }
}

/// The sections of a page-range retrieval (see [`retrieve_page_range`])
/// are the nodes of the tree that meet the range: each retrieved node with
/// both page bounds `(a, b)` has `a <= end` and `b >= start`, so a node
/// that ends before `start` or begins after `end` is never retrieved; every
/// retrieved node is a node of the tree; and every node of the tree that
/// lacks a page bound or meets the range is retrieved.
pub proof fn lemma_page_range_hits(root: PageNode, start: usize, end: usize)
    ensures
        forall|k: int|
            0 <= k < preorder(root).filter(range_hit_pred(start, end)).len() ==> {
                let n = #[trigger] preorder(root).filter(range_hit_pred(start, end))[k];
                &&& preorder(root).contains(n)
                &&& (n.start_page is Some && n.end_page is Some) ==> n.start_page->0 <= end && n.end_page->0 >= start
            },
        forall|i: int|
            0 <= i < preorder(root).len() && (#[trigger] preorder(root)[i].start_page is None
                || preorder(root)[i].end_page is None || (preorder(root)[i].start_page->0 <= end
                && preorder(root)[i].end_page->0 >= start)) ==> preorder(root).filter(
                range_hit_pred(start, end),
            ).contains(preorder(root)[i]),
{
    let pre = preorder(root);
    let f = pre.filter(range_hit_pred(start, end));
    assert forall|k: int| 0 <= k < f.len() implies {
        let n = #[trigger] f[k];
        &&& pre.contains(n)
        &&& (n.start_page is Some && n.end_page is Some) ==> n.start_page->0 <= end && n.end_page->0 >= start
    } by {
        pre.lemma_filter_pred(range_hit_pred(start, end), k);
        assert(f.contains(f[k]));
        pre.lemma_filter_contains_rev(range_hit_pred(start, end), f[k]);
    }
    assert forall|i: int|
        0 <= i < pre.len() && (#[trigger] pre[i].start_page is None || pre[i].end_page is None || (
        pre[i].start_page->0 <= end && pre[i].end_page->0 >= start)) implies f.contains(pre[i]) by {
        assert(range_hit_pred(start, end)(pre[i]));
        pre.lemma_filter_contains(range_hit_pred(start, end), i);
    }
}

/// A prefix of the nodes has no more tokens than all of them.
pub proof fn lemma_tokens_prefix(nodes: Seq<PageNode>, k: int)
    requires
        0 <= k <= nodes.len(),
    ensures
        tokens_of(nodes.take(k)) <= tokens_of(nodes),
    decreases nodes.len() - k,
{
    if k < nodes.len() {
        lemma_tokens_prefix(nodes, k + 1);
        assert(nodes.take(k + 1).drop_last() =~= nodes.take(k));
    } else {
        assert(nodes.take(k) =~= nodes);
    }
}

// ------------------------------------------------------------------
// Path context
// ------------------------------------------------------------------

/// Index of the first tree in `s` titled `t`.
pub open spec fn first_titled(s: Seq<PageNode>, t: Seq<char>) -> Option<int>
    decreases s.len(),
{
    if s.len() == 0 {
        None
    } else if s[0].title@ == t {
        Some(0)
    } else {
        match first_titled(s.drop_first(), t) {
            Some(i) => Some(i + 1),
            None => None,
        }
    }
}

/// Characterisation of [`first_titled`] by its defining property.
pub proof fn lemma_first_titled_is(s: Seq<PageNode>, t: Seq<char>, i: int)
    requires
        0 <= i <= s.len(),
        forall|j: int| 0 <= j < i ==> (#[trigger] s[j]).title@ != t,
        i < s.len() ==> s[i].title@ == t,
    ensures
        first_titled(s, t) == (if i < s.len() { Some(i) } else { None::<int> }),
    decreases s.len(),
{
    if s.len() > 0 && i > 0 {
        assert forall|j: int| 0 <= j < i - 1 implies (#[trigger] s.drop_first()[j]).title@ != t by {
            assert(s.drop_first()[j] == s[j + 1]);
        }
        if i < s.len() {
            assert(s.drop_first()[i - 1] == s[i]);
        }
        lemma_first_titled_is(s.drop_first(), t, i - 1);
        assert(s[0].title@ != t);
    }
}

/// The nodes of the path context: from `n`, while fewer than
/// `titles.len()` nodes are taken, the first child titled like the step
/// whose place is the number of nodes taken so far minus one.
pub open spec fn context_nodes(n: PageNode, titles: Seq<Seq<char>>, k: int) -> Seq<PageNode>
    decreases titles.len() - k,
{
    if 0 <= k && k + 1 < titles.len() {
        seq![n] + match first_titled(n.children@, titles[k]) {
            Some(c) => if 0 <= c < n.children@.len() {
                context_nodes(n.children@[c], titles, k + 1)
            } else {
                Seq::empty()
            },
            None => Seq::empty(),
        }
    } else {
        seq![n]
    }
}

/// The titles of path steps.
pub open spec fn step_titles(path: Seq<PathStep>) -> Seq<Seq<char>> {
    path.map_values(|s: PathStep| s.title@)
}

/// The path context from the root: one step per node of
/// [`context_nodes`] along the titles of `path`.
pub fn build_enhanced_path_context(root: &PageNode, path: &[PathStep]) -> (r: Vec<PathStep>)
    ensures
        r@.len() == context_nodes(*root, step_titles(path@), 0).len(),
        forall|i: int|
            0 <= i < r@.len() ==> is_step_of(#[trigger] r@[i], context_nodes(*root, step_titles(path@), 0)[i]),
{
    let ghost titles = step_titles(path@);
    let ghost full = context_nodes(*root, titles, 0);
    let mut out: Vec<PathStep> = Vec::new();
    let ghost mut done: Seq<PageNode> = Seq::empty();
    let mut cur = root;
    loop
        invariant
            titles == step_titles(path@),
            full == context_nodes(*root, titles, 0),
            out@.len() == done.len(),
            done + context_nodes(*cur, titles, done.len() as int) == full,
            forall|i: int| 0 <= i < out@.len() ==> is_step_of(#[trigger] out@[i], done[i]),
            out@.len() < path@.len() || out@.len() == 0,
        decreases path@.len() - out@.len(),
    {
        let k = out.len();
        out.push(path_step(cur));
        proof {
            done = done.push(*cur);
        }
        if k < path.len() && path.len() - k > 1 {
            let want = &path[k].title;
            assert(titles[k as int] == want@);
            let wv = str_chars(want.as_str());
            let mut j: usize = 0;
            while j < cur.children.len() && !crate::text::chars_eq(
                &str_chars(cur.children[j].title.as_str()),
                &wv,
            )
                invariant
                    j <= cur.children.len(),
                    wv@ == want@,
                    forall|m: int| 0 <= m < j ==> (#[trigger] cur.children@[m]).title@ != want@,
                decreases cur.children.len() - j,
            {
                j = j + 1;
            }
            let found: Option<usize> = if j < cur.children.len() {
                Some(j)
            } else {
                None
            };
            match found {
                Some(c) => {
                    proof {
                        lemma_first_titled_is(cur.children@, want@, c as int);
                        assert(done.drop_last() + context_nodes(*cur, titles, k as int) == full);
                        assert(context_nodes(*cur, titles, k as int) == seq![*cur] + context_nodes(
                            cur.children@[c as int],
                            titles,
                            k + 1,
                        ));
                        assert(done + context_nodes(cur.children@[c as int], titles, k + 1) =~= full);
                    }
                    cur = &cur.children[c];
                },
                None => {
                    proof {
                        lemma_first_titled_is(cur.children@, want@, cur.children@.len() as int);
                        assert(context_nodes(*cur, titles, k as int) =~= seq![*cur]);
                        assert(done =~= full);
                    }
                    return out;
                },
            }
        } else {
            proof {
                assert(context_nodes(*cur, titles, k as int) =~= seq![*cur]);
                assert(done =~= full);
            }
            return out;
        }
    }
}

// ------------------------------------------------------------------
// Choosing a child
// ------------------------------------------------------------------

/// The options line of child `i`: `"{i + 1}. [{title}]: {summary}"`.
pub open spec fn option_line(i: int, n: PageNode) -> Seq<char> {
    decimal((i + 1) as nat) + ". ["@ + n.title@ + "]: "@ + n.summary@
}

/// The prompt that asks the model which child of a section most likely
/// holds the answer to a question.
pub open spec fn child_prompt(title: Seq<char>, query: Seq<char>, children: Seq<PageNode>) -> Seq<char> {
    "You are navigating a document tree to find the answer to a question.\n\nCurrent section: \""@
        + title + "\"\nQuestion: "@ + query + "\n\nChildren of this section:\n"@ + join(
        Seq::new(children.len(), |i: int| option_line(i, children[i])),
        "\n"@,
    )
        + "\n\nWhich child section most likely contains the answer? Reply with only the number."@
}

/// Builds the prompt that asks for the child of `node` most likely to
/// hold the answer (see [`child_prompt`]).
pub fn child_choice_prompt(node: &PageNode, query: &str) -> (r: String)
    ensures
        r@ == child_prompt(node.title@, query@, node.children@),
{
    let n = node.children.len();
    let mut lines: Vec<Vec<char>> = Vec::new();
    let mut i: usize = 0;
    while i < n
        invariant
            i <= n == node.children@.len(),
            lines@.len() == i,
            forall|k: int| 0 <= k < i ==> #[trigger] lines@[k]@ == option_line(k, node.children@[k]),
        decreases n - i,
    {
        let c = &node.children[i];
        let mut line: Vec<char> = Vec::new();
        extend_chars(&mut line, &decimal_chars(i + 1));
        extend_str(&mut line, ". [");
        extend_str(&mut line, c.title.as_str());
        extend_str(&mut line, "]: ");
        extend_str(&mut line, c.summary.as_str());
        assert(line@ =~= option_line(i as int, node.children@[i as int]));
        lines.push(line);
        i = i + 1;
    }
    assert(lines@.map_values(|p: Vec<char>| p@) =~= Seq::new(
        node.children@.len(),
        |i: int| option_line(i, node.children@[i]),
    ));
    let mut nl: Vec<char> = Vec::new();
    extend_str(&mut nl, "\n");
    let options = join_chars(&lines, &nl);
    let mut p: Vec<char> = Vec::new();
    extend_str(
        &mut p,
        "You are navigating a document tree to find the answer to a question.\n\nCurrent section: \"",
    );
    extend_str(&mut p, node.title.as_str());
    extend_str(&mut p, "\"\nQuestion: ");
    extend_str(&mut p, query);
    extend_str(&mut p, "\n\nChildren of this section:\n");
    extend_chars(&mut p, &options);
    extend_str(
        &mut p,
        "\n\nWhich child section most likely contains the answer? Reply with only the number.",
    );
    assert(p@ =~= child_prompt(node.title@, query@, node.children@));
    string_from(&p)
}

/// What a model's reply to [`child_prompt`] selects among `n` children:
/// the trimmed reply read as a number `k`, and child `k - 1`; an error
/// when it is not a number, is 0, or is beyond the children.
pub open spec fn reply_choice(reply: Seq<char>, n: usize) -> Result<usize, Seq<char>> {
    let t = trim(reply);
    match parse_usize(t) {
        None => Err("Not a number: "@ + t),
        Some(k) => if k == 0 {
            Err("Index must be >= 1"@)
        } else if k - 1 < n {
            Ok((k - 1) as usize)
        } else {
            Err("Index "@ + decimal(k as nat) + " out of bounds"@)
        },
    }
}

/// Reads the model's choice of child (see [`reply_choice`]); a refused
/// reply is an invalid-response error.
pub fn child_index_from_reply(reply: &str, n_children: usize) -> (r: Result<usize, RetrieveError>)
    ensures
        match reply_choice(reply@, n_children) {
            Ok(i) => r == Ok::<usize, RetrieveError>(i),
            Err(m) => r matches Err(RetrieveError::InvalidResponse(x)) && x@ == m,
        },
{
    let v = str_chars(reply);
    let (a, b) = trim_bounds(&v, 0, v.len());
    assert(v@.subrange(0, v@.len() as int) =~= v@);
    match parse_usize_chars(&v, a, b) {
        None => {
            let mut m: Vec<char> = Vec::new();
            extend_str(&mut m, "Not a number: ");
            let t = crate::text::sub_chars(&v, a, b);
            extend_chars(&mut m, &t);
            Err(RetrieveError::InvalidResponse(string_from(&m)))
        },
        Some(k) => {
            if k == 0 {
                let mut m: Vec<char> = Vec::new();
                extend_str(&mut m, "Index must be >= 1");
                Err(RetrieveError::InvalidResponse(string_from(&m)))
            } else if k - 1 < n_children {
                Ok(k - 1)
            } else {
                let mut m: Vec<char> = Vec::new();
                extend_str(&mut m, "Index ");
                extend_chars(&mut m, &decimal_chars(k));
                extend_str(&mut m, " out of bounds");
                Err(RetrieveError::InvalidResponse(string_from(&m)))
            }
        },
    }
}

/// The message of a retrieval error.
pub open spec fn retrieve_error_message(e: RetrieveError) -> Seq<char> {
    match e {
        RetrieveError::Llm(m) => "LLM error: "@ + m@,
        RetrieveError::InvalidResponse(m) => "Invalid LLM response: "@ + m@,
        RetrieveError::NoChildren => "Node has no children"@,
        RetrieveError::RetrievalFailed(m) => "Retrieval failed: "@ + m@,
    }
}

impl RetrieveError {
    /// The error message.
    pub fn message(&self) -> (r: String)
        ensures
            r@ == retrieve_error_message(*self),
    {
        let mut m: Vec<char> = Vec::new();
        match self {
            RetrieveError::Llm(x) => {
                extend_str(&mut m, "LLM error: ");
                extend_str(&mut m, x.as_str());
            },
            RetrieveError::InvalidResponse(x) => {
                extend_str(&mut m, "Invalid LLM response: ");
                extend_str(&mut m, x.as_str());
            },
            RetrieveError::NoChildren => {
                extend_str(&mut m, "Node has no children");
            },
            RetrieveError::RetrievalFailed(x) => {
                extend_str(&mut m, "Retrieval failed: ");
                extend_str(&mut m, x.as_str());
            },
        }
        assert(m@ =~= retrieve_error_message(*self));
        string_from(&m)
    }
}


// ------------------------------------------------------------------
// Tree navigation
// ------------------------------------------------------------------

/// The nodes met following the child indices in `path` from `n`, `n`
/// first; the walk stops at an index with no child.
pub open spec fn path_nodes(n: PageNode, path: Seq<usize>) -> Seq<PageNode>
    decreases path.len(),
{
    if path.len() > 0 && path[0] < n.children@.len() {
        seq![n] + path_nodes(n.children@[path[0] as int], path.drop_first())
    } else {
        seq![n]
    }
}

/// The section of a node.
pub fn section_of(node: &PageNode) -> (r: SectionInfo)
    ensures
        is_section_of(r, *node),
{
    let range = match (node.start_page, node.end_page) {
        (Some(a), Some(b)) => Some((a, b)),
        _ => None,
    };
    SectionInfo {
        title: node.title.clone(),
        content: node.content.clone(),
        summary: node.summary.clone(),
        page_range: range,
        node_id: clone_opt(&node.node_id),
        depth: node.depth,
    }
}

/// Whether `r` is the result of a navigation that followed `path` from
/// `root` down to the leaf `leaf`: the leaf's text is the answer and its
/// section the only one; the path lists a step per node met, root first;
/// the tokens are those of the texts of the nodes met, and the pages those
/// of the leaf.
pub open spec fn is_navigation_result(r: SectionsResult, root: PageNode, path: Seq<usize>, leaf: PageNode) -> bool {
    let met = path_nodes(root, path);
    &&& r.answer@ == leaf.content@
    &&& r.sections@.len() == 1
    &&& is_section_of(r.sections@[0], leaf)
    &&& r.path@.len() == met.len()
    &&& forall|i: int| 0 <= i < met.len() ==> is_step_of(#[trigger] r.path@[i], met[i])
    &&& r.metadata.section_count == 1
    &&& r.metadata.total_tokens == tokens_of(met)
    &&& r.metadata.pages_covered@ == section_pages(leaf)
    &&& r.metadata.mode == RetrieveMode::TreeNavigation
    &&& r.metadata.success
}

/// The result of a navigation that chose the children in `path` from the
/// root: when they lead to a leaf, the result of reaching it (see
/// [`is_navigation_result`]); `None` while they stop at a node that still
/// has children or name a child that does not exist.
pub fn navigation_result(root: &PageNode, path: &[usize]) -> (r: Option<SectionsResult>)
    requires
        tokens_of(path_nodes(*root, path@)) <= usize::MAX,
    ensures
        match crate::node::node_at(*root, path@) {
            Some(leaf) => if leaf.children@.len() == 0 {
                r matches Some(res) && is_navigation_result(res, *root, path@, leaf)
            } else {
                r is None
            },
            None => r is None,
        },
{
    let ghost met = path_nodes(*root, path@);
    let mut node = root;
    let mut steps: Vec<PathStep> = Vec::new();
    let mut total: usize = 0;
    let mut i: usize = 0;
    let ghost mut done: Seq<PageNode> = Seq::empty();
    assert(path@.skip(0) =~= path@);
    loop
        invariant
            i <= path.len(),
            met == path_nodes(*root, path@),
            met == done + path_nodes(*node, path@.skip(i as int)),
            crate::node::node_at(*root, path@) == crate::node::node_at(*node, path@.skip(i as int)),
            steps@.len() == done.len(),
            forall|k: int| 0 <= k < done.len() ==> is_step_of(#[trigger] steps@[k], done[k]),
            total == tokens_of(done),
            tokens_of(met) <= usize::MAX,
        decreases path.len() - i,
    {
        let ghost rest = path@.skip(i as int);
        proof {
            lemma_tokens_prefix(met, done.len() as int + 1);
            assert(met.take(done.len() as int + 1) =~= done.push(*node));
            assert(done.push(*node).drop_last() =~= done);
        }
        total = total + estimate_tokens(node.content.as_str());
        let ghost before = steps@;
        steps.push(path_step(node));
        proof {
            done = done.push(*node);
        }
        if i == path.len() || path[i] >= node.children.len() {
            assert(path_nodes(*node, rest) =~= seq![*node]);
            assert(met =~= done);
            if i == path.len() && node.children.len() == 0 {
                let result = SectionsResult {
                    answer: node.content.clone(),
                    sections: vec![section_of(node)],
                    path: steps,
                    metadata: RetrieveMetadata {
                        section_count: 1,
                        total_tokens: total,
                        pages_covered: extract_pages_from_section(node),
                        mode: RetrieveMode::TreeNavigation,
                        success: true,
                    },
                };
                assert(rest.len() == 0);
                return Some(result);
            }
            return None;
        }
        let c = path[i];
        assert(rest[0] == c);
        assert(rest.drop_first() =~= path@.skip(i + 1));
        assert(path_nodes(*node, rest) =~= seq![*node] + path_nodes(node.children@[c as int], rest.drop_first()));
        node = &node.children[c];
        i = i + 1;
    }
}

// ------------------------------------------------------------------
// Results with path context
// ------------------------------------------------------------------

/// `"{title}: {summary}"` of a path step.
pub open spec fn context_line(s: PathStep) -> Seq<char> {
    s.title@ + ": "@ + s.summary@
}

/// Whether `s` is the section that a path-context step adds: its title,
/// summary, identifier and depth, with no text and no pages.
pub open spec fn is_context_section(s: SectionInfo, step: PathStep) -> bool {
    &&& s.title@ == step.title@
    &&& s.content@.len() == 0
    &&& s.summary@ == step.summary@
    &&& s.page_range is None
    &&& opt_view(s.node_id) == opt_view(step.node_id)
    &&& s.depth == step.depth
}

/// The answer of a path-context retrieval: the context lines joined by
/// `" → "` under `Document Path: `, then the target's answer.
pub open spec fn context_answer(context: Seq<PathStep>, target: Seq<char>) -> Seq<char> {
    "Document Path: "@ + join(context.map_values(|s: PathStep| context_line(s)), " → "@) + "\n\n---\n\n"@
        + target
}

/// The result of a path-context retrieval from the result of the
/// navigation to the target and the context along its path: the target's
/// sections followed by one per context step, the answer of
/// [`context_answer`], the target's path, tokens and pages.
pub fn with_path_context(target: SectionsResult, context: &Vec<PathStep>) -> (r: SectionsResult)
    requires
        target.sections@.len() + context@.len() <= usize::MAX,
    ensures
        r.sections@.len() == target.sections@.len() + context@.len(),
        forall|i: int| 0 <= i < target.sections@.len() ==> #[trigger] r.sections@[i] == target.sections@[i],
        forall|i: int| 0 <= i < context@.len() ==> is_context_section(
            #[trigger] r.sections@[target.sections@.len() + i],
            context@[i],
        ),
        r.answer@ == context_answer(context@, target.answer@),
        r.path == target.path,
        r.metadata.section_count == r.sections@.len(),
        r.metadata.total_tokens == target.metadata.total_tokens,
        r.metadata.pages_covered == target.metadata.pages_covered,
        r.metadata.mode == RetrieveMode::PathContext,
        r.metadata.success,
{
    let mut sections = target.sections;
    let ghost base = sections@;
    let mut lines: Vec<Vec<char>> = Vec::new();
    let mut i: usize = 0;
    while i < context.len()
        invariant
            i <= context.len(),
            base.len() + context@.len() <= usize::MAX,
            sections@.len() == base.len() + i,
            forall|k: int| 0 <= k < base.len() ==> #[trigger] sections@[k] == base[k],
            forall|k: int| 0 <= k < i ==> is_context_section(#[trigger] sections@[base.len() + k], context@[k]),
            lines@.map_values(|l: Vec<char>| l@) == context@.take(i as int).map_values(|s: PathStep| context_line(s)),
        decreases context.len() - i,
    {
        let step = &context[i];
        sections.push(
            SectionInfo {
                title: step.title.clone(),
                content: String::new(),
                summary: step.summary.clone(),
                page_range: None,
                node_id: clone_opt(&step.node_id),
                depth: step.depth,
            },
        );
        let mut l: Vec<char> = Vec::new();
        extend_str(&mut l, step.title.as_str());
        extend_str(&mut l, ": ");
        extend_str(&mut l, step.summary.as_str());
        let ghost lv = lines@.map_values(|l: Vec<char>| l@);
        lines.push(l);
        proof {
            assert(lines@.map_values(|l: Vec<char>| l@) =~= lv.push(context_line(context@[i as int])));
            assert(context@.take(i + 1).map_values(|s: PathStep| context_line(s)) =~= context@.take(
                i as int,
            ).map_values(|s: PathStep| context_line(s)).push(context_line(context@[i as int])));
        }
        i = i + 1;
    }
    assert(context@.take(context.len() as int) =~= context@);
    let mut sep: Vec<char> = Vec::new();
    extend_str(&mut sep, " → ");
    let mut answer: Vec<char> = Vec::new();
    extend_str(&mut answer, "Document Path: ");
    extend_chars(&mut answer, &join_chars(&lines, &sep));
    extend_str(&mut answer, "\n\n---\n\n");
    extend_str(&mut answer, target.answer.as_str());
    assert(answer@ =~= context_answer(context@, target.answer@));
    let section_count = sections.len();
    SectionsResult {
        answer: string_from(&answer),
        sections,
        path: target.path,
        metadata: RetrieveMetadata {
            section_count,
            total_tokens: target.metadata.total_tokens,
            pages_covered: target.metadata.pages_covered,
            mode: RetrieveMode::PathContext,
            success: true,
        },
    }
}


// ------------------------------------------------------------------
// Combined results
// ------------------------------------------------------------------

/// The identifiers that sections carry.
pub open spec fn section_ids(s: Seq<SectionInfo>) -> Set<Seq<char>> {
    Set::new(|id: Seq<char>| exists|i: int| 0 <= i < s.len() && opt_view(#[trigger] s[i].node_id) == Some(id))
}

/// Whether an additional section is new to the primary ones: it carries
/// an identifier that none of them carries.
pub open spec fn is_new_section(s: SectionInfo, primary: Seq<SectionInfo>) -> bool {
    match s.node_id {
        Some(id) => !section_ids(primary).contains(id@),
        None => false,
    }
}

/// The positions, in order, of the additional sections that are new to the
/// primary ones (see [`is_new_section`]); sections without an identifier
/// are left out.
pub fn new_section_indices(primary: &Vec<SectionInfo>, extra: &Vec<SectionInfo>) -> (r: Vec<usize>)
    ensures
        strictly_increasing(r@),
        forall|i: int| 0 <= i < extra@.len() ==> (r@.contains(i as usize) <==> is_new_section(#[trigger] extra@[i], primary@)),
        forall|k: int| 0 <= k < r@.len() ==> #[trigger] r@[k] < extra@.len(),
{
    let mut out: Vec<usize> = Vec::new();
    let mut i: usize = 0;
    while i < extra.len()
        invariant
            i <= extra.len(),
            strictly_increasing(out@),
            forall|k: int| 0 <= k < out@.len() ==> #[trigger] out@[k] < i,
            forall|j: int| 0 <= j < i ==> (out@.contains(j as usize) <==> is_new_section(#[trigger] extra@[j], primary@)),
        decreases extra.len() - i,
    {
        if let Some(id) = &extra[i].node_id {
            let want = str_chars(id.as_str());
            let mut found = false;
            let mut j: usize = 0;
            while j < primary.len()
                invariant
                    j <= primary.len(),
                    want@ == id@,
                    found <==> exists|k: int| 0 <= k < j && opt_view(#[trigger] primary@[k].node_id) == Some(id@),
                decreases primary.len() - j,
            {
                if let Some(pid) = &primary[j].node_id {
                    if crate::text::chars_eq(&str_chars(pid.as_str()), &want) {
                        found = true;
                    }
                }
                proof {
                    if opt_view(primary@[j as int].node_id) == Some(id@) {
                        assert(primary@[j as int].node_id is Some);
                    }
                }
                j = j + 1;
            }
            assert(found <==> section_ids(primary@).contains(id@));
            if !found {
                let ghost before = out@;
                out.push(i);
                proof {
                    assert forall|j: int| 0 <= j <= i implies (out@.contains(j as usize) <==> is_new_section(#[trigger] extra@[j], primary@)) by {
                        if j < i {
                            if before.contains(j as usize) {
                                let k = choose|k: int| 0 <= k < before.len() && before[k] == j as usize;
                                assert(out@[k] == j as usize);
                            }
                            if out@.contains(j as usize) {
                                let k = choose|k: int| 0 <= k < out@.len() && out@[k] == j as usize;
                                if k < before.len() {
                                    assert(before[k] == j as usize);
                                }
                            }
                        } else {
                            assert(out@[before.len() as int] == i);
                        }
                    }
                }
            } else {
                proof {
                    assert(!out@.contains(i));
                }
            }
        } else {
            proof {
                assert(!out@.contains(i));
            }
        }
        i = i + 1;
    }
    out
}

/// The pages of both lists, increasing, each once.
pub fn merge_pages(a: &Vec<usize>, b: &Vec<usize>) -> (r: Vec<usize>)
    ensures
        strictly_increasing(r@),
        r@.to_set() == a@.to_set().union(b@.to_set()),
{
    let mut out: Vec<usize> = Vec::new();
    let mut i: usize = 0;
    assert(out@.to_set() =~= a@.take(0).to_set());
    while i < a.len()
        invariant
            i <= a.len(),
            strictly_increasing(out@),
            out@.to_set() == a@.take(i as int).to_set(),
        decreases a.len() - i,
    {
        insert_range(&mut out, a[i], a[i]);
        assert(range_set(a@[i as int], a@[i as int]) =~= set![a@[i as int]]);
        assert(a@.take(i + 1) =~= a@.take(i as int).push(a@[i as int]));
        proof {
            a@.take(i as int).lemma_push_to_set_commute(a@[i as int]);
        }
        i = i + 1;
    }
    assert(a@.take(a.len() as int) =~= a@);
    let mut j: usize = 0;
    assert(out@.to_set() =~= a@.to_set().union(b@.take(0).to_set()));
    while j < b.len()
        invariant
            j <= b.len(),
            strictly_increasing(out@),
            out@.to_set() == a@.to_set().union(b@.take(j as int).to_set()),
        decreases b.len() - j,
    {
        insert_range(&mut out, b[j], b[j]);
        assert(range_set(b@[j as int], b@[j as int]) =~= set![b@[j as int]]);
        assert(b@.take(j + 1) =~= b@.take(j as int).push(b@[j as int]));
        proof {
            b@.take(j as int).lemma_push_to_set_commute(b@[j as int]);
        }
        assert(out@.to_set() =~= a@.to_set().union(b@.take(j + 1).to_set()));
        j = j + 1;
    }
    assert(b@.take(b.len() as int) =~= b@);
    out
}

/// The answer of a comprehensive retrieval: the primary answer, then the
/// additional one.
pub fn comprehensive_answer(primary: &str, additional: &str) -> (r: String)
    ensures
        r@ == "Primary Result:\n"@ + primary@ + "\n\n---\n\nAdditional Relevant Sections:\n"@ + additional@,
{
    let mut m: Vec<char> = Vec::new();
    extend_str(&mut m, "Primary Result:\n");
    extend_str(&mut m, primary);
    extend_str(&mut m, "\n\n---\n\nAdditional Relevant Sections:\n");
    extend_str(&mut m, additional);
    string_from(&m)
}


/// The prompt that asks how relevant a section's summary is to a question.
pub open spec fn relevance_prompt(query: Seq<char>, summary: Seq<char>) -> Seq<char> {
    "On a scale of 0.0 to 1.0, how relevant is the following summary to the question?\n\nQuestion: "@
        + query + "\nSummary: "@ + summary + "\nReply with only a number between 0.0 and 1.0."@
}

/// The prompt that asks how relevant a summary is (see
/// [`relevance_prompt`]).
pub fn score_prompt(query: &str, summary: &str) -> (r: String)
    ensures
        r@ == relevance_prompt(query@, summary@),
{
    let mut m: Vec<char> = Vec::new();
    extend_str(&mut m, "On a scale of 0.0 to 1.0, how relevant is the following summary to the question?\n\nQuestion: ");
    extend_str(&mut m, query);
    extend_str(&mut m, "\nSummary: ");
    extend_str(&mut m, summary);
    extend_str(&mut m, "\nReply with only a number between 0.0 and 1.0.");
    assert(m@ =~= relevance_prompt(query@, summary@));
    string_from(&m)
}

} // verus!
