//! The document tree: every node is a section with a title, its text, a
//! summary, its depth and, for paged documents, the pages it spans.
//!
//! A node owns its children; a position in the tree is named by the path of
//! child indices that leads to it from the root.

use vstd::prelude::*;
use crate::text::str_chars;
use crate::text::string_from;

verus! {

/// A section of a document tree.
pub struct PageNode {
    /// Section title.
    pub title: String,
    /// Section text.
    pub content: String,
    /// Summary of the section (empty when none was made).
    pub summary: String,
    /// Depth in the tree (the header level for Markdown, the TOC level for PDF).
    pub depth: usize,
    /// First page (or line, for Markdown) of the section.
    pub start_page: Option<usize>,
    /// Last page of the section.
    pub end_page: Option<usize>,
    /// Node identifier such as `"0001"`.
    pub node_id: Option<String>,
    /// Physical page marker such as `"<physical_index_5>"`.
    pub physical_index: Option<String>,
    /// Child sections, in document order.
    pub children: Vec<PageNode>,
}

/// Whether `n` spans exactly the given pages.
pub open spec fn has_pages(n: PageNode, start: Option<usize>, end: Option<usize>) -> bool {
    n.start_page == start && n.end_page == end
}

/// A fresh node: the given title and content, empty summary, depth 0, no
/// pages, no identifier, no children.
pub open spec fn is_fresh(n: PageNode, title: Seq<char>, content: Seq<char>) -> bool {
    &&& n.title@ == title
    &&& n.content@ == content
    &&& n.summary@.len() == 0
    &&& n.depth == 0
    &&& n.start_page.is_none()
    &&& n.end_page.is_none()
    &&& n.node_id.is_none()
    &&& n.physical_index.is_none()
    &&& n.children@.len() == 0
}

/// Whether the node covers `page` (both page bounds known and
/// `start <= page <= end`).
pub open spec fn covers(n: PageNode, page: usize) -> bool {
    match (n.start_page, n.end_page) {
        (Some(s), Some(e)) => s <= page && page <= e,
        _ => false,
    }
}

/// The node reached from `n` by following the child indices in `path`.
pub open spec fn node_at(n: PageNode, path: Seq<usize>) -> Option<PageNode>
    decreases path.len(),
{
    if path.len() == 0 {
        Some(n)
    } else if path[0] < n.children@.len() {
        node_at(n.children@[path[0] as int], path.drop_first())
    } else {
        None
    }
}

/// Number of nodes in the tree rooted at `n`, `n` included.
pub open spec fn tree_size(n: PageNode) -> nat
    decreases n,
{
    1 + forest_size(n.children@)
}

/// Number of nodes in a sequence of trees.
pub open spec fn forest_size(s: Seq<PageNode>) -> nat
    decreases s,
{
    if s.len() == 0 {
        0
    } else {
        forest_size(s.drop_last()) + tree_size(s.last())
    }
}


/// The nodes of the tree rooted at `n` in pre-order: a node before its
/// descendants, children in order.
pub open spec fn preorder(n: PageNode) -> Seq<PageNode>
    decreases n,
{
    seq![n] + forest_preorder(n.children@)
}

/// The pre-order of a sequence of trees, one tree after the other.
pub open spec fn forest_preorder(s: Seq<PageNode>) -> Seq<PageNode>
    decreases s,
{
    if s.len() == 0 {
        Seq::empty()
    } else {
        forest_preorder(s.drop_last()) + preorder(s.last())
    }
}

/// The nodes at distance `d` below `n`, left to right.
pub open spec fn level_nodes(n: PageNode, d: nat) -> Seq<PageNode>
    decreases n,
{
    if d == 0 {
        seq![n]
    } else {
        forest_level(n.children@, (d - 1) as nat)
    }
}

/// The nodes at distance `d` below the roots of a sequence of trees, left
/// to right.
pub open spec fn forest_level(s: Seq<PageNode>, d: nat) -> Seq<PageNode>
    decreases s,
{
    if s.len() == 0 {
        Seq::empty()
    } else {
        forest_level(s.drop_last(), d) + level_nodes(s.last(), d)
    }
}

/// Breadth-first order: level by level from the root, each level left to
/// right. (No level at or below `tree_size(n)` holds a node.)
pub open spec fn bfs_order(n: PageNode) -> Seq<PageNode> {
    Seq::new(tree_size(n), |d: int| level_nodes(n, d as nat)).flatten()
}

/// The first `d` levels of the tree, concatenated.
pub open spec fn levels_upto(n: PageNode, d: nat) -> Seq<PageNode> {
    Seq::new(d, |j: int| level_nodes(n, j as nat)).flatten()
}

/// A level below the root holds a node only while it is above the tree's
/// size; once a level is empty, so is the next one.
pub proof fn lemma_level_bounds(n: PageNode, d: nat)
    ensures
        level_nodes(n, d).len() > 0 ==> d < tree_size(n),
        level_nodes(n, d).len() == 0 ==> level_nodes(n, d + 1).len() == 0,
    decreases n,
{
    if d > 0 {
        lemma_forest_level_bounds(n.children@, (d - 1) as nat);
    } else {
        lemma_forest_level_bounds(n.children@, 0);
    }
}

/// [`lemma_level_bounds`] for a sequence of trees.
pub proof fn lemma_forest_level_bounds(s: Seq<PageNode>, d: nat)
    ensures
        forest_level(s, d).len() > 0 ==> d < forest_size(s),
        forest_level(s, d).len() == 0 ==> forest_level(s, d + 1).len() == 0,
    decreases s,
{
    if s.len() > 0 {
        lemma_forest_level_bounds(s.drop_last(), d);
        lemma_level_bounds(s.last(), d);
    }
}

/// Once a level is empty, every deeper level is empty.
pub proof fn lemma_levels_empty_after(n: PageNode, d: nat, e: nat)
    requires
        level_nodes(n, d).len() == 0,
        d <= e,
    ensures
        level_nodes(n, e).len() == 0,
    decreases e - d,
{
    if d < e {
        lemma_level_bounds(n, d);
        lemma_levels_empty_after(n, d + 1, e);
    }
}

/// The flattening of a sequence of empty sequences is empty.
pub proof fn lemma_flatten_empties(s: Seq<Seq<PageNode>>)
    requires
        forall|i: int| 0 <= i < s.len() ==> #[trigger] s[i].len() == 0,
    ensures
        s.flatten().len() == 0,
    decreases s.len(),
{
    if s.len() > 0 {
        lemma_flatten_empties(s.drop_first());
    }
}

/// When level `d` is empty, the levels above it already hold the whole
/// breadth-first order.
pub proof fn lemma_bfs_upto(n: PageNode, d: nat)
    requires
        level_nodes(n, d).len() == 0,
    ensures
        bfs_order(n) == levels_upto(n, d),
{
    let t = tree_size(n);
    let all = Seq::new(t, |j: int| level_nodes(n, j as nat));
    if d < t {
        let head = Seq::new(d, |j: int| level_nodes(n, j as nat));
        let tail = all.subrange(d as int, t as int);
        assert(all =~= head + tail);
        vstd::seq_lib::lemma_flatten_concat(head, tail);
        assert forall|i: int| 0 <= i < tail.len() implies #[trigger] tail[i].len() == 0 by {
            lemma_levels_empty_after(n, d, (d + i) as nat);
        }
        lemma_flatten_empties(tail);
        assert(tail.flatten() =~= Seq::<PageNode>::empty());
        assert(head.flatten() + tail.flatten() =~= head.flatten());
    } else {
        let head = Seq::new(d, |j: int| level_nodes(n, j as nat));
        let tail = head.subrange(t as int, d as int);
        assert(head =~= all + tail);
        vstd::seq_lib::lemma_flatten_concat(all, tail);
        assert forall|i: int| 0 <= i < tail.len() implies #[trigger] tail[i].len() == 0 by {
            assert(tail[i] == level_nodes(n, (t + i) as nat));
            lemma_level_bounds(n, (t + i) as nat);
        }
        lemma_flatten_empties(tail);
        assert(tail.flatten() =~= Seq::<PageNode>::empty());
        assert(all.flatten() + tail.flatten() =~= all.flatten());
    }
}

/// Adding one level to the levels above it.
pub proof fn lemma_levels_upto_push(n: PageNode, d: nat)
    ensures
        levels_upto(n, d + 1) == levels_upto(n, d) + level_nodes(n, d),
{
    let a = Seq::new(d, |j: int| level_nodes(n, j as nat));
    let b = Seq::new(d + 1, |j: int| level_nodes(n, j as nat));
    assert(b =~= a.push(level_nodes(n, d)));
    a.lemma_flatten_push(level_nodes(n, d));
}

/// A prefix of a forest has no more nodes than the forest.
pub proof fn lemma_forest_size_take(s: Seq<PageNode>, m: int)
    requires
        0 <= m <= s.len(),
    ensures
        forest_size(s.take(m)) <= forest_size(s),
    decreases s.len() - m,
{
    if m < s.len() {
        lemma_forest_size_take(s, m + 1);
        assert(s.take(m + 1).drop_last() =~= s.take(m));
    } else {
        assert(s.take(m) =~= s);
    }
}

impl PageNode {
    /// A node with the given title and content and nothing else.
    pub fn new(title: &str, content: &str) -> (r: PageNode)
        ensures
            is_fresh(r, title@, content@),
    {
        PageNode {
            title: string_from(&str_chars(title)),
            content: string_from(&str_chars(content)),
            summary: String::new(),
            depth: 0,
            start_page: None,
            end_page: None,
            node_id: None,
            physical_index: None,
            children: Vec::new(),
        }
    }

    /// A node with the given title and content spanning pages `start..=end`.
    pub fn with_pages(title: &str, content: &str, start: usize, end: usize) -> (r: PageNode)
        ensures
            r.title@ == title@,
            r.content@ == content@,
            r.summary@.len() == 0,
            r.depth == 0,
            has_pages(r, Some(start), Some(end)),
            r.node_id.is_none(),
            r.physical_index.is_none(),
            r.children@.len() == 0,
    {
        let mut n = PageNode::new(title, content);
        n.start_page = Some(start);
        n.end_page = Some(end);
        n
    }

    /// Whether this node covers `page`.
    pub fn contains_page(&self, page: usize) -> (r: bool)
        ensures
            r == covers(*self, page),
    {
        match (self.start_page, self.end_page) {
            (Some(s), Some(e)) => s <= page && page <= e,
            _ => false,
        }
    }

    /// The page range, when both bounds are known.
    pub fn page_range(&self) -> (r: Option<(usize, usize)>)
        ensures
            r == (match (self.start_page, self.end_page) {
                (Some(s), Some(e)) => Some((s, e)),
                _ => None,
            }),
    {
        match (self.start_page, self.end_page) {
            (Some(s), Some(e)) => Some((s, e)),
            _ => None,
        }
    }

    /// Whether the node has no children.
    pub fn is_leaf(&self) -> (r: bool)
        ensures
            r == (self.children@.len() == 0),
    {
        self.children.len() == 0
    }
}

} // verus!
