//! Document trees from table-of-contents entries, with page boundaries,
//! and the queries on such trees: the node for a page, the nodes in a page
//! range, the titles along a path, and the validation of page bounds.

use vstd::prelude::*;
use crate::node::{
    PageNode, bfs_order, covers, forest_level, forest_preorder, forest_size, lemma_bfs_upto, lemma_level_bounds,
    lemma_levels_upto_push, level_nodes, levels_upto, node_at, preorder, tree_size,
};
use crate::outline::{
    is_forest, lemma_forest_concat, lemma_forest_single, lemma_span_end, lemma_span_end_step,
    span_end,
};
use crate::pdf::{
    page_marker,
    Page, blank_line, marked_contents_of, marked_page_texts, marked_range_text, newline,
    page_range_text, page_texts,
};
use crate::text::{
    all_digits, chars_eq, clone_opt, decimal, digit_char, digit_value, decimal_chars, digits_value, extend_chars,
    extend_str, is_digit, join_chars, opt_view, parse_usize, parse_usize_chars, str_chars,
    string_from, sub_chars, zero_padded, zero_padded_chars,
};
use crate::toc::TocEntry;

verus! {

// ------------------------------------------------------------------
// Page markers
// ------------------------------------------------------------------

/// Whether the `regex` crate's Unicode class `\d` (general category `Nd`)
/// matches the character `c`.
pub uninterp spec fn regex_digit(c: char) -> bool;

/// Whether `c` is a digit in a page marker: an ASCII digit, or outside ASCII
/// a character that the `\d` class of the marker pattern matches.
pub open spec fn marker_digit(c: char) -> bool {
    if (c as u32) < 128 {
        is_digit(c)
    } else {
        regex_digit(c)
    }
}

/// Asks the `regex` crate whether its `\d` class matches `c`: the crate's
/// `Regex::is_match` for the pattern `\d` on the one-character text `c`.
/// The contract says only that the answer is [`regex_digit`] of `c`.
#[verifier::external_body]
fn regex_matches_digit(c: char) -> (r: bool)
    ensures
        r == regex_digit(c),
{
    regex::Regex::new(r"\d").unwrap().is_match(&c.to_string())
}

/// Executable form of [`marker_digit`].
fn is_marker_digit(c: char) -> (r: bool)
    ensures
        r == marker_digit(c),
{
    if (c as u32) < 128 {
        '0' <= c && c <= '9'
    } else {
        regex_matches_digit(c)
    }
}

/// Number of consecutive marker digits in `s` from index `j` on.
pub open spec fn digit_run(s: Seq<char>, j: int) -> nat
    decreases s.len() - j,
{
    if 0 <= j < s.len() && marker_digit(s[j]) {
        1 + digit_run(s, j + 1)
    } else {
        0
    }
}

/// Whether a page marker `<physical_index_DIGITS>` starts at index `i`.
pub open spec fn marker_at(s: Seq<char>, i: int) -> bool {
    let p = "<physical_index_"@;
    let j = i + p.len();
    let n = digit_run(s, j);
    &&& 0 <= i
    &&& j + n < s.len()
    &&& s.subrange(i, j) == p
    &&& n > 0
    &&& s[j + n] == '>'
}

/// The first index from `i` on where a page marker starts.
pub open spec fn first_marker(s: Seq<char>, i: int) -> Option<int>
    decreases s.len() - i,
{
    if i < 0 || i >= s.len() {
        None
    } else if marker_at(s, i) {
        Some(i)
    } else {
        first_marker(s, i + 1)
    }
}

/// The page number of the first page marker in `s`, when its digits make
/// a `usize`: a first marker whose digits are not all ASCII gives `None`.
pub open spec fn marker_page(s: Seq<char>) -> Option<usize> {
    match first_marker(s, 0) {
        None => None,
        Some(i) => {
            let j = i + "<physical_index_"@.len();
            parse_usize(s.subrange(j, j + digit_run(s, j)))
        },
    }
}

/// Extracts the page number from a `<physical_index_N>` marker, where `N` is
/// one or more digits in the sense of the `\d` class: the first marker in the
/// text is taken, and `None` is returned when there is none or its digits do
/// not make a `usize`.
pub fn extract_page_number(physical_index: &str) -> (r: Option<usize>)
    ensures
        r == marker_page(physical_index@),
{
    let v = str_chars(physical_index);
    let p = str_chars("<physical_index_");
    let mut i: usize = 0;
    while i < v.len()
        invariant
            i <= v.len(),
            v@ == physical_index@,
            p@ == "<physical_index_"@,
            first_marker(v@, 0) == first_marker(v@, i as int),
        decreases v.len() - i,
    {
        if p.len() < v.len() - i {
            let j = i + p.len();
            let head = sub_chars(&v, i, j);
            if chars_eq(&head, &p) {
                let mut k = j;
                while k < v.len() && is_marker_digit(v[k])
                    invariant
                        j <= k <= v.len(),
                        digit_run(v@, j as int) == (k - j) + digit_run(v@, k as int),
                    decreases v.len() - k,
                {
                    k = k + 1;
                }
                assert(digit_run(v@, j as int) == k - j);
                if k > j && k < v.len() && v[k] == '>' {
                    assert(marker_at(v@, i as int));
                    return parse_usize_chars(&v, j, k);
                }
            }
        }
        assert(!marker_at(v@, i as int));
        i = i + 1;
    }
    None
}

/// The decimal rendering of a number is all digits and reads back as the
/// number.
pub proof fn lemma_decimal_digits(n: nat)
    ensures
        decimal(n).len() > 0,
        all_digits(decimal(n)),
        digits_value(decimal(n)) == n,
    decreases n,
{
    lemma_digit_char(n % 10);
    if n < 10 {
        assert(n % 10 == n);
        assert(seq![digit_char(n)].drop_last() =~= Seq::<char>::empty());
        assert(digits_value(seq![digit_char(n)]) == digits_value(Seq::<char>::empty()) * 10 + digit_value(digit_char(n)));
    } else {
        lemma_decimal_digits(n / 10);
        let d = decimal(n);
        assert(d.drop_last() =~= decimal(n / 10));
        assert(d.last() == digit_char(n % 10));
        assert(n == (n / 10) * 10 + n % 10);
        assert forall|i: int| 0 <= i < d.len() implies is_digit(#[trigger] d[i]) by {
            if i < d.len() - 1 {
                assert(d[i] == decimal(n / 10)[i]);
            }
        }
    }
}

/// The digit character of a digit is a digit of that value.
pub proof fn lemma_digit_char(x: nat)
    requires
        x < 10,
    ensures
        is_digit(digit_char(x)),
        digit_value(digit_char(x)) == x,
{
    assert(('0' as u32) == 48);
    assert(((48 + x) as char) as u32 == 48 + x);
}

/// A run of `k` digits from `j`, followed by a non-digit or the end, is
/// the digit run at `j`.
pub proof fn lemma_digit_run(s: Seq<char>, j: int, k: nat)
    requires
        0 <= j,
        j + k <= s.len(),
        forall|i: int| j <= i < j + k ==> marker_digit(#[trigger] s[i]),
        j + k == s.len() || !marker_digit(s[j + k]),
    ensures
        digit_run(s, j) == k,
    decreases k,
{
    if k > 0 {
        lemma_digit_run(s, j + 1, (k - 1) as nat);
    }
}

/// Reading a page marker gives back its page: for every page number `n`,
/// [`extract_page_number`] of the marker that [`crate::pdf::Page::with_boundaries`]
/// and [`crate::pdf::mark_page_boundaries`] write for `n` is `n`.
pub proof fn lemma_page_marker_round_trip(n: usize)
    ensures
        marker_page(page_marker(n as nat)) == Some(n),
{
    reveal_strlit("<physical_index_");
    reveal_strlit(">");
    let p = "<physical_index_"@;
    let d = decimal(n as nat);
    let s = page_marker(n as nat);
    lemma_decimal_digits(n as nat);
    assert(s =~= p + d + ">"@);
    assert(p.len() == 16);
    assert(s.subrange(0, 16) =~= p);
    assert(s.subrange(16, 16 + d.len() as int) =~= d);
    assert forall|i: int| 16 <= i < 16 + d.len() implies marker_digit(#[trigger] s[i]) by {
        assert(s[i] == d[i - 16]);
        assert(is_digit(d[i - 16]));
    }
    assert(s[16 + d.len() as int] == '>');
    assert(!marker_digit('>'));
    lemma_digit_run(s, 16, d.len());
    assert(marker_at(s, 0));
    assert(first_marker(s, 0) == Some(0int));
    assert(is_digit(d[0]));
}

// ------------------------------------------------------------------
// Page ranges of pages
// ------------------------------------------------------------------

/// Extracts the text of pages `start..=end` (1-based) joined by blank
/// lines; the empty text for a range outside `1..=pages.len()`.
pub fn extract_page_range(pages: &[Page], start: usize, end: usize) -> (r: String)
    ensures
        r@ == page_range_text(pages@, start as int, end as int),
{
    if start < 1 || end > pages.len() || start > end {
        return String::new();
    }
    let parts = page_texts(pages, start - 1, end);
    string_from(&join_chars(&parts, &blank_line()))
}

/// Extracts the text of pages `start..=end` with each page wrapped in its
/// `<physical_index_N>` markers, joined by newlines; the empty text for a
/// range outside `1..=pages.len()`.
pub fn extract_page_range_with_boundaries(pages: &[Page], start: usize, end: usize) -> (r:
    String)
    ensures
        r@ == marked_range_text(pages@, start as int, end as int),
{
    if start < 1 || end > pages.len() || start > end {
        return String::new();
    }
    let parts = marked_page_texts(pages, start - 1, end);
    string_from(&join_chars(&parts, &newline()))
}

// ------------------------------------------------------------------
// Building trees from entries
// ------------------------------------------------------------------

/// The pages an entry spans: the page of its physical marker when that
/// gives one, else its printed page; a single page either way.
pub open spec fn entry_pages(e: TocEntry) -> Option<(usize, usize)> {
    let printed = match e.page {
        Some(p) => Some((p, p)),
        None => None,
    };
    match e.physical_index {
        Some(m) => match marker_page(m@) {
            Some(n) => Some((n, n)),
            None => printed,
        },
        None => printed,
    }
}

/// The text a node of entry `e` holds: with `pages`, the text of its pages
/// when it has any, each page wrapped in its boundary markers when `marked`
/// is set; otherwise empty.
pub open spec fn entry_content(e: TocEntry, pages: Option<Seq<Page>>, marked: bool) -> Seq<char> {
    match (pages, entry_pages(e)) {
        (Some(ps), Some((a, b))) => if marked {
            marked_range_text(ps, a as int, b as int)
        } else {
            page_range_text(ps, a as int, b as int)
        },
        _ => Seq::empty(),
    }
}

/// The levels of the entries.
pub open spec fn levels_of(entries: Seq<TocEntry>) -> Seq<usize> {
    entries.map_values(|e: TocEntry| e.level)
}

/// Whether `n` is the node made for entry `e`, whose identifier (when
/// identifiers are assigned) is `id` written with four digits.
pub open spec fn is_entry_node(
    n: PageNode,
    e: TocEntry,
    assign_ids: bool,
    id: int,
    pages: Option<Seq<Page>>,
    marked: bool,
) -> bool {
    &&& n.title@ == e.title@
    &&& n.content@ == entry_content(e, pages, marked)
    &&& n.summary@.len() == 0
    &&& n.depth == e.level
    &&& n.start_page == (match entry_pages(e) {
        Some((a, _)) => Some(a),
        None => None,
    })
    &&& n.end_page == (match entry_pages(e) {
        Some((_, b)) => Some(b),
        None => None,
    })
    &&& opt_view(n.physical_index) == opt_view(e.physical_index)
    &&& opt_view(n.node_id) == (if assign_ids {
        Some(zero_padded(id as nat, 4))
    } else {
        None
    })
}

/// The node condition for the entries, identifiers counted from `first_id`.
pub open spec fn entry_ok(
    entries: Seq<TocEntry>,
    assign_ids: bool,
    first_id: int,
    pages: Option<Seq<Page>>,
    marked: bool,
) -> spec_fn(PageNode, int) -> bool {
    |n: PageNode, j: int| is_entry_node(n, entries[j], assign_ids, first_id + j, pages, marked)
}

/// Whether `n` is a root as the builder makes it: titled `root`, no text,
/// depth 0, no pages, no identifier.
pub open spec fn is_root(n: PageNode) -> bool {
    &&& n.title@ == "root"@
    &&& n.content@.len() == 0
    &&& n.summary@.len() == 0
    &&& n.depth == 0
    &&& n.start_page is None
    &&& n.end_page is None
    &&& n.node_id is None
    &&& n.physical_index is None
}

/// Builder of document trees from table-of-contents entries.
pub struct TreeBuilder {
    /// Next node identifier to hand out.
    pub next_id: usize,
    /// Whether nodes get identifiers.
    pub assign_ids: bool,
    /// Whether node text carries page markers.
    pub include_boundaries: bool,
}

impl Default for TreeBuilder {
    fn default() -> (r: TreeBuilder)
        ensures
            r.next_id == 1,
            r.assign_ids,
            !r.include_boundaries,
    {
        TreeBuilder::new()
    }
}

impl TreeBuilder {
    /// A builder that assigns identifiers from `0001` on.
    pub fn new() -> (r: TreeBuilder)
        ensures
            r.next_id == 1,
            r.assign_ids,
            !r.include_boundaries,
    {
        TreeBuilder { next_id: 1, assign_ids: true, include_boundaries: false }
    }

    /// The same builder, assigning no identifiers.
    pub fn without_ids(self) -> (r: TreeBuilder)
        ensures
            r.next_id == self.next_id,
            !r.assign_ids,
            r.include_boundaries == self.include_boundaries,
    {
        let mut b = self;
        b.assign_ids = false;
        b
    }

    /// The same builder, with page markers in node text or not.
    pub fn include_boundaries(self, value: bool) -> (r: TreeBuilder)
        ensures
            r.next_id == self.next_id,
            r.assign_ids == self.assign_ids,
            r.include_boundaries == value,
    {
        let mut b = self;
        b.include_boundaries = value;
        b
    }

    /// The pages of an entry (see [`entry_pages`]).
    fn get_page_range(&self, entry: &TocEntry) -> (r: Option<(usize, usize)>)
        ensures
            r == entry_pages(*entry),
    {
        if let Some(physical_idx) = &entry.physical_index {
            if let Some(page_num) = extract_page_number(physical_idx.as_str()) {
                return Some((page_num, page_num));
            }
        }
        match entry.page {
            Some(p) => Some((p, p)),
            None => None,
        }
    }

    /// The node for entry `entries[j]`, without children.
    fn entry_node(&self, entries: &[TocEntry], j: usize, pages: Option<&[Page]>) -> (r: PageNode)
        requires
            j < entries.len(),
            self.assign_ids ==> self.next_id + j <= usize::MAX,
        ensures
            is_entry_node(
                r,
                entries@[j as int],
                self.assign_ids,
                self.next_id + j,
                match pages {
                    Some(ps) => Some(ps@),
                    None => None,
                },
                self.include_boundaries,
            ),
            r.children@.len() == 0,
    {
        let entry = &entries[j];
        let range = self.get_page_range(entry);
        let content = match (pages, range) {
            (Some(ps), Some((a, b))) => if self.include_boundaries {
                extract_page_range_with_boundaries(ps, a, b)
            } else {
                extract_page_range(ps, a, b)
            },
            _ => String::new(),
        };
        let mut node = PageNode::new(entry.title.as_str(), content.as_str());
        match range {
            Some((a, b)) => {
                node.start_page = Some(a);
                node.end_page = Some(b);
            },
            None => {},
        }
        node.physical_index = clone_opt(&entry.physical_index);
        if self.assign_ids {
            node.node_id = Some(string_from(&zero_padded_chars(self.next_id + j, 4)));
        }
        node.depth = entry.level;
        node
    }

    /// The forest of the entries from `lo` on, up to the first entry whose
    /// level is not above `bound`, and the index where it ends.
    fn build_span(&self, entries: &[TocEntry], lo: usize, bound: usize, pages: Option<&[Page]>)
        -> (r: (Vec<PageNode>, usize))
        requires
            lo <= entries.len(),
            self.assign_ids ==> self.next_id + entries.len() <= usize::MAX,
        ensures
            r.1 == span_end(levels_of(entries@), lo as int, bound as int),
            is_forest(
                r.0@,
                levels_of(entries@),
                lo as int,
                r.1 as int,
                entry_ok(
                    entries@,
                    self.assign_ids,
                    self.next_id as int,
                    match pages {
                        Some(ps) => Some(ps@),
                        None => None,
                    },
                    self.include_boundaries,
                ),
            ),
        decreases entries.len() - lo,
    {
        let ghost lv = levels_of(entries@);
        let ghost ps = match pages {
            Some(ps) => Some(ps@),
            None => None,
        };
        let ghost ok = entry_ok(entries@, self.assign_ids, self.next_id as int, ps, self.include_boundaries);
        let mut out: Vec<PageNode> = Vec::new();
        let mut i = lo;
        assert(is_forest(out@, lv, lo as int, lo as int, ok));
        while i < entries.len() && entries[i].level > bound
            invariant
                lo <= i <= entries.len(),
                lv == levels_of(entries@),
                ps == (match pages {
                    Some(ps) => Some(ps@),
                    None => None,
                }),
                ok == entry_ok(entries@, self.assign_ids, self.next_id as int, ps, self.include_boundaries),
                self.assign_ids ==> self.next_id + entries.len() <= usize::MAX,
                span_end(lv, lo as int, bound as int) == span_end(lv, i as int, bound as int),
                is_forest(out@, lv, lo as int, i as int, ok),
            decreases entries.len() - i,
        {
            let mut node = self.entry_node(entries, i, pages);
            let (kids, k) = self.build_span(entries, i + 1, entries[i].level, pages);
            node.children = kids;
            proof {
                assert(lv[i as int] == entries@[i as int].level);
                lemma_span_end(lv, i + 1, lv[i as int] as int);
                lemma_span_end_step(lv, i as int, bound as int);
                assert(ok(node, i as int));
                lemma_forest_single(node, lv, i as int, ok);
                lemma_forest_concat(out@, seq![node], lv, lo as int, i as int, k as int, ok);
                assert(out@ + seq![node] =~= out@.push(node));
            }
            out.push(node);
            i = k;
        }
        proof {
            assert(span_end(lv, i as int, bound as int) == i);
        }
        (out, i)
    }

    /// The tree of the entries under a root titled `root`: each entry
    /// becomes a node with its title, level as depth, pages and physical
    /// marker, and (when identifiers are assigned) the next identifier; an
    /// entry's children are the deeper entries that follow it. Entries from
    /// the first one of level 0 on stay outside the tree, though they use up
    /// identifiers.
    pub fn build_from_toc(&mut self, entries: &[TocEntry]) -> (r: PageNode)
        requires
            old(self).assign_ids ==> old(self).next_id + entries.len() <= usize::MAX,
        ensures
            is_root(r),
            is_forest(
                r.children@,
                levels_of(entries@),
                0,
                span_end(levels_of(entries@), 0, 0),
                entry_ok(entries@, old(self).assign_ids, old(self).next_id as int, None, old(self).include_boundaries),
            ),
            final(self).next_id == old(self).next_id + (if old(self).assign_ids {
                entries.len() as int
            } else {
                0
            }),
            final(self).assign_ids == old(self).assign_ids,
            final(self).include_boundaries == old(self).include_boundaries,
    {
        self.build(entries, None)
    }

    /// [`TreeBuilder::build_from_toc`], each node holding the text of its
    /// pages, with page boundary markers when `include_boundaries` is set
    /// (see [`entry_content`]).
    pub fn build_from_toc_with_content(&mut self, entries: &[TocEntry], pages: &[Page]) -> (r:
        PageNode)
        requires
            old(self).assign_ids ==> old(self).next_id + entries.len() <= usize::MAX,
        ensures
            is_root(r),
            is_forest(
                r.children@,
                levels_of(entries@),
                0,
                span_end(levels_of(entries@), 0, 0),
                entry_ok(entries@, old(self).assign_ids, old(self).next_id as int, Some(pages@), old(self).include_boundaries),
            ),
            final(self).next_id == old(self).next_id + (if old(self).assign_ids {
                entries.len() as int
            } else {
                0
            }),
            final(self).assign_ids == old(self).assign_ids,
            final(self).include_boundaries == old(self).include_boundaries,
    {
        self.build(entries, Some(pages))
    }

    /// Sets the content of every node with both page bounds to the text of
    /// its pages, with page boundary markers when `include_boundaries` is set
    /// (see [`is_populated`]).
    pub fn populate_content_from_pages(&self, root: &mut PageNode, pages: &[Page])
        ensures
            is_populated(*final(root), *old(root), pages@, self.include_boundaries),
    {
        populate(root, pages, self.include_boundaries);
    }


    /// Gives every node of the tree the identifier of its place in
    /// breadth-first order, from `0001` on, and sets the next identifier to
    /// follow the last one.
    pub fn assign_node_ids(&mut self, root: &mut PageNode)
        requires
            bfs_order(*old(root)).len() < usize::MAX,
        ensures
            same_but_ids(*final(root), *old(root)),
            bfs_order(*final(root)).len() == bfs_order(*old(root)).len(),
            forall|i: int|
                0 <= i < bfs_order(*final(root)).len() ==> opt_view(
                    #[trigger] bfs_order(*final(root))[i].node_id,
                ) == Some(zero_padded((i + 1) as nat, 4)),
            final(self).next_id == bfs_order(*old(root)).len() + 1,
            final(self).assign_ids == old(self).assign_ids,
            final(self).include_boundaries == old(self).include_boundaries,
    {
        let ghost r0 = *root;
        let ghost bfs = bfs_order(r0);
        let mut counters: Vec<usize> = Vec::new();
        let mut acc: usize = 1;
        let mut d: usize = 0;
        assert(levels_upto(r0, 0) =~= Seq::<PageNode>::empty());
        loop
            invariant
                r0 == *root,
                bfs == bfs_order(r0),
                bfs.len() < usize::MAX,
                d <= tree_size(r0),
                d <= levels_upto(r0, d as nat).len(),
                counters@.len() == d,
                acc == 1 + levels_upto(r0, d as nat).len(),
                forall|j: int| 0 <= j < d ==> #[trigger] counters@[j] == 1 + levels_upto(r0, j as nat).len(),
                forall|j: int| 0 <= j < d ==> #[trigger] level_nodes(r0, j as nat).len() > 0,
            ensures
                level_nodes(r0, d as nat).len() == 0,
            decreases tree_size(r0) - d,
        {
            let level = level_refs(&*root, d);
            assert(derefs(level@).len() == level@.len());
            if level.len() == 0 {
                break;
            }
            proof {
                lemma_level_bounds(r0, d as nat);
                lemma_levels_upto_push(r0, d as nat);
                lemma_levels_prefix(r0, (d + 1) as nat);
            }
            counters.push(acc);
            acc = acc + level.len();
            d = d + 1;
        }
        proof {
            lemma_bfs_upto(r0, d as nat);
            assert forall|j: nat| #[trigger] level_nodes(r0, j).len() > 0 implies 0 + j < counters@.len() by {
                if j >= d {
                    crate::node::lemma_levels_empty_after(r0, d as nat, j);
                }
            }
            assert forall|j: nat| 0 + j < counters@.len() implies counters@[j as int] + #[trigger] level_nodes(
                r0,
                j,
            ).len() <= usize::MAX by {
                lemma_levels_upto_push(r0, j);
                lemma_levels_prefix(r0, j + 1);
            }
        }
        let ghost c0 = counters@;
        assign_rec(root, 0, &mut counters);
        self.next_id = acc;
        proof {
            let t = tree_size(r0);
            lemma_same_size(*root, r0);
            lemma_same_upto_len(*root, r0, t);
            assert forall|i: int| 0 <= i < bfs_order(*root).len() implies opt_view(
                #[trigger] bfs_order(*root)[i].node_id,
            ) == Some(zero_padded((i + 1) as nat, 4)) by {
                lemma_upto_index(*root, t, i);
                let (j, k) = choose|j: nat, k: int|
                    j < t && 0 <= k < level_nodes(*root, j).len() && i == levels_upto(*root, j).len()
                        + k && levels_upto(*root, t)[i] == #[trigger] level_nodes(*root, j)[k];
                lemma_same_level_len(*root, r0, j);
                lemma_same_upto_len(*root, r0, j);
                assert(level_nodes(r0, j).len() > 0);
                assert(0 + j < c0.len());
                assert(c0[j as int] == 1 + levels_upto(r0, j).len());
            }
        }
    }

    fn build(&mut self, entries: &[TocEntry], pages: Option<&[Page]>) -> (r: PageNode)
        requires
            old(self).assign_ids ==> old(self).next_id + entries.len() <= usize::MAX,
        ensures
            is_root(r),
            is_forest(
                r.children@,
                levels_of(entries@),
                0,
                span_end(levels_of(entries@), 0, 0),
                entry_ok(
                    entries@,
                    old(self).assign_ids,
                    old(self).next_id as int,
                    match pages {
                        Some(ps) => Some(ps@),
                        None => None,
                    },
                    old(self).include_boundaries,
                ),
            ),
            final(self).next_id == old(self).next_id + (if old(self).assign_ids {
                entries.len() as int
            } else {
                0
            }),
            final(self).assign_ids == old(self).assign_ids,
            final(self).include_boundaries == old(self).include_boundaries,
    {
        let mut root = PageNode::new("root", "");
        proof {
            reveal_strlit("");
        }
        root.depth = 0;
        if entries.len() == 0 {
            assert(span_end(levels_of(entries@), 0, 0) == 0);
            return root;
        }
        let (kids, _) = self.build_span(entries, 0, 0, pages);
        root.children = kids;
        if self.assign_ids {
            self.next_id = self.next_id + entries.len();
        }
        root
    }
}

// ------------------------------------------------------------------
// Page text of a whole tree
// ------------------------------------------------------------------

/// Every entry becomes a node: when every entry has a level of at least 1,
/// the tree that [`TreeBuilder::build_from_toc`] (or
/// [`TreeBuilder::build_from_toc_with_content`]) makes holds one node per
/// entry below its root, the entries in order and each under the last
/// shallower entry before it.
pub proof fn lemma_toc_tree_complete(
    entries: Seq<TocEntry>,
    root: PageNode,
    ok: spec_fn(PageNode, int) -> bool,
)
    requires
        forall|i: int| 0 <= i < entries.len() ==> #[trigger] entries[i].level >= 1,
        is_forest(root.children@, levels_of(entries), 0, span_end(levels_of(entries), 0, 0), ok),
    ensures
        span_end(levels_of(entries), 0, 0) == entries.len(),
        forest_size(root.children@) == entries.len(),
{
    let lv = levels_of(entries);
    lemma_span_end(lv, 0, 0);
    if span_end(lv, 0, 0) < entries.len() {
        assert(lv[span_end(lv, 0, 0)] == entries[span_end(lv, 0, 0)].level);
    }
    crate::outline::lemma_forest_size(root.children@, lv, 0, entries.len() as int, ok);
}

/// Whether `new` is `old` with every node that has both page bounds holding
/// the text of those pages as its content: joined by blank lines, or, when
/// `marked` is set, each page wrapped in its boundary markers and joined by
/// line feeds.
pub open spec fn is_populated(new: PageNode, old: PageNode, pages: Seq<Page>, marked: bool) -> bool
    decreases old,
{
    &&& new.title == old.title
    &&& new.summary == old.summary
    &&& new.depth == old.depth
    &&& new.start_page == old.start_page
    &&& new.end_page == old.end_page
    &&& new.node_id == old.node_id
    &&& new.physical_index == old.physical_index
    &&& new.content@ == (match (old.start_page, old.end_page) {
        (Some(a), Some(b)) => if marked {
            marked_range_text(pages, a as int, b as int)
        } else {
            page_range_text(pages, a as int, b as int)
        },
        _ => old.content@,
    })
    &&& new.children@.len() == old.children@.len()
    &&& forall|i: int|
        0 <= i < old.children@.len() ==> is_populated(
            #[trigger] new.children@[i],
            old.children@[i],
            pages,
            marked,
        )
}

fn populate(node: &mut PageNode, pages: &[Page], marked: bool)
    ensures
        is_populated(*final(node), *old(node), pages@, marked),
    decreases *old(node),
{
    if let (Some(a), Some(b)) = (node.start_page, node.end_page) {
        node.content = if marked {
            extract_page_range_with_boundaries(pages, a, b)
        } else {
            extract_page_range(pages, a, b)
        };
    }
    let mut kids: Vec<PageNode> = Vec::new();
    std::mem::swap(&mut kids, &mut node.children);
    let ghost olds = kids@;
    assert(olds == old(node).children@);
    assert(olds.len() == kids.len());
    let mut done: Vec<PageNode> = Vec::new();
    let mut i: usize = 0;
    while kids.len() > 0
        invariant
            olds == old(node).children@,
            olds.len() <= usize::MAX,
            i + kids@.len() == olds.len(),
            kids@ == olds.skip(i as int),
            done@.len() == i,
            forall|j: int| 0 <= j < i ==> is_populated(#[trigger] done@[j], olds[j], pages@, marked),
        decreases kids@.len(),
    {
        let mut c = kids.remove(0);
        assert(c == olds[i as int]);
        assert(kids@ =~= olds.skip(i + 1));
        assert(decreases_to!(*old(node) => old(node).children@[i as int]));
        populate(&mut c, pages, marked);
        done.push(c);
        i = i + 1;
    }
    node.children = done;
}

// ------------------------------------------------------------------
// Queries on trees
// ------------------------------------------------------------------

/// Index of the first tree in `s` that covers `page`.
pub open spec fn first_covering(s: Seq<PageNode>, page: usize) -> Option<int>
    decreases s.len(),
{
    if s.len() == 0 {
        None
    } else if covers(s[0], page) {
        Some(0)
    } else {
        match first_covering(s.drop_first(), page) {
            Some(i) => Some(i + 1),
            None => None,
        }
    }
}

/// Characterisation of [`first_covering`] by its defining property.
pub proof fn lemma_first_covering_is(s: Seq<PageNode>, page: usize, i: int)
    requires
        0 <= i <= s.len(),
        forall|j: int| 0 <= j < i ==> !covers(#[trigger] s[j], page),
        i < s.len() ==> covers(s[i], page),
    ensures
        first_covering(s, page) == (if i < s.len() { Some(i) } else { None::<int> }),
    decreases s.len(),
{
    if s.len() > 0 && i > 0 {
        assert forall|j: int| 0 <= j < i - 1 implies !covers(#[trigger] s.drop_first()[j], page) by {
            assert(s.drop_first()[j] == s[j + 1]);
        }
        if i < s.len() {
            assert(s.drop_first()[i - 1] == s[i]);
        }
        lemma_first_covering_is(s.drop_first(), page, i - 1);
        assert(!covers(s[0], page));
    }
}

/// The most specific node below `n` for `page`: the first child covering
/// the page, or the node for the page below that child when there is one.
pub open spec fn page_node(n: PageNode, page: usize) -> Option<PageNode>
    decreases n,
{
    match first_covering(n.children@, page) {
        None => None,
        Some(i) => if 0 <= i < n.children@.len() {
            match page_node(n.children@[i], page) {
                Some(x) => Some(x),
                None => Some(n.children@[i]),
            }
        } else {
            None
        },
    }
}

/// Finds the most specific node for `page`: among the children of `root`,
/// the first one that covers the page; then, the same search below it, or
/// that child when nothing below it covers the page. The root itself is
/// never the answer.
pub fn find_node_for_page<'a>(root: &'a PageNode, page: usize) -> (r: Option<&'a PageNode>)
    ensures
        match page_node(*root, page) {
            None => r is None,
            Some(x) => r matches Some(y) && *y == x,
        },
    decreases root,
{
    let mut i: usize = 0;
    while i < root.children.len()
        invariant
            i <= root.children.len(),
            forall|j: int| 0 <= j < i ==> !covers(#[trigger] root.children@[j], page),
        decreases root.children.len() - i,
    {
        let child = &root.children[i];
        if child.contains_page(page) {
            proof {
                lemma_first_covering_is(root.children@, page, i as int);
            }
            assert(decreases_to!(*root => root.children@[i as int]));
            match find_node_for_page(child, page) {
                Some(found) => {
                    return Some(found);
                },
                None => {
                    return Some(child);
                },
            }
        }
        i = i + 1;
    }
    proof {
        lemma_first_covering_is(root.children@, page, root.children.len() as int);
    }
    None
}

/// What [`first_covering`] finds: the index of a child that covers the page,
/// with none before it covering it; or no index when none covers it.
pub proof fn lemma_first_covering(s: Seq<PageNode>, page: usize)
    ensures
        match first_covering(s, page) {
            Some(i) => 0 <= i < s.len() && covers(s[i], page) && forall|j: int|
                0 <= j < i ==> !covers(#[trigger] s[j], page),
            None => forall|j: int| 0 <= j < s.len() ==> !covers(#[trigger] s[j], page),
        },
    decreases s.len(),
{
    if s.len() > 0 {
        lemma_first_covering(s.drop_first(), page);
        if !covers(s[0], page) {
            match first_covering(s.drop_first(), page) {
                Some(i) => {
                    assert(s[i + 1] == s.drop_first()[i]);
                    assert forall|j: int| 0 <= j < i + 1 implies !covers(#[trigger] s[j], page) by {
                        if j > 0 {
                            assert(s[j] == s.drop_first()[j - 1]);
                        }
                    }
                },
                None => {
                    assert forall|j: int| 0 <= j < s.len() implies !covers(#[trigger] s[j], page) by {
                        if j > 0 {
                            assert(s[j] == s.drop_first()[j - 1]);
                        }
                    }
                },
            }
        }
    }
}

/// A node of one tree of a forest is a node of the forest's pre-order.
pub proof fn lemma_forest_preorder_contains(s: Seq<PageNode>, j: int, y: PageNode)
    requires
        0 <= j < s.len(),
        preorder(s[j]).contains(y),
    ensures
        forest_preorder(s).contains(y),
    decreases s.len(),
{
    let a = forest_preorder(s.drop_last());
    let b = preorder(s.last());
    assert(forest_preorder(s) == a + b);
    if j == s.len() - 1 {
        let q = choose|q: int| 0 <= q < b.len() && b[q] == y;
        assert((a + b)[a.len() + q] == y);
    } else {
        assert(s.drop_last()[j] == s[j]);
        lemma_forest_preorder_contains(s.drop_last(), j, y);
        let q = choose|q: int| 0 <= q < a.len() && a[q] == y;
        assert((a + b)[q] == y);
    }
}

/// The node found for a page (see [`find_node_for_page`]): there is one
/// exactly when some child of the root covers the page; it covers the
/// page, and none of its own children does, so it is the most specific
/// node on its branch; and it lies in the tree of the first child of the
/// root that covers the page. A covering child is itself the answer when
/// nothing below it covers the page.
pub proof fn lemma_page_node_found(root: PageNode, page: usize)
    ensures
        page_node(root, page) is Some <==> exists|i: int|
            0 <= i < root.children@.len() && covers(#[trigger] root.children@[i], page),
        page_node(root, page) matches Some(x) ==> covers(x, page) && forall|j: int|
            0 <= j < x.children@.len() ==> !covers(#[trigger] x.children@[j], page),
        page_node(root, page) matches Some(x) ==> exists|i: int|
            0 <= i < root.children@.len() && covers(#[trigger] root.children@[i], page) && (forall|j: int|
                0 <= j < i ==> !covers(#[trigger] root.children@[j], page)) && preorder(root.children@[i]).contains(x),
    decreases root,
{
    lemma_first_covering(root.children@, page);
    match first_covering(root.children@, page) {
        None => {},
        Some(i) => {
            let c = root.children@[i];
            assert(decreases_to!(root => root.children@[i]));
            lemma_page_node_found(c, page);
            match page_node(c, page) {
                Some(x) => {
                    let i2 = choose|i2: int| 0 <= i2 < c.children@.len() && covers(#[trigger] c.children@[i2], page)
                        && (forall|j: int| 0 <= j < i2 ==> !covers(#[trigger] c.children@[j], page))
                        && preorder(c.children@[i2]).contains(x);
                    lemma_forest_preorder_contains(c.children@, i2, x);
                    let fp = forest_preorder(c.children@);
                    let q = choose|q: int| 0 <= q < fp.len() && fp[q] == x;
                    assert(preorder(c) == seq![c] + fp);
                    assert(preorder(c)[q + 1] == x);
                },
                None => {
                    assert(forall|j: int| 0 <= j < c.children@.len() ==> !covers(#[trigger] c.children@[j], page));
                    assert(preorder(c)[0] == c);
                },
            }
        },
    }
}

/// A node made for a table-of-contents entry takes its pages from the
/// entry's physical marker when that marker reads as a page `k`: whatever
/// the printed page, the node spans page `k` alone and, given pages, holds
/// the text of page `k`. The printed page counts only when there is no
/// readable marker; with neither, the node has no pages and no text.
pub proof fn lemma_entry_node_pages(
    n: PageNode,
    e: TocEntry,
    assign_ids: bool,
    id: int,
    pages: Option<Seq<Page>>,
    marked: bool,
    k: usize,
)
    requires
        is_entry_node(n, e, assign_ids, id, pages, marked),
    ensures
        (e.physical_index is Some && marker_page(e.physical_index->0@) == Some(k)) ==> {
            &&& n.start_page == Some(k)
            &&& n.end_page == Some(k)
            &&& (pages matches Some(ps) ==> n.content@ == (if marked {
                marked_range_text(ps, k as int, k as int)
            } else {
                page_range_text(ps, k as int, k as int)
            }))
        },
        (e.physical_index is None || marker_page(e.physical_index->0@) is None) ==> {
            &&& n.start_page == e.page
            &&& n.end_page == e.page
            &&& (e.page is None ==> n.content@.len() == 0)
        },
{
}

/// The nodes that references point to.
pub open spec fn derefs(s: Seq<&PageNode>) -> Seq<PageNode> {
    s.map_values(|x: &PageNode| *x)
}

/// Whether `n` has both page bounds and its pages meet `start..=end`.
pub open spec fn overlaps(n: PageNode, start: usize, end: usize) -> bool {
    match (n.start_page, n.end_page) {
        (Some(a), Some(b)) => a <= end && b >= start,
        _ => false,
    }
}

/// [`overlaps`] as a predicate.
pub open spec fn overlap_pred(start: usize, end: usize) -> spec_fn(PageNode) -> bool {
    |n: PageNode| overlaps(n, start, end)
}

/// The pre-order of a forest grows by one tree at a time.
pub proof fn lemma_forest_preorder_take(s: Seq<PageNode>, i: int)
    requires
        0 <= i < s.len(),
    ensures
        forest_preorder(s.take(i + 1)) == forest_preorder(s.take(i)) + preorder(s[i]),
{
    assert(s.take(i + 1).drop_last() =~= s.take(i));
    assert(s.take(i + 1).last() == s[i]);
}

fn collect_overlapping<'a>(node: &'a PageNode, start: usize, end: usize, out: &mut Vec<
    &'a PageNode,
>)
    ensures
        derefs(final(out)@) == derefs(old(out)@) + preorder(*node).filter(overlap_pred(start, end)),
    decreases node,
{
    let ghost pred = overlap_pred(start, end);
    let ghost before = derefs(out@);
    let hit = match (node.start_page, node.end_page) {
        (Some(a), Some(b)) => a <= end && b >= start,
        _ => false,
    };
    if hit {
        out.push(node);
    }
    proof {
        assert(seq![*node].filter(pred) =~= (if hit { seq![*node] } else { Seq::empty() })) by {
            assert(seq![*node] =~= Seq::<PageNode>::empty().push(*node));
            Seq::<PageNode>::empty().lemma_filter_push(*node, pred);
            assert(Seq::<PageNode>::empty().filter(pred) =~= Seq::<PageNode>::empty());
        }
        assert(derefs(out@) =~= before + seq![*node].filter(pred));
        assert(node.children@.take(0) =~= Seq::<PageNode>::empty());
        assert(seq![*node] + forest_preorder(node.children@.take(0)) =~= seq![*node]);
    }
    let mut i: usize = 0;
    while i < node.children.len()
        invariant
            i <= node.children.len(),
            pred == overlap_pred(start, end),
            derefs(out@) == before + (seq![*node] + forest_preorder(node.children@.take(i as int))).filter(pred),
        decreases node.children.len() - i,
    {
        let ghost mid = derefs(out@);
        assert(decreases_to!(*node => node.children@[i as int]));
        collect_overlapping(&node.children[i], start, end, out);
        proof {
            lemma_forest_preorder_take(node.children@, i as int);
            let a = seq![*node] + forest_preorder(node.children@.take(i as int));
            let b = preorder(node.children@[i as int]);
            assert(seq![*node] + forest_preorder(node.children@.take(i + 1)) =~= a + b);
            Seq::filter_distributes_over_add(a, b, pred);
        }
        i = i + 1;
    }
    assert(node.children@.take(node.children.len() as int) =~= node.children@);
}

/// The nodes of the tree, in pre-order, whose page range (both bounds
/// known) meets `start..=end`.
pub fn collect_nodes_in_page_range<'a>(root: &'a PageNode, start: usize, end: usize) -> (r: Vec<
    &'a PageNode,
>)
    ensures
        derefs(r@) == preorder(*root).filter(overlap_pred(start, end)),
{
    let mut out: Vec<&PageNode> = Vec::new();
    collect_overlapping(root, start, end, &mut out);
    assert(derefs(Seq::<&PageNode>::empty()) =~= Seq::<PageNode>::empty());
    assert(Seq::<PageNode>::empty() + preorder(*root).filter(overlap_pred(start, end))
        =~= preorder(*root).filter(overlap_pred(start, end)));
    out
}

/// The titles of the nodes met when walking down from `n` by the child
/// indices in `path`, `n` included; the walk stops at an index that names
/// no child.
pub open spec fn path_titles(n: PageNode, path: Seq<usize>) -> Seq<Seq<char>>
    decreases path.len(),
{
    if path.len() > 0 && path[0] < n.children@.len() {
        seq![n.title@] + path_titles(n.children@[path[0] as int], path.drop_first())
    } else {
        seq![n.title@]
    }
}

/// Views of strings.
pub open spec fn string_views(s: Seq<String>) -> Seq<Seq<char>> {
    s.map_values(|x: String| x@)
}

/// The titles from `root` down to the node that the child indices in
/// `path` lead to (see [`path_titles`]).
pub fn get_path_to_node(root: &PageNode, path: &[usize]) -> (r: Vec<String>)
    ensures
        string_views(r@) == path_titles(*root, path@),
{
    let mut out: Vec<String> = Vec::new();
    let mut cur = root;
    let mut i: usize = 0;
    assert(path@.skip(0) =~= path@);
    loop
        invariant
            i <= path.len(),
            string_views(out@) + path_titles(*cur, path@.skip(i as int)) == path_titles(
                *root,
                path@,
            ),
        decreases path.len() - i,
    {
        let ghost rest = path@.skip(i as int);
        let ghost before = string_views(out@);
        out.push(cur.title.clone());
        assert(string_views(out@) =~= before + seq![cur.title@]);
        if i < path.len() && path[i] < cur.children.len() {
            assert(rest[0] == path@[i as int]);
            assert(rest.drop_first() =~= path@.skip(i + 1));
            assert(before + path_titles(*cur, rest) =~= string_views(out@) + path_titles(
                cur.children@[path@[i as int] as int],
                path@.skip(i + 1),
            ));
            cur = &cur.children[path[i]];
            i = i + 1;
        } else {
            assert(path_titles(*cur, rest) == seq![cur.title@]);
            assert(string_views(out@) =~= before + path_titles(*cur, rest));
            return out;
        }
    }
}

// ------------------------------------------------------------------
// Levels and validation
// ------------------------------------------------------------------

/// The nodes at distance `d` below `root`, left to right.
pub fn level_refs<'a>(root: &'a PageNode, d: usize) -> (r: Vec<&'a PageNode>)
    ensures
        derefs(r@) == level_nodes(*root, d as nat),
    decreases root,
{
    let mut out: Vec<&PageNode> = Vec::new();
    if d == 0 {
        out.push(root);
        assert(derefs(out@) =~= seq![*root]);
        return out;
    }
    let ghost kids = root.children@;
    let mut i: usize = 0;
    assert(kids.take(0) =~= Seq::<PageNode>::empty());
    while i < root.children.len()
        invariant
            i <= root.children.len(),
            d > 0,
            kids == root.children@,
            derefs(out@) == forest_level(kids.take(i as int), (d - 1) as nat),
        decreases root.children.len() - i,
    {
        assert(decreases_to!(*root => root.children@[i as int]));
        let mut sub = level_refs(&root.children[i], d - 1);
        let ghost before = out@;
        let ghost added = sub@;
        out.append(&mut sub);
        proof {
            assert(kids.take(i + 1).drop_last() =~= kids.take(i as int));
            assert(kids.take(i + 1).last() == kids[i as int]);
            assert(derefs(out@) =~= derefs(before) + derefs(added));
        }
        i = i + 1;
    }
    assert(kids.take(root.children.len() as int) =~= kids);
    out
}

/// Every level up to `d` (below the tree's size) is a prefix of the
/// breadth-first order.
pub proof fn lemma_levels_prefix(n: PageNode, d: nat)
    requires
        d <= tree_size(n),
    ensures
        levels_upto(n, d).len() <= bfs_order(n).len(),
        bfs_order(n).take(levels_upto(n, d).len() as int) == levels_upto(n, d),
{
    let t = tree_size(n);
    let all = Seq::new(t, |j: int| level_nodes(n, j as nat));
    let head = Seq::new(d, |j: int| level_nodes(n, j as nat));
    let tail = all.subrange(d as int, t as int);
    assert(all =~= head + tail);
    vstd::seq_lib::lemma_flatten_concat(head, tail);
    assert((head.flatten() + tail.flatten()).take(head.flatten().len() as int) =~= head.flatten());
}

/// Whether the page bounds of `n` (when both are known) are invalid for a
/// document of `total` pages: outside `1..=total`, or start after end.
pub open spec fn page_fault(n: PageNode, total: usize) -> bool {
    match (n.start_page, n.end_page) {
        (Some(a), Some(b)) => a < 1 || b > total || a > b,
        _ => false,
    }
}

/// Page bound validation error.
pub enum ValidationError {
    /// A page bound outside the document.
    PageOutOfRange {
        /// Title of the node.
        title: String,
        /// First page of the node.
        start: usize,
        /// Last page of the node.
        end: usize,
        /// Pages of the document.
        total_pages: usize,
    },
    /// A range whose start is after its end.
    InvalidPageRange {
        /// Title of the node.
        title: String,
        /// First page of the node.
        start: usize,
        /// Last page of the node.
        end: usize,
    },
}

/// Whether `e` reports the fault of node `n` in a document of `total`
/// pages: out of range first, then an inverted range.
pub open spec fn reports_fault(e: ValidationError, n: PageNode, total: usize) -> bool {
    match (n.start_page, n.end_page) {
        (Some(a), Some(b)) => if a < 1 || b > total {
            e matches ValidationError::PageOutOfRange { title, start, end, total_pages } && title@
                == n.title@ && start == a && end == b && total_pages == total
        } else {
            e matches ValidationError::InvalidPageRange { title, start, end } && title@
                == n.title@ && start == a && end == b
        },
        _ => false,
    }
}

/// The message of a validation error.
pub open spec fn validation_message(e: ValidationError) -> Seq<char> {
    match e {
        ValidationError::PageOutOfRange { title, start, end, total_pages } =>
            "Page number out of range for node '"@ + title@ + "': range "@ + decimal(start as nat)
            + "-"@ + decimal(end as nat) + ", document has "@ + decimal(total_pages as nat)
            + " pages"@,
        ValidationError::InvalidPageRange { title, start, end } =>
            "Invalid page range for node '"@ + title@ + "': start "@ + decimal(start as nat)
            + " > end "@ + decimal(end as nat),
    }
}

impl ValidationError {
    /// The error message.
    pub fn message(&self) -> (r: String)
        ensures
            r@ == validation_message(*self),
    {
        let mut m: Vec<char> = Vec::new();
        match self {
            ValidationError::PageOutOfRange { title, start, end, total_pages } => {
                extend_str(&mut m, "Page number out of range for node '");
                extend_str(&mut m, title.as_str());
                extend_str(&mut m, "': range ");
                extend_chars(&mut m, &decimal_chars(*start));
                extend_str(&mut m, "-");
                extend_chars(&mut m, &decimal_chars(*end));
                extend_str(&mut m, ", document has ");
                extend_chars(&mut m, &decimal_chars(*total_pages));
                extend_str(&mut m, " pages");
            },
            ValidationError::InvalidPageRange { title, start, end } => {
                extend_str(&mut m, "Invalid page range for node '");
                extend_str(&mut m, title.as_str());
                extend_str(&mut m, "': start ");
                extend_chars(&mut m, &decimal_chars(*start));
                extend_str(&mut m, " > end ");
                extend_chars(&mut m, &decimal_chars(*end));
            },
        }
        assert(m@ =~= validation_message(*self));
        string_from(&m)
    }
}

fn fault_report(n: &PageNode, total_pages: usize) -> (r: Option<ValidationError>)
    ensures
        r is Some <==> page_fault(*n, total_pages),
        r matches Some(e) ==> reports_fault(e, *n, total_pages),
{
    if let (Some(start), Some(end)) = (n.start_page, n.end_page) {
        if start < 1 || end > total_pages {
            return Some(
                ValidationError::PageOutOfRange {
                    title: n.title.clone(),
                    start,
                    end,
                    total_pages,
                },
            );
        }
        if start > end {
            return Some(ValidationError::InvalidPageRange { title: n.title.clone(), start, end });
        }
    }
    None
}

/// Checks the page bounds of every node (with both bounds known) in
/// breadth-first order, and reports the first node whose range is outside
/// `1..=total_pages` or inverted.
pub fn validate_page_boundaries(root: &PageNode, total_pages: usize) -> (r: Result<
    (),
    ValidationError,
>)
    requires
        bfs_order(*root).len() < usize::MAX,
    ensures
        r is Ok <==> forall|i: int|
            0 <= i < bfs_order(*root).len() ==> !page_fault(#[trigger] bfs_order(*root)[i], total_pages),
        r matches Err(e) ==> exists|i: int|
            0 <= i < bfs_order(*root).len() && page_fault(#[trigger] bfs_order(*root)[i], total_pages)
                && reports_fault(e, bfs_order(*root)[i], total_pages) && forall|j: int|
                0 <= j < i ==> !page_fault(bfs_order(*root)[j], total_pages),
{
    let ghost bfs = bfs_order(*root);
    let mut d: usize = 0;
    assert(levels_upto(*root, 0) =~= Seq::<PageNode>::empty());
    loop
        invariant
            bfs == bfs_order(*root),
            bfs.len() < usize::MAX,
            d <= tree_size(*root),
            d <= levels_upto(*root, d as nat).len(),
            forall|j: int|
                0 <= j < levels_upto(*root, d as nat).len() ==> !page_fault(
                    #[trigger] levels_upto(*root, d as nat)[j],
                    total_pages,
                ),
        decreases tree_size(*root) - d,
    {
        let level = level_refs(root, d);
        let ghost upto = levels_upto(*root, d as nat);
        let ghost lv = level_nodes(*root, d as nat);
        assert(derefs(level@).len() == level@.len());
        if level.len() == 0 {
            proof {
                lemma_bfs_upto(*root, d as nat);
            }
            return Ok(());
        }
        proof {
            lemma_level_bounds(*root, d as nat);
            lemma_levels_upto_push(*root, d as nat);
            lemma_levels_prefix(*root, (d + 1) as nat);
            assert(upto + lv == bfs.take((upto.len() + lv.len()) as int));
            assert(upto.len() + lv.len() <= bfs.len());
        }
        let mut k: usize = 0;
        while k < level.len()
            invariant
                k <= level.len(),
                derefs(level@) == lv,
                upto + lv == bfs.take((upto.len() + lv.len()) as int),
                upto.len() + lv.len() <= bfs.len(),
                bfs == bfs_order(*root),
                forall|j: int| 0 <= j < upto.len() ==> !page_fault(#[trigger] upto[j], total_pages),
                forall|j: int| 0 <= j < k ==> !page_fault(#[trigger] lv[j], total_pages),
            decreases level.len() - k,
        {
            let node: &PageNode = level[k];
            assert(*node == lv[k as int]);
            match fault_report(node, total_pages) {
                Some(e) => {
                    proof {
                        let g = upto.len() + k;
                        assert(bfs[g] == (upto + lv)[g]);
                        assert(bfs_order(*root)[g] == *node);
                        assert(page_fault(bfs_order(*root)[g], total_pages));
                        assert(reports_fault(e, bfs_order(*root)[g], total_pages));
                        assert forall|j: int| 0 <= j < g implies !page_fault(bfs[j], total_pages) by {
                            assert(bfs[j] == (upto + lv)[j]);
                            if j >= upto.len() {
                                assert((upto + lv)[j] == lv[j - upto.len()]);
                            }
                        }
                    }
                    return Err(e);
                },
                None => {},
            }
            k = k + 1;
        }
        proof {
            assert forall|j: int| 0 <= j < (upto + lv).len() implies !page_fault(
                #[trigger] (upto + lv)[j],
                total_pages,
            ) by {
                if j >= upto.len() {
                    assert((upto + lv)[j] == lv[j - upto.len()]);
                }
            }
            assert(levels_upto(*root, (d + 1) as nat) == upto + lv);
        }
        d = d + 1;
    }
}

// ------------------------------------------------------------------
// Identifiers in breadth-first order
// ------------------------------------------------------------------

/// Whether `new` is `old` with at most the node identifiers changed.
pub open spec fn same_but_ids(new: PageNode, old: PageNode) -> bool
    decreases old,
{
    &&& new.title == old.title
    &&& new.content == old.content
    &&& new.summary == old.summary
    &&& new.depth == old.depth
    &&& new.start_page == old.start_page
    &&& new.end_page == old.end_page
    &&& new.physical_index == old.physical_index
    &&& new.children@.len() == old.children@.len()
    &&& forall|i: int|
        0 <= i < old.children@.len() ==> same_but_ids(#[trigger] new.children@[i], old.children@[i])
}

/// Trees that differ at most in identifiers have levels of the same sizes.
pub proof fn lemma_same_level_len(a: PageNode, b: PageNode, j: nat)
    requires
        same_but_ids(a, b),
    ensures
        level_nodes(a, j).len() == level_nodes(b, j).len(),
    decreases b,
{
    if j > 0 {
        lemma_same_forest_level_len(a.children@, b.children@, (j - 1) as nat);
    }
}

/// [`lemma_same_level_len`] for sequences of trees.
pub proof fn lemma_same_forest_level_len(s1: Seq<PageNode>, s2: Seq<PageNode>, j: nat)
    requires
        s1.len() == s2.len(),
        forall|i: int| 0 <= i < s2.len() ==> same_but_ids(#[trigger] s1[i], s2[i]),
    ensures
        forest_level(s1, j).len() == forest_level(s2, j).len(),
    decreases s2,
{
    if s2.len() > 0 {
        assert forall|i: int| 0 <= i < s2.drop_last().len() implies same_but_ids(
            #[trigger] s1.drop_last()[i],
            s2.drop_last()[i],
        ) by {
            assert(same_but_ids(s1[i], s2[i]));
        }
        lemma_same_forest_level_len(s1.drop_last(), s2.drop_last(), j);
        assert(same_but_ids(s1[s2.len() - 1], s2[s2.len() - 1]));
        lemma_same_level_len(s1.last(), s2.last(), j);
    }
}

/// Trees that differ at most in identifiers have the same size.
pub proof fn lemma_same_size(a: PageNode, b: PageNode)
    requires
        same_but_ids(a, b),
    ensures
        tree_size(a) == tree_size(b),
    decreases b,
{
    lemma_same_forest_size(a.children@, b.children@);
}

/// [`lemma_same_size`] for sequences of trees.
pub proof fn lemma_same_forest_size(s1: Seq<PageNode>, s2: Seq<PageNode>)
    requires
        s1.len() == s2.len(),
        forall|i: int| 0 <= i < s2.len() ==> same_but_ids(#[trigger] s1[i], s2[i]),
    ensures
        crate::node::forest_size(s1) == crate::node::forest_size(s2),
    decreases s2,
{
    if s2.len() > 0 {
        assert forall|i: int| 0 <= i < s2.drop_last().len() implies same_but_ids(
            #[trigger] s1.drop_last()[i],
            s2.drop_last()[i],
        ) by {
            assert(same_but_ids(s1[i], s2[i]));
        }
        lemma_same_forest_size(s1.drop_last(), s2.drop_last());
        assert(same_but_ids(s1[s2.len() - 1], s2[s2.len() - 1]));
        lemma_same_size(s1.last(), s2.last());
    }
}

/// Trees that differ at most in identifiers have level prefixes of the
/// same length.
pub proof fn lemma_same_upto_len(a: PageNode, b: PageNode, d: nat)
    requires
        same_but_ids(a, b),
    ensures
        levels_upto(a, d).len() == levels_upto(b, d).len(),
    decreases d,
{
    if d > 0 {
        lemma_same_upto_len(a, b, (d - 1) as nat);
        lemma_levels_upto_push(a, (d - 1) as nat);
        lemma_levels_upto_push(b, (d - 1) as nat);
        lemma_same_level_len(a, b, (d - 1) as nat);
    } else {
        assert(levels_upto(a, 0) =~= Seq::<PageNode>::empty());
        assert(levels_upto(b, 0) =~= Seq::<PageNode>::empty());
    }
}

/// A prefix of a forest has no more nodes on any level than the forest.
pub proof fn lemma_forest_level_take(s: Seq<PageNode>, m: int, j: nat)
    requires
        0 <= m <= s.len(),
    ensures
        forest_level(s.take(m), j).len() <= forest_level(s, j).len(),
    decreases s.len() - m,
{
    if m < s.len() {
        lemma_forest_level_take(s, m + 1, j);
        assert(s.take(m + 1).drop_last() =~= s.take(m));
    } else {
        assert(s.take(m) =~= s);
    }
}

/// Where an index into the first `d` levels falls: some level `j < d`, at
/// some position `k`.
pub proof fn lemma_upto_index(n: PageNode, d: nat, i: int)
    requires
        0 <= i < levels_upto(n, d).len(),
    ensures
        exists|j: nat, k: int|
            j < d && 0 <= k < level_nodes(n, j).len() && i == levels_upto(n, j).len() + k
                && levels_upto(n, d)[i] == #[trigger] level_nodes(n, j)[k],
    decreases d,
{
    if d == 0 {
        assert(levels_upto(n, 0) =~= Seq::<PageNode>::empty());
    } else {
        let e = (d - 1) as nat;
        lemma_levels_upto_push(n, e);
        let u = levels_upto(n, e);
        if i < u.len() {
            lemma_upto_index(n, e, i);
            let (j, k) = choose|j: nat, k: int|
                j < e && 0 <= k < level_nodes(n, j).len() && i == levels_upto(n, j).len() + k
                    && levels_upto(n, e)[i] == #[trigger] level_nodes(n, j)[k];
            assert(levels_upto(n, d)[i] == u[i]);
            assert(j < d && levels_upto(n, d)[i] == level_nodes(n, j)[k]);
        } else {
            let k = i - u.len();
            assert(levels_upto(n, d)[i] == level_nodes(n, e)[k]);
        }
    }
}

fn assign_rec(node: &mut PageNode, d: usize, counters: &mut Vec<usize>)
    requires
        forall|j: nat|
            #[trigger] level_nodes(*old(node), j).len() > 0 ==> d + j < old(counters)@.len(),
        forall|j: nat|
            d + j < old(counters)@.len() ==> old(counters)@[d + j] + #[trigger] level_nodes(
                *old(node),
                j,
            ).len() <= usize::MAX,
    ensures
        same_but_ids(*final(node), *old(node)),
        final(counters)@.len() == old(counters)@.len(),
        forall|x: int|
            0 <= x < old(counters)@.len() ==> #[trigger] final(counters)@[x] == old(counters)@[x]
                + (if x >= d {
                level_nodes(*old(node), (x - d) as nat).len() as int
            } else {
                0
            }),
        forall|j: nat, k: int|
            0 <= k < level_nodes(*final(node), j).len() ==> opt_view(
                #[trigger] level_nodes(*final(node), j)[k].node_id,
            ) == Some(zero_padded((old(counters)@[d + j] + k) as nat, 4)),
    decreases *old(node),
{
    let ghost c0 = counters@;
    let ghost oldn = *node;
    assert(c0.len() == counters.len());
    assert(level_nodes(oldn, 0).len() > 0);
    let c = counters[d];
    node.node_id = Some(string_from(&zero_padded_chars(c, 4)));
    assert(c0[d + 0] + level_nodes(oldn, 0).len() <= usize::MAX);
    counters.set(d, c + 1);
    let mut kids: Vec<PageNode> = Vec::new();
    std::mem::swap(&mut kids, &mut node.children);
    let ghost olds = kids@;
    assert(olds.len() == kids.len());
    let mut done: Vec<PageNode> = Vec::new();
    let mut i: usize = 0;
    assert(olds.take(0) =~= Seq::<PageNode>::empty());
    while kids.len() > 0
        invariant
            olds == oldn.children@,
            oldn == *old(node),
            olds.len() <= usize::MAX,
            i + kids@.len() == olds.len(),
            kids@ == olds.skip(i as int),
            done@.len() == i,
            forall|m: int| 0 <= m < i ==> same_but_ids(#[trigger] done@[m], olds[m]),
            counters@.len() == c0.len(),
            c0.len() <= usize::MAX,
            d < c0.len(),
            forall|j: nat|
                #[trigger] level_nodes(oldn, j).len() > 0 ==> d + j < c0.len(),
            forall|j: nat|
                d + j < c0.len() ==> c0[d + j] + #[trigger] level_nodes(oldn, j).len() <= usize::MAX,
            forall|x: int|
                0 <= x < c0.len() ==> #[trigger] counters@[x] == c0[x] + (if x == d {
                    1int
                } else if x > d {
                    forest_level(olds.take(i as int), (x - d - 1) as nat).len() as int
                } else {
                    0
                }),
            forall|j: nat, k: int|
                0 <= k < forest_level(done@, j).len() ==> opt_view(
                    #[trigger] forest_level(done@, j)[k].node_id,
                ) == Some(zero_padded((c0[d + 1 + j] + k) as nat, 4)),
        decreases kids@.len(),
    {
        let mut ch = kids.remove(0);
        assert(ch == olds[i as int]);
        assert(kids@ =~= olds.skip(i + 1));
        let ghost before = counters@;
        let ghost donev = done@;
        let ghost oldch = ch;
        proof {
            assert forall|j: nat|
                #[trigger] level_nodes(ch, j).len() > 0 implies d + 1 + j < before.len() by {
                lemma_forest_level_take(olds, i + 1, j);
                assert(olds.take(i + 1).drop_last() =~= olds.take(i as int));
                assert(olds.take(i + 1).last() == ch);
                assert(level_nodes(oldn, j + 1) == forest_level(olds, j));
            }
            assert forall|j: nat|
                d + 1 + j < before.len() implies before[d + 1 + j] + #[trigger] level_nodes(
                    ch,
                    j,
                ).len() <= usize::MAX by {
                lemma_forest_level_take(olds, i + 1, j);
                assert(olds.take(i + 1).drop_last() =~= olds.take(i as int));
                assert(olds.take(i + 1).last() == ch);
                assert(level_nodes(oldn, j + 1) == forest_level(olds, j));
                assert(before[d + 1 + j] == c0[d + 1 + j] + forest_level(
                    olds.take(i as int),
                    j,
                ).len());
                assert(c0[d + (j + 1)] + level_nodes(oldn, j + 1).len() <= usize::MAX);
            }
            assert(decreases_to!(*old(node) => old(node).children@[i as int]));
        }
        assign_rec(&mut ch, d + 1, counters);
        done.push(ch);
        proof {
            assert(olds.take(i + 1).drop_last() =~= olds.take(i as int));
            assert(olds.take(i + 1).last() == olds[i as int]);
            assert(done@.drop_last() =~= donev);
            assert forall|x: int| 0 <= x < c0.len() implies #[trigger] counters@[x] == c0[x] + (if x
                == d {
                1int
            } else if x > d {
                forest_level(olds.take(i + 1), (x - d - 1) as nat).len() as int
            } else {
                0
            }) by {
                assert(counters@[x] == before[x] + (if x >= d + 1 {
                    level_nodes(olds[i as int], (x - d - 1) as nat).len() as int
                } else {
                    0
                }));
            }
            assert forall|j: nat, k: int| 0 <= k < forest_level(done@, j).len() implies opt_view(
                #[trigger] forest_level(done@, j)[k].node_id,
            ) == Some(zero_padded((c0[d + 1 + j] + k) as nat, 4)) by {
                assert(forest_level(done@, j) == forest_level(donev, j) + level_nodes(ch, j));
                assert forall|m: int| 0 <= m < i implies same_but_ids(
                    #[trigger] donev[m],
                    olds.take(i as int)[m],
                ) by {
                    assert(same_but_ids(done@[m], olds[m]));
                }
                lemma_same_forest_level_len(donev, olds.take(i as int), j);
                let p = forest_level(donev, j).len();
                if k < p {
                    assert(forest_level(done@, j)[k] == forest_level(donev, j)[k]);
                } else {
                    assert(forest_level(done@, j)[k] == level_nodes(ch, j)[k - p]);
                    lemma_same_level_len(ch, oldch, j);
                    assert(level_nodes(oldch, j).len() > 0);
                    assert(d + 1 + j < before.len());
                    assert(before[d + 1 + j] == c0[d + 1 + j] + p);
                    assert(opt_view(level_nodes(ch, j)[k - p].node_id) == Some(
                        zero_padded((before[d + 1 + j] + (k - p)) as nat, 4),
                    ));
                }
            }
        }
        i = i + 1;
    }
    node.children = done;
    proof {
        assert(olds.take(olds.len() as int) =~= olds);
        assert forall|j: nat, k: int| 0 <= k < level_nodes(*node, j).len() implies opt_view(
            #[trigger] level_nodes(*node, j)[k].node_id,
        ) == Some(zero_padded((c0[d + j] + k) as nat, 4)) by {
            if j > 0 {
                assert(level_nodes(*node, j) == forest_level(done@, (j - 1) as nat));
                assert(d + 1 + (j - 1) == d + j);
            } else {
                assert(level_nodes(*node, 0) == seq![*node]);
            }
        }
        assert forall|x: int| 0 <= x < c0.len() implies #[trigger] counters@[x] == c0[x] + (if x
            >= d {
            level_nodes(oldn, (x - d) as nat).len() as int
        } else {
            0
        }) by {
            if x > d {
                assert(level_nodes(oldn, (x - d) as nat) == forest_level(olds, (x - d - 1) as nat));
            }
        }
    }
}

} // verus!
