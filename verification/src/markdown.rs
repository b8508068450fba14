//! Markdown documents as trees: headers (`#` to `######`, outside fenced
//! code blocks) become nodes, a header's text runs up to the next header,
//! and deeper headers nest under shallower ones.

use vstd::prelude::*;
use crate::node::{PageNode, forest_size, node_at, tree_size};
use crate::outline::{
    is_forest, lemma_forest_concat, lemma_forest_single, lemma_forest_size, lemma_span_end,
    lemma_span_end_step, span_end,
};
use crate::pdf::{byte_len, simple_tokens};
use crate::text::{
    extend_chars, is_whitespace, is_ws, join, join_chars, lemma_split_nonempty, split,
    split_chars, str_chars, string_from, sub_chars, trim, trim_bounds, trim_chars,
};
use crate::tree_builder::string_views;

verus! {

// ------------------------------------------------------------------
// Configuration and results
// ------------------------------------------------------------------

/// Configuration of Markdown parsing.
pub struct MdConfig {
    /// Whether small sections are merged into their parent.
    pub thinning: bool,
    /// Token count below which a section is merged with its descendants.
    pub thinning_threshold: usize,
    /// Whether summaries are made.
    pub generate_summary: bool,
    /// Token count from which a section's summary is made by the model
    /// (below it, the summary is the section text).
    pub summary_threshold: usize,
}

impl Default for MdConfig {
    fn default() -> (r: MdConfig)
        ensures
            !r.thinning,
            r.thinning_threshold == 5000,
            r.generate_summary,
            r.summary_threshold == 200,
    {
        MdConfig {
            thinning: false,
            thinning_threshold: 5000,
            generate_summary: true,
            summary_threshold: 200,
        }
    }
}

impl MdConfig {
    /// A builder that starts from the default configuration.
    pub fn builder() -> (r: MdConfigBuilder)
        ensures
            !r.config.thinning,
            r.config.thinning_threshold == 5000,
            r.config.generate_summary,
            r.config.summary_threshold == 200,
    {
        MdConfigBuilder { config: MdConfig::default() }
    }
}

/// Builder of [`MdConfig`].
pub struct MdConfigBuilder {
    /// The configuration built so far.
    pub config: MdConfig,
}

impl Default for MdConfigBuilder {
    fn default() -> (r: MdConfigBuilder)
        ensures
            !r.config.thinning,
            r.config.thinning_threshold == 5000,
            r.config.generate_summary,
            r.config.summary_threshold == 200,
    {
        MdConfig::builder()
    }
}

impl MdConfigBuilder {
    /// Turns thinning on or off.
    pub fn thinning(self, value: bool) -> (r: MdConfigBuilder)
        ensures
            r.config.thinning == value,
            r.config.thinning_threshold == self.config.thinning_threshold,
            r.config.generate_summary == self.config.generate_summary,
            r.config.summary_threshold == self.config.summary_threshold,
    {
        let mut b = self;
        b.config.thinning = value;
        b
    }

    /// Sets the thinning threshold.
    pub fn thinning_threshold(self, value: usize) -> (r: MdConfigBuilder)
        ensures
            r.config.thinning == self.config.thinning,
            r.config.thinning_threshold == value,
            r.config.generate_summary == self.config.generate_summary,
            r.config.summary_threshold == self.config.summary_threshold,
    {
        let mut b = self;
        b.config.thinning_threshold = value;
        b
    }

    /// Turns summaries on or off.
    pub fn generate_summary(self, value: bool) -> (r: MdConfigBuilder)
        ensures
            r.config.thinning == self.config.thinning,
            r.config.thinning_threshold == self.config.thinning_threshold,
            r.config.generate_summary == value,
            r.config.summary_threshold == self.config.summary_threshold,
    {
        let mut b = self;
        b.config.generate_summary = value;
        b
    }

    /// Sets the summary threshold.
    pub fn summary_threshold(self, value: usize) -> (r: MdConfigBuilder)
        ensures
            r.config.thinning == self.config.thinning,
            r.config.thinning_threshold == self.config.thinning_threshold,
            r.config.generate_summary == self.config.generate_summary,
            r.config.summary_threshold == value,
    {
        let mut b = self;
        b.config.summary_threshold = value;
        b
    }

    /// The configuration.
    pub fn build(self) -> (r: MdConfig)
        ensures
            r == self.config,
    {
        self.config
    }
}

/// A parsed Markdown document.
pub struct MdParseResult {
    /// Root of the document tree.
    pub root: PageNode,
    /// Number of lines of the document.
    pub line_count: usize,
    /// Number of nodes below the root.
    pub node_count: usize,
}

/// Markdown parsing errors.
pub enum MdError {
    /// No header in the document.
    NoHeaders,
    /// A header that could not be read, at the given line.
    InvalidHeader(usize),
    /// Model error, with its message.
    Llm(String),
    /// The tree could not be built.
    TreeBuildFailed(String),
}

/// A header as first read: title, level, 1-based line number, text, and
/// token count (its own text and its descendants').
pub struct MdRawNode {
    /// Header title.
    pub title: String,
    /// Header level, 1 to 6.
    pub level: usize,
    /// Line of the header, 1-based.
    pub line_num: usize,
    /// Text from the header line up to the next header.
    pub text: String,
    /// Token count, once computed.
    pub text_token_count: Option<usize>,
}

// ------------------------------------------------------------------
// Lines
// ------------------------------------------------------------------

/// `s` without one trailing carriage return.
pub open spec fn strip_cr(s: Seq<char>) -> Seq<char> {
    if s.len() > 0 && s.last() == '\r' {
        s.drop_last()
    } else {
        s
    }
}

/// The lines of `s` (`str::lines`): pieces between line feeds, a trailing
/// carriage return removed from every piece that a line feed ends, and no
/// empty last piece.
pub open spec fn md_lines(s: Seq<char>) -> Seq<Seq<char>> {
    let p = split(s, '\n');
    let k = if p.len() > 0 && p.last().len() == 0 {
        p.len() - 1
    } else {
        p.len() as int
    };
    Seq::new(
        k as nat,
        |i: int|
            if i < p.len() - 1 {
                strip_cr(p[i])
            } else {
                p[i]
            },
    )
}

/// The lines of `content` (see [`md_lines`]).
pub fn split_lines(content: &str) -> (r: Vec<String>)
    ensures
        string_views(r@) == md_lines(content@),
{
    let v = str_chars(content);
    let pieces = split_chars(&v, '\n');
    proof {
        lemma_split_nonempty(v@, '\n');
    }
    let ghost p = split(content@, '\n');
    let n = pieces.len();
    let k = if pieces[n - 1].len() == 0 {
        n - 1
    } else {
        n
    };
    let mut out: Vec<String> = Vec::new();
    let mut i: usize = 0;
    while i < k
        invariant
            i <= k <= n,
            n == pieces.len(),
            n == p.len(),
            p == split(content@, '\n'),
            forall|j: int| 0 <= j < n ==> #[trigger] pieces@[j]@ == p[j],
            k == (if p.last().len() == 0 {
                p.len() - 1
            } else {
                p.len() as int
            }),
            string_views(out@) == md_lines(content@).take(i as int),
        decreases k - i,
    {
        let piece = &pieces[i];
        let line = if i + 1 < n && piece.len() > 0 && piece[piece.len() - 1] == '\r' {
            sub_chars(piece, 0, piece.len() - 1)
        } else {
            sub_chars(piece, 0, piece.len())
        };
        proof {
            assert(piece@.subrange(0, piece@.len() as int) =~= piece@);
            assert(piece@.subrange(0, piece@.len() - 1) =~= piece@.drop_last());
        }
        let ghost before = string_views(out@);
        out.push(string_from(&line));
        assert(string_views(out@) =~= before.push(line@));
        assert(md_lines(content@).take(i + 1) =~= md_lines(content@).take(i as int).push(line@));
        i = i + 1;
    }
    assert(md_lines(content@).take(k as int) =~= md_lines(content@));
    out
}

// ------------------------------------------------------------------
// Headers
// ------------------------------------------------------------------

/// Number of `#` characters at the start of `t` from index `j` on.
pub open spec fn lead_hashes(t: Seq<char>, j: int) -> nat
    decreases t.len() - j,
{
    if 0 <= j < t.len() && t[j] == '#' {
        1 + lead_hashes(t, j + 1)
    } else {
        0
    }
}

/// Whether a trimmed line opens or closes a fenced code block (starts with
/// three backticks).
pub open spec fn is_fence(t: Seq<char>) -> bool {
    t.len() >= 3 && t[0] == '`' && t[1] == '`' && t[2] == '`'
}

/// The level and title of a trimmed header line `#{1,6}` + whitespace +
/// title; the title is trimmed.
pub open spec fn header_match(t: Seq<char>) -> Option<(nat, Seq<char>)> {
    let k = lead_hashes(t, 0);
    if 1 <= k <= 6 && k < t.len() && is_ws(t[k as int]) {
        Some((k, trim(t.skip(k as int))))
    } else {
        None
    }
}

/// A run of `k` hashes from `j`, followed by the end or another character,
/// is the hash run at `j`; and the hash run at `j` is such a run.
pub proof fn lemma_lead_hashes(t: Seq<char>, j: int)
    requires
        0 <= j <= t.len(),
    ensures
        j + lead_hashes(t, j) <= t.len(),
        forall|i: int| j <= i < j + lead_hashes(t, j) ==> #[trigger] t[i] == '#',
        j + lead_hashes(t, j) < t.len() ==> t[j + lead_hashes(t, j)] != '#',
    decreases t.len() - j,
{
    if j < t.len() && t[j] == '#' {
        lemma_lead_hashes(t, j + 1);
    }
}

/// Whether a line, once trimmed, opens or closes a code block.
pub open spec fn fence_line_pred() -> spec_fn(Seq<char>) -> bool {
    |l: Seq<char>| is_fence(trim(l))
}

/// [`fences_before`] counts the fence lines among the first `i` lines.
pub proof fn lemma_fences_count(lines: Seq<Seq<char>>, i: int)
    requires
        0 <= i <= lines.len(),
    ensures
        fences_before(lines, i) == lines.take(i).filter(fence_line_pred()).len(),
    decreases i,
{
    reveal(Seq::filter);
    if i > 0 {
        lemma_fences_count(lines, i - 1);
        assert(lines.take(i).drop_last() =~= lines.take(i - 1));
        assert(lines.take(i).last() == lines[i - 1]);
    }
}

/// A line inside a code block (after an odd number of fence lines), a
/// fence line itself, or a blank line is never a header.
pub proof fn lemma_code_lines_not_headers(lines: Seq<Seq<char>>, i: int)
    requires
        0 <= i < lines.len(),
    ensures
        (is_fence(trim(lines[i])) || trim(lines[i]).len() == 0 || lines.take(i).filter(
            fence_line_pred(),
        ).len() % 2 == 1) ==> line_header(lines, i) is None,
{
    lemma_fences_count(lines, i);
}

/// Which trimmed lines are headers (see [`line_header`]): a line outside
/// code blocks is a header of level `k` exactly when it starts with `k`
/// hashes, `1 <= k <= 6`, followed by a whitespace character (so `#word`
/// and `#######` lines never are); its title is the rest of the line,
/// trimmed.
pub proof fn lemma_header_lines(lines: Seq<Seq<char>>, i: int, k: nat)
    requires
        0 <= i < lines.len(),
    ensures
        line_header(lines, i) matches Some((title, level)) ==> {
            let t = trim(lines[i]);
            &&& 1 <= level <= 6
            &&& level < t.len()
            &&& forall|j: int| 0 <= j < level ==> #[trigger] t[j] == '#'
            &&& is_ws(t[level as int])
            &&& title == trim(t.skip(level as int))
        },
        ({
            let t = trim(lines[i]);
            &&& !is_fence(t)
            &&& lines.take(i).filter(fence_line_pred()).len() % 2 == 0
            &&& 1 <= k <= 6
            &&& k < t.len()
            &&& forall|j: int| 0 <= j < k ==> #[trigger] t[j] == '#'
            &&& is_ws(t[k as int])
        }) ==> line_header(lines, i) == Some((trim(trim(lines[i]).skip(k as int)), k)),
{
    let t = trim(lines[i]);
    lemma_fences_count(lines, i);
    lemma_lead_hashes(t, 0);
    if 1 <= k <= 6 && k < t.len() && (forall|j: int| 0 <= j < k ==> #[trigger] t[j] == '#') && is_ws(
        t[k as int],
    ) {
        assert(t[k as int] != '#');
        if lead_hashes(t, 0) < k {
            assert(t[lead_hashes(t, 0) as int] == '#');
        }
        if lead_hashes(t, 0) > k {
            assert(t[k as int] == '#');
        }
        assert(lead_hashes(t, 0) == k);
    }
}

/// Number of fence lines among the first `i` lines.
pub open spec fn fences_before(lines: Seq<Seq<char>>, i: int) -> nat
    decreases i,
{
    if i <= 0 {
        0
    } else if is_fence(trim(lines[i - 1])) {
        fences_before(lines, i - 1) + 1
    } else {
        fences_before(lines, i - 1)
    }
}

/// The title and level of line `i` when it is a header outside code blocks.
pub open spec fn line_header(lines: Seq<Seq<char>>, i: int) -> Option<(Seq<char>, nat)> {
    let t = trim(lines[i]);
    if is_fence(t) || t.len() == 0 || fences_before(lines, i) % 2 == 1 {
        None
    } else {
        match header_match(t) {
            Some((k, title)) => Some((title, k)),
            None => None,
        }
    }
}

/// The headers among the first `i` lines: title, level, 1-based line.
pub open spec fn headers(lines: Seq<Seq<char>>, i: int) -> Seq<(Seq<char>, nat, nat)>
    decreases i,
{
    if i <= 0 {
        Seq::empty()
    } else {
        headers(lines, i - 1) + match line_header(lines, i - 1) {
            Some((title, k)) => seq![(title, k, i as nat)],
            None => Seq::empty(),
        }
    }
}

/// Whether `n` is the raw node of header `h`, with no text yet.
pub open spec fn is_raw_of(n: MdRawNode, h: (Seq<char>, nat, nat)) -> bool {
    &&& n.title@ == h.0
    &&& n.level == h.1
    &&& n.line_num == h.2
    &&& n.text@.len() == 0
    &&& n.text_token_count is None
}

fn header_of(t: &Vec<char>) -> (r: Option<(usize, Vec<char>)>)
    ensures
        match header_match(t@) {
            None => r is None,
            Some((k, title)) => r matches Some((k2, title2)) && k2 == k && title2@ == title,
        },
{
    let mut k: usize = 0;
    while k < t.len() && t[k] == '#'
        invariant
            k <= t.len(),
            lead_hashes(t@, 0) == k + lead_hashes(t@, k as int),
        decreases t.len() - k,
    {
        k = k + 1;
    }
    assert(lead_hashes(t@, 0) == k);
    if 1 <= k && k <= 6 && k < t.len() && is_whitespace(t[k]) {
        let (a, b) = trim_bounds(t, k, t.len());
        assert(t@.subrange(k as int, t.len() as int) =~= t@.skip(k as int));
        Some((k, sub_chars(t, a, b)))
    } else {
        None
    }
}

/// The headers of the lines, outside fenced code blocks, in order; an
/// error when there is none.
pub fn extract_header_nodes(lines: &[String]) -> (r: Result<Vec<MdRawNode>, MdError>)
    ensures
        headers(string_views(lines@), lines@.len() as int).len() == 0 ==> (r matches Err(
            MdError::NoHeaders,
        )),
        headers(string_views(lines@), lines@.len() as int).len() > 0 ==> (r matches Ok(v) && v@.len()
            == headers(string_views(lines@), lines@.len() as int).len() && forall|j: int|
            0 <= j < v@.len() ==> is_raw_of(
                #[trigger] v@[j],
                headers(string_views(lines@), lines@.len() as int)[j],
            )),
{
    let ghost ls = string_views(lines@);
    let mut nodes: Vec<MdRawNode> = Vec::new();
    let mut in_code = false;
    let mut i: usize = 0;
    while i < lines.len()
        invariant
            i <= lines.len(),
            ls == string_views(lines@),
            in_code == (fences_before(ls, i as int) % 2 == 1),
            nodes@.len() == headers(ls, i as int).len(),
            forall|j: int| 0 <= j < nodes@.len() ==> is_raw_of(#[trigger] nodes@[j], headers(ls, i as int)[j]),
        decreases lines.len() - i,
    {
        let line = str_chars(lines[i].as_str());
        assert(line@ == ls[i as int]);
        let t = trim_chars(&line);
        let ghost hs = headers(ls, i as int);
        if t.len() >= 3 && t[0] == '`' && t[1] == '`' && t[2] == '`' {
            in_code = !in_code;
            assert(headers(ls, i + 1) == hs + Seq::<(Seq<char>, nat, nat)>::empty());
            assert(headers(ls, i + 1) =~= hs);
        } else if t.len() == 0 || in_code {
            assert(headers(ls, i + 1) =~= hs);
        } else {
            match header_of(&t) {
                Some((k, title)) => {
                    assert(i + 1 <= usize::MAX);
                    nodes.push(
                        MdRawNode {
                            title: string_from(&title),
                            level: k,
                            line_num: i + 1,
                            text: String::new(),
                            text_token_count: None,
                        },
                    );
                    proof {
                        reveal_strlit("");
                        assert(headers(ls, i + 1) =~= hs.push((title@, k as nat, (i + 1) as nat)));
                        assert forall|j: int| 0 <= j < nodes@.len() implies is_raw_of(
                            #[trigger] nodes@[j],
                            headers(ls, i + 1)[j],
                        ) by {
                            if j < hs.len() {
                                assert(headers(ls, i + 1)[j] == hs[j]);
                            }
                        }
                    }
                },
                None => {
                    assert(headers(ls, i + 1) =~= hs);
                },
            }
        }
        i = i + 1;
    }
    if nodes.len() == 0 {
        return Err(MdError::NoHeaders);
    }
    Ok(nodes)
}

// ------------------------------------------------------------------
// Section text
// ------------------------------------------------------------------

/// The line (0-based) where the text of node `i` ends: the next node's
/// header line, or the end of the document.
pub open spec fn text_end(nodes: Seq<MdRawNode>, i: int, n_lines: int) -> int {
    if i + 1 < nodes.len() {
        nodes[i + 1].line_num - 1
    } else {
        n_lines
    }
}

/// Whether every node's text span `line_num - 1 .. text_end` lies within
/// the lines, in order.
pub open spec fn spans_ok(nodes: Seq<MdRawNode>, n_lines: int) -> bool {
    forall|i: int|
        0 <= i < nodes.len() ==> 1 <= #[trigger] nodes[i].line_num && nodes[i].line_num - 1
            <= text_end(nodes, i, n_lines) <= n_lines
}

/// The text of node `i`: its lines from the header line up to
/// [`text_end`], joined by line feeds.
pub open spec fn node_text(lines: Seq<Seq<char>>, nodes: Seq<MdRawNode>, i: int) -> Seq<char> {
    join(lines.subrange(nodes[i].line_num - 1, text_end(nodes, i, lines.len() as int)), "\n"@)
}

/// Whether `new` is `old` with only the text (and token count) changed.
pub open spec fn same_header(new: MdRawNode, old: MdRawNode) -> bool {
    new.title == old.title && new.level == old.level && new.line_num == old.line_num
}

fn line_texts(lines: &[String], from: usize, to: usize) -> (r: Vec<Vec<char>>)
    requires
        from <= to <= lines.len(),
    ensures
        r@.map_values(|p: Vec<char>| p@) == string_views(lines@).subrange(from as int, to as int),
{
    let mut r: Vec<Vec<char>> = Vec::new();
    let mut i = from;
    while i < to
        invariant
            from <= i <= to <= lines.len(),
            r.len() == i - from,
            forall|j: int| 0 <= j < r.len() ==> #[trigger] r@[j]@ == lines@[from + j]@,
        decreases to - i,
    {
        r.push(str_chars(lines[i].as_str()));
        i = i + 1;
    }
    assert(r@.map_values(|p: Vec<char>| p@) =~= string_views(lines@).subrange(from as int, to as int));
    r
}

/// Sets the text of every node to its lines, from its header line up to
/// the next node's header line (or the end), joined by line feeds.
pub fn extract_node_text(nodes: &mut Vec<MdRawNode>, lines: &[String])
    requires
        spans_ok(old(nodes)@, lines@.len() as int),
    ensures
        final(nodes)@.len() == old(nodes)@.len(),
        forall|i: int|
            0 <= i < old(nodes)@.len() ==> same_header(#[trigger] final(nodes)@[i], old(nodes)@[i])
                && final(nodes)@[i].text_token_count == old(nodes)@[i].text_token_count
                && final(nodes)@[i].text@ == node_text(string_views(lines@), old(nodes)@, i),
{
    let ghost olds = nodes@;
    let n = nodes.len();
    let mut texts: Vec<Vec<char>> = Vec::new();
    let mut i: usize = 0;
    let nl = str_chars("\n");
    while i < n
        invariant
            i <= n == nodes.len(),
            nodes@ == olds,
            olds == old(nodes)@,
            nl@ == "\n"@,
            spans_ok(olds, lines@.len() as int),
            texts@.len() == i,
            forall|j: int| 0 <= j < i ==> #[trigger] texts@[j]@ == node_text(string_views(lines@), olds, j),
        decreases n - i,
    {
        let start = nodes[i].line_num - 1;
        let end = if i + 1 < n {
            nodes[i + 1].line_num - 1
        } else {
            lines.len()
        };
        assert(1 <= olds[i as int].line_num);
        assert(end == text_end(olds, i as int, lines@.len() as int));
        let parts = line_texts(lines, start, end);
        texts.push(join_chars(&parts, &nl));
        i = i + 1;
    }
    let mut out: Vec<MdRawNode> = Vec::new();
    let mut k: usize = 0;
    while nodes.len() > 0
        invariant
            k + nodes@.len() == n,
            n == olds.len(),
            nodes@ == olds.skip(k as int),
            texts@.len() == n,
            out@.len() == k,
            forall|j: int| 0 <= j < n ==> #[trigger] texts@[j]@ == node_text(string_views(lines@), olds, j),
            forall|j: int|
                0 <= j < k ==> same_header(#[trigger] out@[j], olds[j]) && out@[j].text_token_count
                    == olds[j].text_token_count && out@[j].text@ == node_text(
                    string_views(lines@),
                    olds,
                    j,
                ),
        decreases nodes@.len(),
    {
        let mut node = nodes.remove(0);
        assert(node == olds[k as int]);
        assert(nodes@ =~= olds.skip(k + 1));
        node.text = string_from(&texts[k]);
        out.push(node);
        k = k + 1;
    }
    *nodes = out;
}

/// The index where the descendants of node `p` end.
pub open spec fn md_levels(nodes: Seq<MdRawNode>) -> Seq<usize> {
    nodes.map_values(|n: MdRawNode| n.level)
}

/// The indices of all descendants (direct and indirect) of node
/// `parent_idx`: the nodes that follow it up to the next one whose level is
/// not deeper than its own.
pub fn find_all_children(parent_idx: usize, nodes: &[MdRawNode]) -> (r: Vec<usize>)
    requires
        parent_idx < nodes@.len(),
    ensures
        r@ == Seq::new(
            (span_end(md_levels(nodes@), parent_idx + 1, nodes@[parent_idx as int].level as int)
                - parent_idx - 1) as nat,
            |k: int| (parent_idx + 1 + k) as usize,
        ),
{
    let ghost lv = md_levels(nodes@);
    let parent_level = nodes[parent_idx].level;
    let mut children: Vec<usize> = Vec::new();
    let mut i = parent_idx + 1;
    proof {
        lemma_span_end(lv, parent_idx + 1, parent_level as int);
    }
    while i < nodes.len() && nodes[i].level > parent_level
        invariant
            parent_idx + 1 <= i <= nodes.len(),
            lv == md_levels(nodes@),
            parent_level == nodes@[parent_idx as int].level,
            span_end(lv, parent_idx + 1, parent_level as int) == span_end(lv, i as int, parent_level as int),
            children@ == Seq::new((i - parent_idx - 1) as nat, |k: int| (parent_idx + 1 + k) as usize),
        decreases nodes.len() - i,
    {
        children.push(i);
        assert(children@ =~= Seq::new((i + 1 - parent_idx - 1) as nat, |k: int| (parent_idx + 1 + k) as usize));
        i = i + 1;
    }
    proof {
        if i < nodes.len() {
            assert(lv[i as int] == nodes@[i as int].level);
        }
    }
    children
}

// ------------------------------------------------------------------
// The tree
// ------------------------------------------------------------------

/// Whether `n` is the tree node of item `x`: its title, its text as
/// content, its level as depth, and nothing else.
pub open spec fn is_md_node(n: PageNode, x: (Seq<char>, usize, Seq<char>, nat)) -> bool {
    &&& n.title@ == x.0
    &&& n.content@ == x.2
    &&& n.summary@.len() == 0
    &&& n.depth == x.1
    &&& n.start_page is None
    &&& n.end_page is None
    &&& n.node_id is None
    &&& n.physical_index is None
}

/// The node condition for the items.
pub open spec fn md_ok(items: Seq<(Seq<char>, usize, Seq<char>, nat)>) -> spec_fn(PageNode, int) -> bool {
    |n: PageNode, j: int| is_md_node(n, items[j])
}

fn md_span(nodes: &[MdRawNode], lo: usize, bound: usize) -> (r: (Vec<PageNode>, usize))
    requires
        lo <= nodes.len(),
    ensures
        r.1 == span_end(item_levels(raw_items(nodes@)), lo as int, bound as int),
        is_forest(r.0@, item_levels(raw_items(nodes@)), lo as int, r.1 as int, md_ok(raw_items(nodes@))),
    decreases nodes.len() - lo,
{
    let ghost lv = item_levels(raw_items(nodes@));
    let ghost ok = md_ok(raw_items(nodes@));
    let mut out: Vec<PageNode> = Vec::new();
    let mut i = lo;
    assert(is_forest(out@, lv, lo as int, lo as int, ok));
    while i < nodes.len() && nodes[i].level > bound
        invariant
            lo <= i <= nodes.len(),
            lv == item_levels(raw_items(nodes@)),
            ok == md_ok(raw_items(nodes@)),
            span_end(lv, lo as int, bound as int) == span_end(lv, i as int, bound as int),
            is_forest(out@, lv, lo as int, i as int, ok),
        decreases nodes.len() - i,
    {
        let mut node = PageNode::new(nodes[i].title.as_str(), nodes[i].text.as_str());
        node.depth = nodes[i].level;
        let (kids, k) = md_span(nodes, i + 1, nodes[i].level);
        node.children = kids;
        proof {
            assert(lv[i as int] == nodes@[i as int].level);
            assert(raw_items(nodes@)[i as int] == raw_item(nodes@[i as int]));
            lemma_span_end(lv, i + 1, lv[i as int] as int);
            lemma_span_end_step(lv, i as int, bound as int);
            assert(ok(node, i as int));
            lemma_forest_single(node, lv, i as int, ok);
            lemma_forest_concat(out@, seq![node], lv, lo as int, i as int, k as int, ok);
            assert(out@ + seq![node] =~= out@.push(node));
        }
        out.push(node);
        i = k;
    }
    (out, i)
}

/// Whether `n` is the root of a Markdown tree: titled `root`, no text,
/// depth 0, nothing else.
pub open spec fn is_md_root(n: PageNode) -> bool {
    &&& n.title@ == "root"@
    &&& n.content@.len() == 0
    &&& n.summary@.len() == 0
    &&& n.depth == 0
    &&& n.start_page is None
    &&& n.end_page is None
    &&& n.node_id is None
    &&& n.physical_index is None
}

/// The tree of the raw nodes under a root titled `root`: each node's
/// children are the deeper nodes that follow it.
pub fn build_tree(nodes: &[MdRawNode]) -> (r: Result<PageNode, MdError>)
    ensures
        r matches Ok(root) && is_md_root(root) && is_forest(
            root.children@,
            item_levels(raw_items(nodes@)),
            0,
            span_end(item_levels(raw_items(nodes@)), 0, 0),
            md_ok(raw_items(nodes@)),
        ),
{
    let mut root = PageNode::new("root", "");
    proof {
        reveal_strlit("");
    }
    root.depth = 0;
    let (kids, _) = md_span(nodes, 0, 0);
    root.children = kids;
    Ok(root)
}

/// With every level at least 1, the tree holds every item.
pub proof fn lemma_md_tree_complete(items: Seq<(Seq<char>, usize, Seq<char>, nat)>)
    requires
        forall|i: int| 0 <= i < items.len() ==> #[trigger] items[i].1 >= 1,
    ensures
        span_end(item_levels(items), 0, 0) == items.len(),
{
    let lv = item_levels(items);
    lemma_span_end(lv, 0, 0);
    if span_end(lv, 0, 0) < items.len() {
        assert(lv[span_end(lv, 0, 0)] == items[span_end(lv, 0, 0)].1);
    }
}

/// Number of nodes in the tree rooted at `node`, `node` included.
pub fn count_nodes_recursive(node: &PageNode) -> (r: usize)
    requires
        tree_size(*node) <= usize::MAX,
    ensures
        r == tree_size(*node),
    decreases node,
{
    let mut count: usize = 1;
    let mut i: usize = 0;
    while i < node.children.len()
        invariant
            i <= node.children.len(),
            tree_size(*node) <= usize::MAX,
            count == 1 + forest_size(node.children@.take(i as int)),
        decreases node.children.len() - i,
    {
        proof {
            assert(node.children@.take(i + 1).drop_last() =~= node.children@.take(i as int));
            assert(node.children@.take(i + 1).last() == node.children@[i as int]);
            crate::node::lemma_forest_size_take(node.children@, i + 1);
        }
        assert(decreases_to!(*node => node.children@[i as int]));
        let c = count_nodes_recursive(&node.children[i]);
        count = count + c;
        i = i + 1;
    }
    assert(node.children@.take(node.children.len() as int) =~= node.children@);
    count
}

/// Number of nodes below the root.
pub fn count_nodes(root: &PageNode) -> (r: usize)
    requires
        tree_size(*root) <= usize::MAX,
    ensures
        r == forest_size(root.children@),
{
    let n = count_nodes_recursive(root);
    n - 1
}

// ------------------------------------------------------------------
// Token counts
// ------------------------------------------------------------------

/// A raw node as a value: title, level, text, and token count (0 when not
/// computed).
pub open spec fn raw_item(n: MdRawNode) -> (Seq<char>, usize, Seq<char>, nat) {
    (
        n.title@,
        n.level,
        n.text@,
        match n.text_token_count {
            Some(t) => t as nat,
            None => 0,
        },
    )
}

/// The raw nodes as values.
pub open spec fn raw_items(nodes: Seq<MdRawNode>) -> Seq<(Seq<char>, usize, Seq<char>, nat)> {
    nodes.map_values(|n: MdRawNode| raw_item(n))
}

/// The levels of the items.
pub open spec fn item_levels(items: Seq<(Seq<char>, usize, Seq<char>, nat)>) -> Seq<usize> {
    items.map_values(|x: (Seq<char>, usize, Seq<char>, nat)| x.1)
}

/// The end of the descendants of item `i`.
pub open spec fn desc_end(items: Seq<(Seq<char>, usize, Seq<char>, nat)>, i: int) -> int {
    span_end(item_levels(items), i + 1, items[i].1 as int)
}

/// The token count of item `i`: the estimate of its own text plus the
/// token counts of all its descendants (direct and indirect).
pub open spec fn token_total(items: Seq<(Seq<char>, usize, Seq<char>, nat)>, i: int) -> nat
    decreases items.len() - i, 0int,
{
    if 0 <= i < items.len() {
        proof {
            lemma_span_end(item_levels(items), i + 1, items[i].1 as int);
        }
        simple_tokens(items[i].2) + tokens_between(items, i + 1, desc_end(items, i))
    } else {
        0
    }
}

/// Sum of [`token_total`] over the items `a..b`.
pub open spec fn tokens_between(items: Seq<(Seq<char>, usize, Seq<char>, nat)>, a: int, b: int) -> nat
    decreases items.len() - a, 1int,
{
    if 0 <= a < b && a < items.len() {
        token_total(items, a) + tokens_between(items, a + 1, b)
    } else {
        0
    }
}

/// Estimated token count of a text: 0 when empty, else one per four bytes
/// and at least one.
pub fn count_tokens(text: &str) -> (r: usize)
    ensures
        r == simple_tokens(text@),
{
    crate::pdf::estimate_tokens(text)
}

/// Sets the token count of every node to [`token_total`]: its own text's
/// estimate plus the counts of all its descendants.
pub fn update_token_counts(nodes: &mut Vec<MdRawNode>)
    requires
        forall|i: int|
            0 <= i < old(nodes)@.len() ==> token_total(raw_items(old(nodes)@), i) <= usize::MAX,
    ensures
        final(nodes)@.len() == old(nodes)@.len(),
        forall|i: int|
            0 <= i < old(nodes)@.len() ==> same_header(#[trigger] final(nodes)@[i], old(nodes)@[i])
                && final(nodes)@[i].text == old(nodes)@[i].text && final(nodes)@[i].text_token_count
                == Some(token_total(raw_items(old(nodes)@), i) as usize),
{
    let ghost olds = nodes@;
    let ghost items = raw_items(olds);
    let ghost lv = item_levels(items);
    assert(lv =~= md_levels(olds));
    let n = nodes.len();
    let mut i = n;
    while i > 0
        invariant
            i <= n == nodes@.len() == olds.len(),
            items == raw_items(olds),
            lv == item_levels(items),
            lv == md_levels(olds),
            forall|j: int| 0 <= j < n ==> token_total(items, j) <= usize::MAX,
            forall|j: int|
                0 <= j < n ==> same_header(#[trigger] nodes@[j], olds[j]) && nodes@[j].text
                    == olds[j].text,
            forall|j: int|
                i <= j < n ==> #[trigger] nodes@[j].text_token_count == Some(
                    token_total(items, j) as usize,
                ),
        decreases i,
    {
        i = i - 1;
        let children = find_all_children(i, nodes.as_slice());
        let ghost e = desc_end(items, i as int);
        proof {
            lemma_span_end(lv, i + 1, lv[i as int] as int);
            assert(lv[i as int] == nodes@[i as int].level);
            assert(md_levels(nodes@) =~= lv);
        }
        let own = count_tokens(nodes[i].text.as_str());
        let mut acc: usize = 0;
        let mut k: usize = 0;
        while k < children.len()
            invariant
                i < n == nodes@.len() == olds.len(),
                items == raw_items(olds),
                e == desc_end(items, i as int),
                i + 1 <= e <= n,
                children@ == Seq::new((e - i - 1) as nat, |m: int| (i + 1 + m) as usize),
                k <= children@.len(),
                forall|j: int| 0 <= j < n ==> token_total(items, j) <= usize::MAX,
                forall|j: int|
                    i < j < n ==> #[trigger] nodes@[j].text_token_count == Some(
                        token_total(items, j) as usize,
                    ),
                acc + tokens_between(items, i + 1 + k, e) == tokens_between(items, i + 1, e),
                own + tokens_between(items, i + 1, e) == token_total(items, i as int),
            decreases children@.len() - k,
        {
            let c = children[k];
            assert(c == i + 1 + k);
            let t = match nodes[c].text_token_count {
                Some(t) => t,
                None => 0,
            };
            assert(tokens_between(items, c as int, e) == token_total(items, c as int)
                + tokens_between(items, c + 1, e));
            acc = acc + t;
            k = k + 1;
        }
        let mut node = nodes.remove(i);
        node.text_token_count = Some(own + acc);
        nodes.insert(i, node);
    }
}

// ------------------------------------------------------------------
// Thinning
// ------------------------------------------------------------------

/// Whether item `k` is merged with its descendants: its token count is
/// below the threshold.
pub open spec fn is_merger(items: Seq<(Seq<char>, usize, Seq<char>, nat)>, thr: usize, k: int) -> bool {
    0 <= k < items.len() && items[k].3 < thr
}

/// Whether item `x` is a descendant of a merged item `k` with `i < k`.
pub open spec fn absorbed_after(items: Seq<(Seq<char>, usize, Seq<char>, nat)>, thr: usize, i: int, x: int) -> bool {
    exists|k: int| i < k < x && is_merger(items, thr, k) && x < #[trigger] desc_end(items, k)
}

/// `acc` followed by `t`, with a blank line between them when `acc` is not
/// empty.
pub open spec fn sep_append(acc: Seq<char>, t: Seq<char>) -> Seq<char> {
    if acc.len() == 0 {
        t
    } else {
        acc + "\n\n"@ + t
    }
}

/// The text of item `i` after thinning: for a merged item, its own text
/// followed by the texts (after thinning) of those descendants that no
/// merged item between them absorbed, in order; otherwise its own text.
pub open spec fn merged_text(items: Seq<(Seq<char>, usize, Seq<char>, nat)>, thr: usize, i: int) -> Seq<char>
    decreases items.len() - i, 0int,
{
    if 0 <= i < items.len() {
        if is_merger(items, thr, i) {
            merge_from(items, thr, i, i + 1, items[i].2)
        } else {
            items[i].2
        }
    } else {
        Seq::empty()
    }
}

/// The merged text of item `i`, from descendant `j` on, given the text
/// `acc` gathered before `j`.
pub open spec fn merge_from(
    items: Seq<(Seq<char>, usize, Seq<char>, nat)>,
    thr: usize,
    i: int,
    j: int,
    acc: Seq<char>,
) -> Seq<char>
    decreases items.len() - j, 1int,
{
    if 0 <= i < j && j < desc_end(items, i) && j < items.len() {
        let next = if absorbed_after(items, thr, i, j) {
            acc
        } else {
            sep_append(acc, merged_text(items, thr, j))
        };
        merge_from(items, thr, i, j + 1, next)
    } else {
        acc
    }
}

/// The token count of item `i` after thinning.
pub open spec fn thinned_tokens(items: Seq<(Seq<char>, usize, Seq<char>, nat)>, thr: usize, i: int) -> nat {
    if is_merger(items, thr, i) {
        simple_tokens(merged_text(items, thr, i))
    } else {
        items[i].3
    }
}

/// The items among the first `m` that no merged item absorbed, with their
/// texts and token counts after thinning.
pub open spec fn thinned_upto(items: Seq<(Seq<char>, usize, Seq<char>, nat)>, thr: usize, m: int) -> Seq<
    (Seq<char>, usize, Seq<char>, nat),
>
    decreases m,
{
    if m <= 0 {
        Seq::empty()
    } else {
        thinned_upto(items, thr, m - 1) + if absorbed_after(items, thr, -1, m - 1) {
            Seq::empty()
        } else {
            seq![
                (
                    items[m - 1].0,
                    items[m - 1].1,
                    merged_text(items, thr, m - 1),
                    thinned_tokens(items, thr, m - 1),
                ),
            ]
        }
    }
}

/// Merges small sections into their parents: from the last node to the
/// first, a node whose token count is below `threshold` takes the texts of
/// its descendants that are still separate (blank lines between texts),
/// its token count becomes the estimate of the merged text, and those
/// descendants are dropped.
#[verifier::spinoff_prover]
#[verifier::rlimit(40)]
pub fn thin_tree(nodes: &mut Vec<MdRawNode>, threshold: usize)
    ensures
        raw_items(final(nodes)@) == thinned_upto(
            raw_items(old(nodes)@),
            threshold,
            old(nodes)@.len() as int,
        ),
{
    let ghost olds = nodes@;
    let ghost items = raw_items(olds);
    let ghost lv = item_levels(items);
    assert(lv =~= md_levels(olds));
    let n = nodes.len();
    let mut removed: Vec<bool> = Vec::new();
    while removed.len() < n
        invariant
            removed@.len() <= n,
            forall|x: int| 0 <= x < removed@.len() ==> !#[trigger] removed@[x],
        decreases n - removed@.len(),
    {
        removed.push(false);
    }
    let sep = str_chars("\n\n");
    let mut i = n;
    while i > 0
        invariant
            i <= n == nodes@.len() == olds.len() == removed@.len(),
            items == raw_items(olds),
            lv == item_levels(items),
            lv == md_levels(olds),
            sep@ == "\n\n"@,
            forall|j: int| 0 <= j < n ==> same_header(#[trigger] nodes@[j], olds[j]),
            forall|j: int| 0 <= j < i ==> #[trigger] nodes@[j].text == olds[j].text,
            forall|j: int| 0 <= j < i ==> #[trigger] nodes@[j].text_token_count == olds[j].text_token_count,
            forall|j: int|
                i <= j < n ==> #[trigger] raw_item(nodes@[j]).2 == merged_text(items, threshold, j),
            forall|j: int|
                i <= j < n ==> #[trigger] raw_item(nodes@[j]).3 == thinned_tokens(items, threshold, j),
            forall|x: int| 0 <= x < n ==> #[trigger] removed@[x] == absorbed_after(items, threshold, i - 1, x),
        decreases i,
    {
        i = i - 1;
        proof {
            assert(!absorbed_after(items, threshold, i as int, i as int)) by {
                if absorbed_after(items, threshold, i as int, i as int) {
                    let k = choose|k: int|
                        i < k < i && is_merger(items, threshold, k) && i < #[trigger] desc_end(
                            items,
                            k,
                        );
                    assert(false);
                }
            }
            assert(!removed@[i as int]);
            assert(raw_item(nodes@[i as int]) == items[i as int]);
        }
        if !removed[i] {
            let tokens = match nodes[i].text_token_count {
                Some(t) => t,
                None => 0,
            };
            if tokens < threshold {
                let children = find_all_children(i, nodes.as_slice());
                let ghost e = desc_end(items, i as int);
                proof {
                    lemma_span_end(lv, i + 1, lv[i as int] as int);
                    assert(lv[i as int] == nodes@[i as int].level);
                    assert(md_levels(nodes@) =~= lv);
                }
                let mut merged = str_chars(nodes[i].text.as_str());
                let ghost r0 = removed@;
                let mut k: usize = 0;
                while k < children.len()
                    invariant
                        i < n == nodes@.len() == olds.len() == removed@.len() == r0.len(),
                        items == raw_items(olds),
                        sep@ == "\n\n"@,
                        e == desc_end(items, i as int),
                        i + 1 <= e <= n,
                        is_merger(items, threshold, i as int),
                        children@ == Seq::new((e - i - 1) as nat, |m: int| (i + 1 + m) as usize),
                        k <= children@.len(),
                        forall|j: int|
                            i < j < n ==> #[trigger] raw_item(nodes@[j]).2 == merged_text(items, threshold, j)
                                && raw_item(nodes@[j]).3 == thinned_tokens(items, threshold, j),
                        forall|x: int| 0 <= x < n ==> #[trigger] r0[x] == absorbed_after(items, threshold, i as int, x),
                        forall|x: int|
                            0 <= x < n ==> #[trigger] removed@[x] == (if i < x < i + 1 + k {
                                true
                            } else {
                                r0[x]
                            }),
                        merge_from(items, threshold, i as int, (i + 1 + k) as int, merged@) == merge_from(
                            items,
                            threshold,
                            i as int,
                            i + 1,
                            items[i as int].2,
                        ),
                    decreases children@.len() - k,
                {
                    let c = children[k];
                    assert(c == i + 1 + k);
                    let ghost acc = merged@;
                    if !removed[c] {
                        if merged.len() > 0 {
                            extend_chars(&mut merged, &sep);
                        }
                        let t = str_chars(nodes[c].text.as_str());
                        extend_chars(&mut merged, &t);
                        removed.set(c, true);
                        proof {
                            assert(raw_item(nodes@[c as int]).2 == nodes@[c as int].text@);
                            assert(merged@ =~= sep_append(acc, merged_text(items, threshold, c as int)));
                        }
                    }
                    k = k + 1;
                }
                let text = string_from(&merged);
                let count = count_tokens(text.as_str());
                let ghost before_nodes = nodes@;
                let mut node = nodes.remove(i);
                node.text = text;
                node.text_token_count = Some(count);
                let ghost new_node = node;
                nodes.insert(i, node);
                proof {
                    assert(nodes@ =~= before_nodes.update(i as int, new_node));
                    assert(merge_from(items, threshold, i as int, e, merged@) == merged@);
                    assert(merged_text(items, threshold, i as int) == merged@);
                    assert(raw_item(nodes@[i as int]).2 == merged_text(items, threshold, i as int));
                    assert(raw_item(nodes@[i as int]).3 == thinned_tokens(items, threshold, i as int));
                    assert forall|j: int| i <= j < n implies #[trigger] raw_item(nodes@[j]).2
                        == merged_text(items, threshold, j) by {
                        if j > i {
                            assert(nodes@[j] == before_nodes[j]);
                            assert(raw_item(before_nodes[j]).2 == merged_text(items, threshold, j));
                            assert(raw_item(before_nodes[j]).3 == thinned_tokens(items, threshold, j));
                        }
                    }
                    assert forall|j: int| 0 <= j < i implies #[trigger] nodes@[j].text == olds[j].text by {
                        assert(nodes@[j] == before_nodes[j]);
                    }
                    assert forall|j: int| 0 <= j < i implies #[trigger] nodes@[j].text_token_count
                        == olds[j].text_token_count by {
                        assert(nodes@[j] == before_nodes[j]);
                    }
                    assert forall|j: int| 0 <= j < n implies same_header(#[trigger] nodes@[j], olds[j]) by {
                        assert(nodes@[j] == before_nodes.update(i as int, new_node)[j]);
                    }
                    assert forall|x: int| 0 <= x < n implies #[trigger] removed@[x] == absorbed_after(
                        items,
                        threshold,
                        i - 1,
                        x,
                    ) by {
                        if i < x < e {
                            assert(desc_end(items, i as int) == e);
                            assert(absorbed_after(items, threshold, i - 1, x));
                        } else {
                            if absorbed_after(items, threshold, i - 1, x) {
                                let k2 = choose|k2: int|
                                    i - 1 < k2 < x && is_merger(items, threshold, k2) && x
                                        < #[trigger] desc_end(items, k2);
                                if k2 > i {
                                    assert(absorbed_after(items, threshold, i as int, x));
                                }
                            }
                            if absorbed_after(items, threshold, i as int, x) {
                                let k2 = choose|k2: int|
                                    i < k2 < x && is_merger(items, threshold, k2) && x
                                        < #[trigger] desc_end(items, k2);
                                assert(i - 1 < k2);
                            }
                        }
                    }
                }
            } else {
                proof {
                    assert(!is_merger(items, threshold, i as int));
                    assert(raw_item(nodes@[i as int]).2 == merged_text(items, threshold, i as int));
                    assert(raw_item(nodes@[i as int]).3 == thinned_tokens(items, threshold, i as int));
                    assert forall|j: int| i <= j < n implies #[trigger] raw_item(nodes@[j]).2
                        == merged_text(items, threshold, j) by {
                        if j == i {
                            assert(raw_item(nodes@[i as int]).2 == merged_text(items, threshold, i as int));
                        }
                    }
                    assert forall|x: int| 0 <= x < n implies #[trigger] removed@[x] == absorbed_after(
                        items,
                        threshold,
                        i - 1,
                        x,
                    ) by {
                        if absorbed_after(items, threshold, i - 1, x) {
                            let k2 = choose|k2: int|
                                i - 1 < k2 < x && is_merger(items, threshold, k2) && x
                                    < #[trigger] desc_end(items, k2);
                            assert(k2 != i);
                            assert(absorbed_after(items, threshold, i as int, x));
                        }
                        if absorbed_after(items, threshold, i as int, x) {
                            let k2 = choose|k2: int|
                                i < k2 < x && is_merger(items, threshold, k2) && x
                                    < #[trigger] desc_end(items, k2);
                            assert(i - 1 < k2);
                        }
                    }
                }
            }
        }
    }
    let ghost fin = nodes@;
    let mut out: Vec<MdRawNode> = Vec::new();
    let mut m: usize = 0;
    assert(fin.skip(0) =~= fin);
    assert(raw_items(out@) =~= thinned_upto(items, threshold, 0));
    while nodes.len() > 0
        invariant
            m + nodes@.len() == n,
            n == olds.len() == removed@.len() == fin.len(),
            items == raw_items(olds),
            nodes@ == fin.skip(m as int),
            forall|j: int| 0 <= j < n ==> same_header(#[trigger] fin[j], olds[j]),
            forall|j: int| 0 <= j < n ==> #[trigger] raw_item(fin[j]).2 == merged_text(items, threshold, j),
            forall|j: int| 0 <= j < n ==> #[trigger] raw_item(fin[j]).3 == thinned_tokens(items, threshold, j),
            forall|x: int| 0 <= x < n ==> #[trigger] removed@[x] == absorbed_after(items, threshold, -1, x),
            raw_items(out@) == thinned_upto(items, threshold, m as int),
        decreases nodes@.len(),
    {
        let node = nodes.remove(0);
        assert(node == fin[m as int]);
        assert(nodes@ =~= fin.skip(m + 1));
        let ghost before = out@;
        proof {
            assert(same_header(fin[m as int], olds[m as int]));
            assert(raw_item(node) == (
                items[m as int].0,
                items[m as int].1,
                merged_text(items, threshold, m as int),
                thinned_tokens(items, threshold, m as int),
            ));
        }
        if !removed[m] {
            out.push(node);
            assert(raw_items(out@) =~= raw_items(before).push(raw_item(node)));
        }
        assert(raw_items(out@) =~= thinned_upto(items, threshold, m + 1));
        m = m + 1;
    }
    *nodes = out;
}

// ------------------------------------------------------------------
// The whole parse
// ------------------------------------------------------------------

/// Header lines are numbered from 1, within the lines seen, in increasing
/// order, with levels 1 to 6.
pub proof fn lemma_headers(lines: Seq<Seq<char>>, i: int)
    requires
        0 <= i <= lines.len(),
    ensures
        forall|j: int|
            0 <= j < headers(lines, i).len() ==> 1 <= #[trigger] headers(lines, i)[j].2 <= i && 1
                <= headers(lines, i)[j].1 <= 6,
        forall|a: int, b: int|
            0 <= a < b < headers(lines, i).len() ==> #[trigger] headers(lines, i)[a].2
                < #[trigger] headers(lines, i)[b].2,
    decreases i,
{
    if i > 0 {
        lemma_headers(lines, i - 1);
        let h = headers(lines, i - 1);
        let t = trim(lines[i - 1]);
        match line_header(lines, i - 1) {
            Some((title, k)) => {
                assert(headers(lines, i) == h + seq![(title, k, i as nat)]);
            },
            None => {
                assert(headers(lines, i) =~= h);
            },
        }
    }
}

/// The text of header `j`: its lines from the header line up to the next
/// header line (or the end), joined by line feeds.
pub open spec fn section_text(lines: Seq<Seq<char>>, hs: Seq<(Seq<char>, nat, nat)>, j: int) -> Seq<
    char,
> {
    let end = if j + 1 < hs.len() {
        hs[j + 1].2 - 1
    } else {
        lines.len() as int
    };
    join(lines.subrange(hs[j].2 - 1, end), "\n"@)
}

/// The sections of a Markdown text as read: title, level and text of each
/// header, no token count yet.
pub open spec fn md_items(content: Seq<char>) -> Seq<(Seq<char>, usize, Seq<char>, nat)> {
    let lines = md_lines(content);
    let hs = headers(lines, lines.len() as int);
    Seq::new(hs.len(), |j: int| (hs[j].0, hs[j].1 as usize, section_text(lines, hs, j), 0nat))
}

/// The sections with their token counts (see [`token_total`]).
pub open spec fn md_counted(content: Seq<char>) -> Seq<(Seq<char>, usize, Seq<char>, nat)> {
    let items = md_items(content);
    Seq::new(items.len(), |j: int| (items[j].0, items[j].1, items[j].2, token_total(items, j)))
}

/// The sections that become tree nodes: the counted sections, thinned when
/// the configuration asks for it.
pub open spec fn md_sections(content: Seq<char>, thinning: bool, threshold: usize) -> Seq<
    (Seq<char>, usize, Seq<char>, nat),
> {
    if thinning {
        thinned_upto(md_counted(content), threshold, md_counted(content).len() as int)
    } else {
        md_counted(content)
    }
}

/// Thinning only merges: the first `m` items never give more sections
/// after thinning than there were items.
pub proof fn lemma_thinned_len(items: Seq<(Seq<char>, usize, Seq<char>, nat)>, thr: usize, m: int)
    requires
        0 <= m,
    ensures
        thinned_upto(items, thr, m).len() <= m,
    decreases m,
{
    if m > 0 {
        lemma_thinned_len(items, thr, m - 1);
    }
}

/// Every header outside code blocks becomes one section without
/// thinning, and thinning never gives more sections than that.
pub proof fn lemma_md_section_count(content: Seq<char>, threshold: usize)
    ensures
        md_sections(content, false, threshold).len() == headers(md_lines(content), md_lines(content).len() as int).len(),
        md_sections(content, true, threshold).len() <= md_sections(content, false, threshold).len(),
{
    lemma_thinned_len(md_counted(content), threshold, md_counted(content).len() as int);
}

/// Thinning keeps a subsequence of the items, so every level it keeps was
/// a level of the items.
pub proof fn lemma_thinned_levels(items: Seq<(Seq<char>, usize, Seq<char>, nat)>, thr: usize, m: int)
    requires
        0 <= m <= items.len(),
        forall|i: int| 0 <= i < items.len() ==> #[trigger] items[i].1 >= 1,
    ensures
        forall|j: int|
            0 <= j < thinned_upto(items, thr, m).len() ==> #[trigger] thinned_upto(items, thr, m)[j].1
                >= 1,
    decreases m,
{
    if m > 0 {
        lemma_thinned_levels(items, thr, m - 1);
        let prev = thinned_upto(items, thr, m - 1);
        let t = thinned_upto(items, thr, m);
        assert forall|j: int| 0 <= j < t.len() implies #[trigger] t[j].1 >= 1 by {
            if j < prev.len() {
                assert(t[j] == prev[j]);
            } else {
                assert(t[j].1 == items[m - 1].1);
            }
        }
    }
}

/// Parses a Markdown text into its tree, without summaries: the lines are
/// split, the headers outside fenced code blocks read, each header's text
/// gathered, token counts computed, small sections merged when
/// `config.thinning` is set, and the tree built. Every section becomes a
/// node below the root.
pub fn parse_markdown_tree(content: &str, config: &MdConfig) -> (r: Result<MdParseResult, MdError>)
    requires
        forall|i: int|
            0 <= i < md_items(content@).len() ==> token_total(md_items(content@), i) <= usize::MAX,
    ensures
        md_items(content@).len() == 0 ==> (r matches Err(MdError::NoHeaders)),
        md_items(content@).len() > 0 ==> (r matches Ok(res) && {
            let secs = md_sections(content@, config.thinning, config.thinning_threshold);
            &&& res.line_count == md_lines(content@).len()
            &&& res.node_count == secs.len()
            &&& is_md_root(res.root)
            &&& is_forest(res.root.children@, item_levels(secs), 0, secs.len() as int, md_ok(secs))
            &&& forest_size(res.root.children@) == secs.len()
        }),
{
    let lines = split_lines(content);
    let ghost ls = md_lines(content@);
    let ghost hs = headers(ls, ls.len() as int);
    let line_count = lines.len();
    assert(string_views(lines@) == ls);
    let mut nodes = match extract_header_nodes(lines.as_slice()) {
        Ok(v) => v,
        Err(e) => {
            return Err(e);
        },
    };
    proof {
        lemma_headers(ls, ls.len() as int);
        assert forall|i: int| 0 <= i < nodes@.len() implies 1 <= #[trigger] nodes@[i].line_num
            && nodes@[i].line_num - 1 <= text_end(nodes@, i, lines@.len() as int) <= lines@.len() by {
            assert(is_raw_of(nodes@[i], hs[i]));
            if i + 1 < nodes@.len() {
                assert(is_raw_of(nodes@[i + 1], hs[i + 1]));
            }
        }
    }
    let ghost n0 = nodes@;
    extract_node_text(&mut nodes, lines.as_slice());
    let ghost items = md_items(content@);
    proof {
        assert(raw_items(nodes@) =~= items) by {
            assert forall|j: int| 0 <= j < items.len() implies raw_items(nodes@)[j] == items[j] by {
                assert(is_raw_of(n0[j], hs[j]));
                if j + 1 < items.len() {
                    assert(is_raw_of(n0[j + 1], hs[j + 1]));
                }
                assert(same_header(nodes@[j], n0[j]));
            }
        }
    }
    update_token_counts(&mut nodes);
    proof {
        assert(raw_items(nodes@) =~= md_counted(content@));
    }
    if config.thinning {
        thin_tree(&mut nodes, config.thinning_threshold);
    }
    let ghost secs = md_sections(content@, config.thinning, config.thinning_threshold);
    assert(raw_items(nodes@) == secs);
    proof {
        lemma_headers(ls, ls.len() as int);
        assert forall|i: int| 0 <= i < md_counted(content@).len() implies #[trigger] md_counted(
            content@,
        )[i].1 >= 1 by {
            assert(1 <= hs[i].2);
            assert(1 <= hs[i].1);
        }
        if config.thinning {
            lemma_thinned_levels(
                md_counted(content@),
                config.thinning_threshold,
                md_counted(content@).len() as int,
            );
        }
        lemma_md_tree_complete(secs);
    }
    let node_count = nodes.len();
    let root = match build_tree(nodes.as_slice()) {
        Ok(root) => root,
        Err(e) => {
            return Err(e);
        },
    };
    proof {
        lemma_forest_size(root.children@, item_levels(secs), 0, secs.len() as int, md_ok(secs));
    }
    Ok(MdParseResult { root, line_count, node_count })
}

// ------------------------------------------------------------------
// Summaries
// ------------------------------------------------------------------

/// Whether the summary of `n` is made by the model: its text has at least
/// `threshold` tokens, counting one per four bytes.
pub open spec fn summary_due(n: PageNode, threshold: usize) -> bool {
    byte_len(n.content@) / 4 >= threshold
}

/// Whether `new` is `old` with every node whose summary is not due to the
/// model taking its own text as summary.
pub open spec fn short_summaries_set(new: PageNode, old: PageNode, threshold: usize) -> bool
    decreases old,
{
    &&& new.title == old.title
    &&& new.content == old.content
    &&& new.summary@ == (if summary_due(old, threshold) {
        old.summary@
    } else {
        old.content@
    })
    &&& new.depth == old.depth
    &&& new.start_page == old.start_page
    &&& new.end_page == old.end_page
    &&& new.node_id == old.node_id
    &&& new.physical_index == old.physical_index
    &&& new.children@.len() == old.children@.len()
    &&& forall|i: int|
        0 <= i < old.children@.len() ==> short_summaries_set(
            #[trigger] new.children@[i],
            old.children@[i],
            threshold,
        )
}

/// Gives every node whose text is below `threshold` tokens (one per four
/// bytes) its own text as summary; the others keep theirs, for the model
/// to write.
pub fn apply_short_summaries(node: &mut PageNode, threshold: usize)
    ensures
        short_summaries_set(*final(node), *old(node), threshold),
    decreases *old(node),
{
    if node.content.as_str().len() / 4 < threshold {
        node.summary = node.content.clone();
    }
    let mut kids: Vec<PageNode> = Vec::new();
    std::mem::swap(&mut kids, &mut node.children);
    let ghost olds = kids@;
    assert(olds.len() == kids.len());
    let mut done: Vec<PageNode> = Vec::new();
    let mut i: usize = 0;
    while kids.len() > 0
        invariant
            olds == old(node).children@,
            olds.len() <= usize::MAX,
            i + kids@.len() == olds.len(),
            kids@ == olds.skip(i as int),
            done@.len() == i,
            forall|j: int| 0 <= j < i ==> short_summaries_set(#[trigger] done@[j], olds[j], threshold),
        decreases kids@.len(),
    {
        let mut c = kids.remove(0);
        assert(c == olds[i as int]);
        assert(kids@ =~= olds.skip(i + 1));
        assert(decreases_to!(*old(node) => old(node).children@[i as int]));
        apply_short_summaries(&mut c, threshold);
        done.push(c);
        i = i + 1;
    }
    node.children = done;
}

/// The paths (child indices from `n`) of the nodes whose summary is due to
/// the model, in pre-order.
pub open spec fn due_paths(n: PageNode, threshold: usize) -> Seq<Seq<usize>>
    decreases n,
{
    (if summary_due(n, threshold) {
        seq![Seq::<usize>::empty()]
    } else {
        Seq::empty()
    }) + forest_due_paths(n.children@, threshold)
}

/// [`due_paths`] for a sequence of sibling trees, each path starting with
/// the index of its tree.
pub open spec fn forest_due_paths(s: Seq<PageNode>, threshold: usize) -> Seq<Seq<usize>>
    decreases s,
{
    if s.len() == 0 {
        Seq::empty()
    } else {
        forest_due_paths(s.drop_last(), threshold) + due_paths(s.last(), threshold).map_values(
            |p: Seq<usize>| seq![(s.len() - 1) as usize] + p,
        )
    }
}

/// Every path in [`due_paths`] leads to a node whose summary is due.
pub proof fn lemma_due_paths_sound(n: PageNode, threshold: usize, k: int)
    requires
        0 <= k < due_paths(n, threshold).len(),
    ensures
        node_at(n, due_paths(n, threshold)[k]) matches Some(x) && summary_due(x, threshold),
    decreases n, n.children@.len() + 1,
{
    let head: Seq<Seq<usize>> = if summary_due(n, threshold) {
        seq![Seq::<usize>::empty()]
    } else {
        Seq::empty()
    };
    if k >= head.len() {
        assert(n.children@.take(n.children@.len() as int) =~= n.children@);
        lemma_forest_due_paths_sound(n, n.children@, threshold, k - head.len());
        let p = forest_due_paths(n.children@, threshold)[k - head.len()];
        assert(due_paths(n, threshold)[k] == p);
        assert(seq![p[0]] + p.drop_first() =~= p);
    } else {
        assert(due_paths(n, threshold)[k] == Seq::<usize>::empty());
    }
}

/// [`lemma_due_paths_sound`] for the children of `n`.
pub proof fn lemma_forest_due_paths_sound(n: PageNode, s: Seq<PageNode>, threshold: usize, k: int)
    requires
        s.len() <= n.children@.len(),
        s == n.children@.take(s.len() as int),
        0 <= k < forest_due_paths(s, threshold).len(),
    ensures
        node_at(n, seq![forest_due_paths(s, threshold)[k][0]] + forest_due_paths(s, threshold)[k].drop_first())
            matches Some(x) && summary_due(x, threshold),
        forest_due_paths(s, threshold)[k].len() > 0,
    decreases n, s.len(),
{
    let prev = forest_due_paths(s.drop_last(), threshold);
    let last = s.len() - 1;
    if k < prev.len() {
        assert(s.drop_last() =~= n.children@.take(last));
        lemma_forest_due_paths_sound(n, s.drop_last(), threshold, k);
        assert(forest_due_paths(s, threshold)[k] == prev[k]);
    } else {
        let q = due_paths(s.last(), threshold)[k - prev.len()];
        assert(s.last() == n.children@[last]);
        assert(decreases_to!(n => n.children@[last]));
        lemma_due_paths_sound(n.children@[last], threshold, k - prev.len());
        let p = seq![last as usize] + q;
        assert(forest_due_paths(s, threshold)[k] == p);
        assert(p[0] == last as usize);
        assert(p.drop_first() =~= q);
        assert(seq![p[0]] + p.drop_first() =~= p);
        assert(n.children@.len() == n.children.len());
        assert((last as usize) as int == last);
        assert(node_at(n, p) == node_at(n.children@[last], q));
    }
}

/// The path views of a vector of paths.
pub open spec fn path_views(v: Seq<Vec<usize>>) -> Seq<Seq<usize>> {
    v.map_values(|p: Vec<usize>| p@)
}

fn collect_due(node: &PageNode, threshold: usize, prefix: &Vec<usize>, out: &mut Vec<Vec<usize>>)
    ensures
        path_views(final(out)@) == path_views(old(out)@) + due_paths(*node, threshold).map_values(
            |p: Seq<usize>| prefix@ + p,
        ),
    decreases node,
{
    let ghost start = path_views(out@);
    if node.content.as_str().len() / 4 >= threshold {
        let mut p: Vec<usize> = Vec::new();
        let mut j: usize = 0;
        while j < prefix.len()
            invariant
                j <= prefix.len(),
                p@ == prefix@.take(j as int),
            decreases prefix.len() - j,
        {
            p.push(prefix[j]);
            assert(prefix@.take(j + 1) =~= prefix@.take(j as int).push(prefix@[j as int]));
            j = j + 1;
        }
        assert(prefix@.take(prefix.len() as int) =~= prefix@);
        out.push(p);
    }
    let ghost head: Seq<Seq<usize>> = if summary_due(*node, threshold) {
        seq![Seq::<usize>::empty()]
    } else {
        Seq::empty()
    };
    assert(path_views(out@) =~= start + head.map_values(|p: Seq<usize>| prefix@ + p));
    let mut i: usize = 0;
    assert(node.children@.take(0) =~= Seq::<PageNode>::empty());
    while i < node.children.len()
        invariant
            i <= node.children.len(),
            path_views(out@) == start + head.map_values(|p: Seq<usize>| prefix@ + p)
                + forest_due_paths(node.children@.take(i as int), threshold).map_values(
                |p: Seq<usize>| prefix@ + p,
            ),
        decreases node.children.len() - i,
    {
        let ghost mid = path_views(out@);
        let mut sub = Vec::new();
        let mut j: usize = 0;
        while j < prefix.len()
            invariant
                j <= prefix.len(),
                sub@ == prefix@.take(j as int),
            decreases prefix.len() - j,
        {
            sub.push(prefix[j]);
            assert(prefix@.take(j + 1) =~= prefix@.take(j as int).push(prefix@[j as int]));
            j = j + 1;
        }
        assert(prefix@.take(prefix.len() as int) =~= prefix@);
        sub.push(i);
        assert(decreases_to!(*node => node.children@[i as int]));
        collect_due(&node.children[i], threshold, &sub, out);
        proof {
            let t = node.children@.take(i + 1);
            assert(t.drop_last() =~= node.children@.take(i as int));
            assert(t.last() == node.children@[i as int]);
            let a = forest_due_paths(node.children@.take(i as int), threshold);
            let b = due_paths(node.children@[i as int], threshold).map_values(
                |p: Seq<usize>| seq![i as usize] + p,
            );
            assert(forest_due_paths(t, threshold) == a + b);
            assert((a + b).map_values(|p: Seq<usize>| prefix@ + p) =~= a.map_values(
                |p: Seq<usize>| prefix@ + p,
            ) + b.map_values(|p: Seq<usize>| prefix@ + p));
            assert(b.map_values(|p: Seq<usize>| prefix@ + p) =~= due_paths(
                node.children@[i as int],
                threshold,
            ).map_values(|p: Seq<usize>| sub@ + p)) by {
                assert forall|k: int| #![trigger b[k]] 0 <= k < b.len() implies b.map_values(
                    |p: Seq<usize>| prefix@ + p,
                )[k] == due_paths(node.children@[i as int], threshold).map_values(
                    |p: Seq<usize>| sub@ + p,
                )[k] by {
                    let q = due_paths(node.children@[i as int], threshold)[k];
                    assert(prefix@ + (seq![i as usize] + q) =~= sub@ + q);
                }
            }
        }
        i = i + 1;
    }
    assert(node.children@.take(node.children.len() as int) =~= node.children@);
    assert(due_paths(*node, threshold).map_values(|p: Seq<usize>| prefix@ + p) =~= head.map_values(
        |p: Seq<usize>| prefix@ + p,
    ) + forest_due_paths(node.children@, threshold).map_values(|p: Seq<usize>| prefix@ + p));
}

/// The paths of the nodes whose summary is due to the model (see
/// [`due_paths`]), in pre-order.
pub fn summary_targets(root: &PageNode, threshold: usize) -> (r: Vec<Vec<usize>>)
    ensures
        path_views(r@) == due_paths(*root, threshold),
{
    let mut out: Vec<Vec<usize>> = Vec::new();
    let prefix: Vec<usize> = Vec::new();
    collect_due(root, threshold, &prefix, &mut out);
    assert(due_paths(*root, threshold).map_values(|p: Seq<usize>| prefix@ + p) =~= due_paths(
        *root,
        threshold,
    )) by {
        assert forall|k: int| #![trigger due_paths(*root, threshold)[k]] 0 <= k < due_paths(*root, threshold).len() implies due_paths(
            *root,
            threshold,
        ).map_values(|p: Seq<usize>| prefix@ + p)[k] == due_paths(*root, threshold)[k] by {
            assert(prefix@ + due_paths(*root, threshold)[k] =~= due_paths(*root, threshold)[k]);
        }
    }
    assert(path_views(out@) =~= due_paths(*root, threshold));
    out
}

/// The node that the child indices in `path` lead to, if any.
pub fn node_by_path<'a>(root: &'a PageNode, path: &[usize]) -> (r: Option<&'a PageNode>)
    ensures
        match node_at(*root, path@) {
            None => r is None,
            Some(x) => r matches Some(y) && *y == x,
        },
{
    let mut cur = root;
    let mut i: usize = 0;
    assert(path@.skip(0) =~= path@);
    while i < path.len()
        invariant
            i <= path.len(),
            node_at(*root, path@) == node_at(*cur, path@.skip(i as int)),
        decreases path.len() - i,
    {
        let ghost rest = path@.skip(i as int);
        assert(rest[0] == path@[i as int]);
        assert(rest.drop_first() =~= path@.skip(i + 1));
        if path[i] < cur.children.len() {
            cur = &cur.children[path[i]];
        } else {
            return None;
        }
        i = i + 1;
    }
    assert(path@.skip(path.len() as int) =~= Seq::<usize>::empty());
    Some(cur)
}

/// Whether `new` is `old` with the summary of the node at `path` set to
/// `text` (and unchanged when `path` leads nowhere).
pub open spec fn summary_set_at(new: PageNode, old: PageNode, path: Seq<usize>, text: Seq<char>) -> bool
    decreases path.len(),
{
    if path.len() == 0 {
        &&& new.summary@ == text
        &&& new.title == old.title
        &&& new.content == old.content
        &&& new.depth == old.depth
        &&& new.start_page == old.start_page
        &&& new.end_page == old.end_page
        &&& new.node_id == old.node_id
        &&& new.physical_index == old.physical_index
        &&& new.children == old.children
    } else if path[0] < old.children@.len() {
        &&& new.summary == old.summary
        &&& new.title == old.title
        &&& new.content == old.content
        &&& new.depth == old.depth
        &&& new.start_page == old.start_page
        &&& new.end_page == old.end_page
        &&& new.node_id == old.node_id
        &&& new.physical_index == old.physical_index
        &&& new.children@.len() == old.children@.len()
        &&& forall|i: int|
            0 <= i < old.children@.len() && i != path[0] ==> #[trigger] new.children@[i]
                == old.children@[i]
        &&& summary_set_at(
            new.children@[path[0] as int],
            old.children@[path[0] as int],
            path.drop_first(),
            text,
        )
    } else {
        new == old
    }
}

/// Sets the summary of the node at `path` to the model's reply, trimmed.
pub fn set_summary(root: &mut PageNode, path: &[usize], reply: &str)
    ensures
        summary_set_at(*final(root), *old(root), path@, trim(reply@)),
{
    assert(path@.skip(0) =~= path@);
    set_summary_from(root, path, 0, reply);
}

fn set_summary_from(root: &mut PageNode, path: &[usize], from: usize, reply: &str)
    requires
        from <= path.len(),
    ensures
        summary_set_at(*final(root), *old(root), path@.skip(from as int), trim(reply@)),
    decreases path.len() - from,
{
    let ghost rest = path@.skip(from as int);
    if from == path.len() {
        let v = str_chars(reply);
        root.summary = string_from(&trim_chars(&v));
        return;
    }
    assert(rest[0] == path@[from as int]);
    let i = path[from];
    if i >= root.children.len() {
        return;
    }
    let mut kids: Vec<PageNode> = Vec::new();
    std::mem::swap(&mut kids, &mut root.children);
    let ghost olds = kids@;
    let mut c = kids.remove(i);
    set_summary_from(&mut c, path, from + 1, reply);
    kids.insert(i, c);
    root.children = kids;
    assert(path@.skip(from + 1) =~= rest.drop_first());
    assert forall|j: int| 0 <= j < olds.len() && j != i implies #[trigger] root.children@[j]
        == olds[j] by {
        if j < i {
        } else {
        }
    }
}

} // verus!
