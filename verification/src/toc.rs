//! Table of contents of paged documents: entries, detection results,
//! configuration, and the text processing around them (dot leaders, title
//! matching, structure numbers, matching printed page numbers to physical
//! pages).

use vstd::prelude::*;
use crate::pdf::Page;
use crate::text::{
    contains_chars, contains_seq, decimal, decimal_chars, extend_chars, extend_str, lowercase,
    opt_view, parse_usize, parse_usize_chars, spaced, spaced_chars, str_chars, string_from,
    to_lowercase, trim, trim_bounds,
};

verus! {

/// A single entry of a table of contents.
pub struct TocEntry {
    /// Title of the section.
    pub title: String,
    /// Hierarchical level (1 = top level, 2 = subsection, ...).
    pub level: usize,
    /// Page number printed in the table of contents, if any.
    pub page: Option<usize>,
    /// Physical page marker after matching, such as `"<physical_index_5>"`.
    pub physical_index: Option<String>,
    /// Structure index such as `"1"`, `"1.1"`, `"1.2.3"`.
    pub structure: Option<String>,
}

impl TocEntry {
    /// An entry with the given title and level and nothing else.
    pub fn new(title: &str, level: usize) -> (r: TocEntry)
        ensures
            r.title@ == title@,
            r.level == level,
            r.page is None,
            r.physical_index is None,
            r.structure is None,
    {
        TocEntry {
            title: string_from(&str_chars(title)),
            level,
            page: None,
            physical_index: None,
            structure: None,
        }
    }

    /// An entry with the given title, level and printed page number.
    pub fn with_page(title: &str, level: usize, page: usize) -> (r: TocEntry)
        ensures
            r.title@ == title@,
            r.level == level,
            r.page == Some(page),
            r.physical_index is None,
            r.structure is None,
    {
        let mut entry = TocEntry::new(title, level);
        entry.page = Some(page);
        entry
    }
}

/// Result of table-of-contents detection and extraction.
pub struct TocResult {
    /// Whether a table of contents was detected.
    pub detected: bool,
    /// Pages holding it (0-based indices into the document).
    pub toc_pages: Vec<usize>,
    /// Whether it gives page numbers.
    pub has_page_numbers: bool,
    /// Its raw text.
    pub raw_content: Option<String>,
    /// Its entries.
    pub entries: Vec<TocEntry>,
}

impl TocResult {
    /// The result for a document without a table of contents.
    pub fn not_found() -> (r: TocResult)
        ensures
            !r.detected,
            r.toc_pages@.len() == 0,
            !r.has_page_numbers,
            r.raw_content is None,
            r.entries@.len() == 0,
    {
        TocResult {
            detected: false,
            toc_pages: Vec::new(),
            has_page_numbers: false,
            raw_content: None,
            entries: Vec::new(),
        }
    }
}

/// Configuration of table-of-contents processing.
pub struct TocConfig {
    /// Number of leading pages to check (default 20).
    pub toc_check_pages: usize,
    /// Maximum retries of a model completion (default 5).
    pub max_retries: usize,
    /// Whether to log progress.
    pub verbose: bool,
}

impl Default for TocConfig {
    fn default() -> (r: TocConfig)
        ensures
            r.toc_check_pages == 20,
            r.max_retries == 5,
            !r.verbose,
    {
        TocConfig { toc_check_pages: 20, max_retries: 5, verbose: false }
    }
}

impl TocConfig {
    /// A builder that starts from the default configuration.
    pub fn builder() -> (r: TocConfigBuilder)
        ensures
            r.config.toc_check_pages == 20,
            r.config.max_retries == 5,
            !r.config.verbose,
    {
        TocConfigBuilder { config: TocConfig::default() }
    }
}

/// Builder of [`TocConfig`].
pub struct TocConfigBuilder {
    /// The configuration built so far.
    pub config: TocConfig,
}

impl Default for TocConfigBuilder {
    fn default() -> (r: TocConfigBuilder)
        ensures
            r.config.toc_check_pages == 20,
            r.config.max_retries == 5,
            !r.config.verbose,
    {
        TocConfig::builder()
    }
}

impl TocConfigBuilder {
    /// Sets the number of leading pages to check.
    pub fn toc_check_pages(self, value: usize) -> (r: TocConfigBuilder)
        ensures
            r.config.toc_check_pages == value,
            r.config.max_retries == self.config.max_retries,
            r.config.verbose == self.config.verbose,
    {
        let mut b = self;
        b.config.toc_check_pages = value;
        b
    }

    /// Sets the maximum number of retries.
    pub fn max_retries(self, value: usize) -> (r: TocConfigBuilder)
        ensures
            r.config.toc_check_pages == self.config.toc_check_pages,
            r.config.max_retries == value,
            r.config.verbose == self.config.verbose,
    {
        let mut b = self;
        b.config.max_retries = value;
        b
    }

    /// Turns progress logging on or off.
    pub fn verbose(self, value: bool) -> (r: TocConfigBuilder)
        ensures
            r.config.toc_check_pages == self.config.toc_check_pages,
            r.config.max_retries == self.config.max_retries,
            r.config.verbose == value,
    {
        let mut b = self;
        b.config.verbose = value;
        b
    }

    /// The configuration.
    pub fn build(self) -> (r: TocConfig)
        ensures
            r == self.config,
    {
        self.config
    }
}

// ------------------------------------------------------------------
// Dot leaders
// ------------------------------------------------------------------

/// Number of consecutive `.` in `s` from index `j` on.
pub open spec fn dot_run(s: Seq<char>, j: int) -> nat
    decreases s.len() - j,
{
    if 0 <= j < s.len() && s[j] == '.' {
        1 + dot_run(s, j + 1)
    } else {
        0
    }
}

/// Number of consecutive `". "` pairs in `s` from index `j` on.
pub open spec fn pair_run(s: Seq<char>, j: int) -> nat
    decreases s.len() - j,
{
    if 0 <= j && j + 1 < s.len() && s[j] == '.' && s[j + 1] == ' ' {
        1 + pair_run(s, j + 2)
    } else {
        0
    }
}

/// Every run of five or more dots replaced by `": "`, scanning from the
/// left (the pattern `\.{5,}`).
pub open spec fn replace_dot_runs(s: Seq<char>) -> Seq<char>
    decreases s.len(),
{
    if s.len() == 0 {
        s
    } else if dot_run(s, 0) >= 5 {
        proof {
            lemma_dot_run_bound(s, 0);
        }
        ": "@ + replace_dot_runs(s.skip(dot_run(s, 0) as int))
    } else {
        seq![s[0]] + replace_dot_runs(s.drop_first())
    }
}

/// The length of a spaced-dot leader at the start of `s`: five or more
/// `". "` pairs and an optional final `.`; 0 when there is none.
pub open spec fn spaced_leader(s: Seq<char>) -> nat {
    let k = pair_run(s, 0);
    if k >= 5 {
        if 2 * k < s.len() && s[2 * k as int] == '.' {
            2 * k + 1
        } else {
            2 * k
        }
    } else {
        0
    }
}

/// Every spaced-dot leader replaced by `": "`, scanning from the left (the
/// pattern `(?:\. ){5,}\.?`).
pub open spec fn replace_spaced_dots(s: Seq<char>) -> Seq<char>
    decreases s.len(),
{
    if s.len() == 0 {
        s
    } else if spaced_leader(s) > 0 {
        proof {
            lemma_pair_run_bound(s, 0);
        }
        ": "@ + replace_spaced_dots(s.skip(spaced_leader(s) as int))
    } else {
        seq![s[0]] + replace_spaced_dots(s.drop_first())
    }
}

/// A dot run stays within the text.
pub proof fn lemma_dot_run_bound(s: Seq<char>, j: int)
    requires
        0 <= j <= s.len(),
    ensures
        j + dot_run(s, j) <= s.len(),
        forall|m: int| j <= m < j + dot_run(s, j) ==> s[m] == '.',
    decreases s.len() - j,
{
    if j < s.len() && s[j] == '.' {
        lemma_dot_run_bound(s, j + 1);
    }
}

/// A pair run stays within the text.
pub proof fn lemma_pair_run_bound(s: Seq<char>, j: int)
    requires
        0 <= j <= s.len(),
    ensures
        j + 2 * pair_run(s, j) <= s.len(),
    decreases s.len() - j,
{
    if j + 1 < s.len() && s[j] == '.' && s[j + 1] == ' ' {
        lemma_pair_run_bound(s, j + 2);
    }
}

/// Dot leaders of table-of-contents lines turned into colons: runs of five
/// or more dots (`"Chapter 1.......5"`) and then runs of five or more
/// spaced dots (`"Chapter 1 . . . . . 5"`) each become `": "`.
pub open spec fn dots_to_colon(s: Seq<char>) -> Seq<char> {
    replace_spaced_dots(replace_dot_runs(s))
}

fn replace_dot_runs_chars(v: &Vec<char>) -> (r: Vec<char>)
    ensures
        r@ == replace_dot_runs(v@),
{
    let mut out: Vec<char> = Vec::new();
    let mut i: usize = 0;
    let colon = str_chars(": ");
    assert(v@.skip(0) =~= v@);
    while i < v.len()
        invariant
            i <= v.len(),
            colon@ == ": "@,
            out@ + replace_dot_runs(v@.skip(i as int)) == replace_dot_runs(v@),
        decreases v.len() - i,
    {
        let ghost rest = v@.skip(i as int);
        let mut k = i;
        while k < v.len() && v[k] == '.'
            invariant
                i <= k <= v.len(),
                rest == v@.skip(i as int),
                dot_run(rest, 0) == (k - i) + dot_run(rest, (k - i) as int),
            decreases v.len() - k,
        {
            assert(rest[(k - i) as int] == v@[k as int]);
            k = k + 1;
        }
        proof {
            if k < v.len() {
                assert(rest[(k - i) as int] == v@[k as int]);
            }
        }
        assert(dot_run(rest, 0) == k - i);
        if k - i >= 5 {
            extend_chars(&mut out, &colon);
            assert(rest.skip((k - i) as int) =~= v@.skip(k as int));
            assert(out@ + replace_dot_runs(v@.skip(k as int)) =~= replace_dot_runs(v@));
            i = k;
        } else {
            out.push(v[i]);
            assert(rest[0] == v@[i as int]);
            assert(rest.drop_first() =~= v@.skip(i + 1));
            assert(out@ + replace_dot_runs(v@.skip(i + 1)) =~= replace_dot_runs(v@));
            i = i + 1;
        }
    }
    assert(v@.skip(v.len() as int) =~= Seq::<char>::empty());
    assert(out@ + Seq::<char>::empty() =~= out@);
    out
}

fn replace_spaced_dots_chars(v: &Vec<char>) -> (r: Vec<char>)
    ensures
        r@ == replace_spaced_dots(v@),
{
    let mut out: Vec<char> = Vec::new();
    let mut i: usize = 0;
    let colon = str_chars(": ");
    assert(v@.skip(0) =~= v@);
    while i < v.len()
        invariant
            i <= v.len(),
            colon@ == ": "@,
            out@ + replace_spaced_dots(v@.skip(i as int)) == replace_spaced_dots(v@),
        decreases v.len() - i,
    {
        let ghost rest = v@.skip(i as int);
        let mut k = i;
        let mut pairs: usize = 0;
        while v.len() - k > 1 && v[k] == '.' && v[k + 1] == ' '
            invariant
                i <= k <= v.len(),
                k == i + 2 * pairs,
                rest == v@.skip(i as int),
                pair_run(rest, 0) == pairs + pair_run(rest, (k - i) as int),
            decreases v.len() - k,
        {
            assert(rest[(k - i) as int] == v@[k as int]);
            assert(rest[(k - i) + 1] == v@[k + 1]);
            k = k + 2;
            pairs = pairs + 1;
        }
        proof {
            if v.len() - k > 1 {
                assert(rest[(k - i) as int] == v@[k as int]);
                assert(rest[(k - i) + 1] == v@[k + 1]);
            }
        }
        assert(pair_run(rest, 0) == pairs);
        if pairs >= 5 {
            let mut m = k;
            if k < v.len() && v[k] == '.' {
                m = k + 1;
            }
            proof {
                if k < v.len() {
                    assert(rest[(k - i) as int] == v@[k as int]);
                }
            }
            assert(spaced_leader(rest) == m - i);
            extend_chars(&mut out, &colon);
            assert(rest.skip((m - i) as int) =~= v@.skip(m as int));
            assert(out@ + replace_spaced_dots(v@.skip(m as int)) =~= replace_spaced_dots(v@));
            i = m;
        } else {
            out.push(v[i]);
            assert(rest[0] == v@[i as int]);
            assert(rest.drop_first() =~= v@.skip(i + 1));
            assert(out@ + replace_spaced_dots(v@.skip(i + 1)) =~= replace_spaced_dots(v@));
            i = i + 1;
        }
    }
    assert(v@.skip(v.len() as int) =~= Seq::<char>::empty());
    assert(out@ + Seq::<char>::empty() =~= out@);
    out
}

/// Turns dot leaders into colons (see [`dots_to_colon`]).
pub fn transform_dots_to_colon(text: &str) -> (r: String)
    ensures
        r@ == dots_to_colon(text@),
{
    let v = str_chars(text);
    let a = replace_dot_runs_chars(&v);
    string_from(&replace_spaced_dots_chars(&a))
}

// ------------------------------------------------------------------
// Titles, structure numbers
// ------------------------------------------------------------------

/// A title normalised for matching: words separated by single spaces,
/// lowercase.
pub open spec fn normalized(s: Seq<char>) -> Seq<char> {
    lowercase(spaced(s))
}

/// Normalises a title for matching (see [`normalized`]).
pub fn normalize_title(title: &str) -> (r: String)
    ensures
        r@ == normalized(title@),
{
    let v = str_chars(title);
    let w = string_from(&spaced_chars(&v));
    to_lowercase(w.as_str())
}

/// Number of occurrences of `c` in `s`.
pub open spec fn count_char(s: Seq<char>, c: char) -> nat
    decreases s.len(),
{
    if s.len() == 0 {
        0
    } else {
        count_char(s.drop_last(), c) + if s.last() == c {
            1nat
        } else {
            0nat
        }
    }
}

/// The level of a structure number: one more than its dots (`"1.2.3"` is
/// level 3).
pub fn calculate_level_from_structure(structure: &str) -> (r: usize)
    requires
        structure@.len() < usize::MAX,
    ensures
        r == count_char(structure@, '.') + 1,
{
    let v = str_chars(structure);
    let mut n: usize = 0;
    let mut i: usize = 0;
    while i < v.len()
        invariant
            i <= v.len() < usize::MAX,
            n == count_char(v@.take(i as int), '.'),
            n <= i,
        decreases v.len() - i,
    {
        assert(v@.take(i + 1).drop_last() =~= v@.take(i as int));
        if v[i] == '.' {
            n = n + 1;
        }
        i = i + 1;
    }
    assert(v@.take(v.len() as int) =~= v@);
    n + 1
}

// ------------------------------------------------------------------
// Table-of-contents text
// ------------------------------------------------------------------

/// The text of the given pages, each followed by a line feed, in the order
/// given.
pub open spec fn pages_text(pages: Seq<Page>, idx: Seq<usize>) -> Seq<char>
    decreases idx.len(),
{
    if idx.len() == 0 {
        Seq::empty()
    } else {
        pages_text(pages, idx.drop_last()) + pages[idx.last() as int].content@ + "\n"@
    }
}

/// The raw table-of-contents text: the given pages' texts, each followed by
/// a line feed, with dot leaders turned into colons.
pub fn extract_toc_content(pages: &[Page], toc_pages: &[usize]) -> (r: String)
    requires
        forall|k: int| 0 <= k < toc_pages@.len() ==> #[trigger] toc_pages@[k] < pages@.len(),
    ensures
        r@ == dots_to_colon(pages_text(pages@, toc_pages@)),
{
    let mut content: Vec<char> = Vec::new();
    let mut i: usize = 0;
    while i < toc_pages.len()
        invariant
            i <= toc_pages.len(),
            forall|k: int| 0 <= k < toc_pages@.len() ==> #[trigger] toc_pages@[k] < pages@.len(),
            content@ == pages_text(pages@, toc_pages@.take(i as int)),
        decreases toc_pages.len() - i,
    {
        let idx = toc_pages[i];
        extend_str(&mut content, pages[idx].content.as_str());
        extend_str(&mut content, "\n");
        assert(toc_pages@.take(i + 1).drop_last() =~= toc_pages@.take(i as int));
        assert(toc_pages@.take(i + 1).last() == idx);
        i = i + 1;
    }
    assert(toc_pages@.take(toc_pages.len() as int) =~= toc_pages@);
    let text = string_from(&content);
    transform_dots_to_colon(text.as_str())
}

// ------------------------------------------------------------------
// Matching printed page numbers to physical pages
// ------------------------------------------------------------------

/// Whether the normalised title occurs in the normalised page text.
pub open spec fn title_on_page(title: Seq<char>, content: Seq<char>) -> bool {
    contains_seq(normalized(content), normalized(title))
}

/// Whether `title` appears on a page (after normalising both).
pub fn title_appears_on_page(title: &str, content: &str) -> (r: bool)
    ensures
        r == title_on_page(title@, content@),
{
    let t = str_chars(normalize_title(title).as_str());
    let c = str_chars(normalize_title(content).as_str());
    contains_chars(&c, &t)
}

/// The first page (1-based) among the 0-based indices `from..to` whose
/// text shows the title.
pub open spec fn first_page_with(title: Seq<char>, pages: Seq<Page>, from: int, to: int) -> Option<usize>
    decreases to - from,
{
    if from >= to {
        None
    } else if title_on_page(title, pages[from].content@) {
        Some((from + 1) as usize)
    } else {
        first_page_with(title, pages, from + 1, to)
    }
}

/// The search window of [`find_title_in_pages`]: from one page before
/// `start` (0-based `start - 1`, not below 0) to `end`, capped at the
/// document's length.
pub open spec fn title_search(title: Seq<char>, pages: Seq<Page>, start: usize, end: usize) -> Option<usize> {
    let to = if end < pages.len() { end as int } else { pages.len() as int };
    let from = if start >= 1 { start - 1 } else { 0 };
    first_page_with(title, pages, from, to)
}

/// Looks for `title` on the pages from `start - 1` to `end` (0-based,
/// end excluded, capped at the number of pages) and returns the 1-based
/// number of the first page that shows it.
pub fn find_title_in_pages(title: &str, pages: &[Page], start: usize, end: usize) -> (r: Option<usize>)
    ensures
        r == title_search(title@, pages@, start, end),
{
    let to = if end < pages.len() { end } else { pages.len() };
    let from = if start >= 1 { start - 1 } else { 0 };
    let mut i = from;
    while i < to
        invariant
            from <= i,
            to <= pages.len(),
            title_search(title@, pages@, start, end) == first_page_with(
                title@,
                pages@,
                i as int,
                to as int,
            ),
        decreases to - i,
    {
        if title_appears_on_page(title, pages[i].content.as_str()) {
            return Some(i + 1);
        }
        i = i + 1;
    }
    None
}

/// The (printed page, physical page) pairs found for the first five
/// entries (at most) that have a printed page, in order: each title is
/// looked for from one page before its printed page to five pages after.
pub open spec fn matched_pairs(entries: Seq<TocEntry>, pages: Seq<Page>, k: int) -> Seq<(usize, usize)>
    decreases k,
{
    if k <= 0 {
        Seq::empty()
    } else {
        matched_pairs(entries, pages, k - 1) + match entries[k - 1].page {
            Some(p) => match title_search(entries[k - 1].title@, pages, p, (p + 5) as usize) {
                Some(idx) => seq![(p, idx)],
                None => Seq::empty(),
            },
            None => Seq::empty(),
        }
    }
}

/// The pairs found for the first five entries (at most).
pub open spec fn toc_pairs(entries: Seq<TocEntry>, pages: Seq<Page>) -> Seq<(usize, usize)> {
    matched_pairs(
        entries,
        pages,
        if entries.len() < 5 {
            entries.len() as int
        } else {
            5
        },
    )
}

/// How many pairs have the offset `off` (physical minus printed page).
pub open spec fn offset_count(pairs: Seq<(usize, usize)>, off: int) -> nat
    decreases pairs.len(),
{
    if pairs.len() == 0 {
        0
    } else {
        offset_count(pairs.drop_last(), off) + if pairs.last().1 - pairs.last().0 == off {
            1nat
        } else {
            0nat
        }
    }
}

/// Whether `off` is an offset of the pairs that no other offset occurs
/// more often than; with no pairs, only 0.
pub open spec fn is_mode_offset(pairs: Seq<(usize, usize)>, off: int) -> bool {
    if pairs.len() == 0 {
        off == 0
    } else {
        &&& exists|i: int| 0 <= i < pairs.len() && pairs[i].1 - pairs[i].0 == off
        &&& forall|i: int|
            0 <= i < pairs.len() ==> offset_count(pairs, #[trigger] (pairs[i].1 - pairs[i].0))
                <= offset_count(pairs, off)
    }
}

/// The entry with its physical page set from the offset: when it has a
/// printed page `p` and `p + off` is a page of the document, the marker
/// `<physical_index_{p + off}>`; otherwise the entry unchanged.
pub open spec fn offset_entry_ok(new: TocEntry, old: TocEntry, off: int, page_count: nat) -> bool {
    &&& new.title == old.title
    &&& new.level == old.level
    &&& new.page == old.page
    &&& opt_view(new.structure) == opt_view(old.structure)
    &&& opt_view(new.physical_index) == match old.page {
        Some(p) => if 0 < p + off <= page_count {
            Some("<physical_index_"@ + decimal((p + off) as nat) + ">"@)
        } else {
            opt_view(old.physical_index)
        },
        None => opt_view(old.physical_index),
    }
}

fn pair_offset_count(pairs: &Vec<(usize, usize)>, off: i64) -> (r: usize)
    requires
        forall|i: int| 0 <= i < pairs@.len() ==> #[trigger] pairs@[i].0 <= 0x7fff_ffff && pairs@[i].1
            <= 0x7fff_ffff,
    ensures
        r == offset_count(pairs@, off as int),
{
    let mut n: usize = 0;
    let mut i: usize = 0;
    while i < pairs.len()
        invariant
            i <= pairs.len(),
            forall|i: int| 0 <= i < pairs@.len() ==> #[trigger] pairs@[i].0 <= 0x7fff_ffff && pairs@[i].1
                <= 0x7fff_ffff,
            n == offset_count(pairs@.take(i as int), off as int),
            n <= i,
        decreases pairs.len() - i,
    {
        assert(pairs@.take(i + 1).drop_last() =~= pairs@.take(i as int));
        let (a, b) = pairs[i];
        if (b as i64) - (a as i64) == off {
            n = n + 1;
        }
        i = i + 1;
    }
    assert(pairs@.take(pairs.len() as int) =~= pairs@);
    n
}

/// The offset that occurs most often among the pairs (the first such one
/// on a tie), or 0 when there are no pairs.
pub fn most_common_offset(pairs: &Vec<(usize, usize)>) -> (r: i64)
    requires
        forall|i: int| 0 <= i < pairs@.len() ==> #[trigger] pairs@[i].0 <= 0x7fff_ffff && pairs@[i].1
            <= 0x7fff_ffff,
    ensures
        is_mode_offset(pairs@, r as int),
{
    if pairs.len() == 0 {
        return 0;
    }
    let mut best: i64 = (pairs[0].1 as i64) - (pairs[0].0 as i64);
    let mut best_count = pair_offset_count(pairs, best);
    let mut i: usize = 1;
    while i < pairs.len()
        invariant
            1 <= i <= pairs.len(),
            forall|i: int| 0 <= i < pairs@.len() ==> #[trigger] pairs@[i].0 <= 0x7fff_ffff && pairs@[i].1
                <= 0x7fff_ffff,
            exists|k: int| 0 <= k < pairs@.len() && pairs@[k].1 - pairs@[k].0 == best,
            best_count == offset_count(pairs@, best as int),
            forall|k: int|
                0 <= k < i ==> offset_count(pairs@, #[trigger] (pairs@[k].1 - pairs@[k].0)) <= best_count,
        decreases pairs.len() - i,
    {
        let off = (pairs[i].1 as i64) - (pairs[i].0 as i64);
        let c = pair_offset_count(pairs, off);
        if c > best_count {
            best = off;
            best_count = c;
        }
        i = i + 1;
    }
    best
}

/// The entries with physical pages set from the offset (see
/// [`offset_entry_ok`]).
pub fn apply_page_offset(entries: &[TocEntry], off: i64, page_count: usize) -> (r: Vec<TocEntry>)
    requires
        -0x7fff_ffff <= off <= 0x7fff_ffff,
        forall|i: int| 0 <= i < entries@.len() ==> (#[trigger] entries@[i].page matches Some(p) ==> p <= 0x7fff_ffff),
    ensures
        r@.len() == entries@.len(),
        forall|i: int| 0 <= i < entries@.len() ==> offset_entry_ok(#[trigger] r@[i], entries@[i], off as int, page_count as nat),
{
    let mut out: Vec<TocEntry> = Vec::new();
    let mut i: usize = 0;
    while i < entries.len()
        invariant
            i <= entries.len(),
            -0x7fff_ffff <= off <= 0x7fff_ffff,
            forall|i: int| 0 <= i < entries@.len() ==> (#[trigger] entries@[i].page matches Some(p) ==> p <= 0x7fff_ffff),
            out@.len() == i,
            forall|k: int| 0 <= k < i ==> offset_entry_ok(#[trigger] out@[k], entries@[k], off as int, page_count as nat),
        decreases entries.len() - i,
    {
        let e = &entries[i];
        let mut physical = clone_opt_string(&e.physical_index);
        if let Some(p) = e.page {
            let q: i64 = (p as i64) + off;
            if q > 0 && (q as usize) <= page_count {
                let mut m: Vec<char> = Vec::new();
                extend_str(&mut m, "<physical_index_");
                extend_chars(&mut m, &decimal_chars(q as usize));
                extend_str(&mut m, ">");
                physical = Some(string_from(&m));
            }
        }
        out.push(
            TocEntry {
                title: e.title.clone(),
                level: e.level,
                page: e.page,
                physical_index: physical,
                structure: clone_opt_string(&e.structure),
            },
        );
        i = i + 1;
    }
    out
}

fn clone_opt_string(o: &Option<String>) -> (r: Option<String>)
    ensures
        opt_view(r) == opt_view(*o),
{
    crate::text::clone_opt(o)
}

/// Matches printed page numbers to physical pages: the first five entries
/// (at most) with a printed page are looked for around that page, the
/// offset between printed and physical pages that occurs most often among
/// the matches is taken (0 when none matched), and every entry with a
/// printed page whose offset page lies in the document gets its physical
/// marker.
pub fn match_page_numbers(entries: &[TocEntry], pages: &[Page]) -> (r: Vec<TocEntry>)
    requires
        pages@.len() <= 0x7fff_ffff,
        forall|i: int| 0 <= i < entries@.len() ==> (#[trigger] entries@[i].page matches Some(p) ==> p <= 0x7fff_ffff),
    ensures
        r@.len() == entries@.len(),
        exists|off: int|
            #[trigger] is_mode_offset(
                toc_pairs(entries@, pages@),
                off,
            ) && forall|i: int|
                0 <= i < entries@.len() ==> offset_entry_ok(#[trigger] r@[i], entries@[i], off, pages@.len()),
{
    let lim = if entries.len() < 5 { entries.len() } else { 5 };
    let mut pairs: Vec<(usize, usize)> = Vec::new();
    let mut k: usize = 0;
    while k < lim
        invariant
            k <= lim <= entries.len(),
            lim <= 5,
            pages@.len() <= 0x7fff_ffff,
            forall|i: int| 0 <= i < entries@.len() ==> (#[trigger] entries@[i].page matches Some(p) ==> p <= 0x7fff_ffff),
            pairs@ == matched_pairs(entries@, pages@, k as int),
            forall|i: int| 0 <= i < pairs@.len() ==> #[trigger] pairs@[i].0 <= 0x7fff_ffff && pairs@[i].1
                <= 0x7fff_ffff,
        decreases lim - k,
    {
        let e = &entries[k];
        let ghost before = pairs@;
        if let Some(p) = e.page {
            match find_title_in_pages(e.title.as_str(), pages, p, p + 5) {
                Some(idx) => {
                    proof {
                        lemma_first_page_bound(e.title@, pages@, if p >= 1 { p - 1 } else { 0 }, if p + 5 < pages@.len() { p + 5 } else { pages@.len() as int });
                    }
                    pairs.push((p, idx));
                },
                None => {},
            }
        }
        assert(pairs@ =~= matched_pairs(entries@, pages@, k + 1));
        k = k + 1;
    }
    let off = most_common_offset(&pairs);
    assert(pairs@ == toc_pairs(entries@, pages@));
    proof {
        if pairs@.len() > 0 {
            let j = choose|j: int| 0 <= j < pairs@.len() && pairs@[j].1 - pairs@[j].0 == off;
            assert(pairs@[j].0 <= 0x7fff_ffff && pairs@[j].1 <= 0x7fff_ffff);
        }
    }
    let r = apply_page_offset(entries, off, pages.len());
    assert(is_mode_offset(toc_pairs(entries@, pages@), off as int));
    r
}

/// A page found by [`first_page_with`] is a page of the window.
pub proof fn lemma_first_page_bound(title: Seq<char>, pages: Seq<Page>, from: int, to: int)
    requires
        0 <= from,
        to <= usize::MAX,
    ensures
        first_page_with(title, pages, from, to) matches Some(p) ==> from + 1 <= p <= to,
    decreases to - from,
{
    if from < to && !title_on_page(title, pages[from].content@) {
        lemma_first_page_bound(title, pages, from + 1, to);
    }
}

// ------------------------------------------------------------------
// Entries from the model's structured reply
// ------------------------------------------------------------------

/// One item of the model's structured table of contents.
pub struct TocItem {
    /// Structure number such as `"1.2"`.
    pub structure: String,
    /// Section title.
    pub title: String,
    /// Printed page, as text, if any.
    pub page: Option<String>,
}

/// Whether `e` is the entry made from item `it`: its title, the level of
/// its structure number, its page when the text is a number, and its
/// structure number.
pub open spec fn is_item_entry(e: TocEntry, it: TocItem) -> bool {
    &&& e.title@ == it.title@
    &&& e.level == count_char(it.structure@, '.') + 1
    &&& e.page == match it.page {
        Some(p) => parse_usize(p@),
        None => None,
    }
    &&& e.physical_index is None
    &&& opt_view(e.structure) == Some(it.structure@)
}

/// The entries made from the model's items (see [`is_item_entry`]).
pub fn entries_from_items(items: &[TocItem]) -> (r: Vec<TocEntry>)
    requires
        forall|i: int| 0 <= i < items@.len() ==> (#[trigger] items@[i]).structure@.len() < usize::MAX,
    ensures
        r@.len() == items@.len(),
        forall|i: int| 0 <= i < items@.len() ==> is_item_entry(#[trigger] r@[i], items@[i]),
{
    let mut out: Vec<TocEntry> = Vec::new();
    let mut i: usize = 0;
    while i < items.len()
        invariant
            i <= items.len(),
            forall|i: int| 0 <= i < items@.len() ==> (#[trigger] items@[i]).structure@.len() < usize::MAX,
            out@.len() == i,
            forall|k: int| 0 <= k < i ==> is_item_entry(#[trigger] out@[k], items@[k]),
        decreases items.len() - i,
    {
        let it = &items[i];
        let level = calculate_level_from_structure(it.structure.as_str());
        let page = match &it.page {
            Some(p) => {
                let v = str_chars(p.as_str());
                assert(v@.subrange(0, v@.len() as int) =~= v@);
                parse_usize_chars(&v, 0, v.len())
            },
            None => None,
        };
        out.push(
            TocEntry {
                title: it.title.clone(),
                level,
                page,
                physical_index: None,
                structure: Some(it.structure.clone()),
            },
        );
        i = i + 1;
    }
    out
}

// ------------------------------------------------------------------
// Finding the table-of-contents pages
// ------------------------------------------------------------------

/// The state of the scan for table-of-contents pages: the pages found so
/// far, whether the last page checked was one, the next page to check, the
/// number of pages to check, and whether the scan has ended.
pub struct TocScan {
    /// Pages found so far (0-based).
    pub toc_pages: Vec<usize>,
    /// Whether the last page checked holds the table of contents.
    pub last_was_yes: bool,
    /// Next page to check (0-based).
    pub next: usize,
    /// Number of leading pages to check.
    pub limit: usize,
    /// Whether the scan has ended.
    pub done: bool,
}

impl TocScan {
    /// A scan of the first `toc_check_pages` pages (at most `page_count`).
    pub fn new(toc_check_pages: usize, page_count: usize) -> (r: TocScan)
        ensures
            r.toc_pages@.len() == 0,
            !r.last_was_yes,
            r.next == 0,
            r.limit == (if toc_check_pages < page_count {
                toc_check_pages
            } else {
                page_count
            }),
            !r.done,
    {
        TocScan {
            toc_pages: Vec::new(),
            last_was_yes: false,
            next: 0,
            limit: if toc_check_pages < page_count {
                toc_check_pages
            } else {
                page_count
            },
            done: false,
        }
    }

    /// The next page to ask about, or `None` when the scan is over.
    pub fn next_page(&self) -> (r: Option<usize>)
        ensures
            r == (if !self.done && self.next < self.limit {
                Some(self.next)
            } else {
                None::<usize>
            }),
    {
        if !self.done && self.next < self.limit {
            Some(self.next)
        } else {
            None
        }
    }

    /// Records whether the page just asked about holds the table of
    /// contents: a page that does is kept and the scan goes on; the first
    /// page that does not after one that did ends the scan; before any
    /// page did, the scan goes on.
    pub fn record(&mut self, detected: bool)
        requires
            !old(self).done,
            old(self).next < old(self).limit,
        ensures
            final(self).limit == old(self).limit,
            detected ==> final(self).toc_pages@ == old(self).toc_pages@.push(old(self).next)
                && final(self).last_was_yes && final(self).next == old(self).next + 1
                && !final(self).done,
            !detected && old(self).last_was_yes ==> final(self).toc_pages@ == old(self).toc_pages@
                && final(self).done && final(self).next == old(self).next
                && final(self).last_was_yes,
            !detected && !old(self).last_was_yes ==> final(self).toc_pages@ == old(self).toc_pages@
                && !final(self).done && final(self).next == old(self).next + 1
                && !final(self).last_was_yes,
    {
        if detected {
            self.toc_pages.push(self.next);
            self.last_was_yes = true;
            self.next = self.next + 1;
        } else if self.last_was_yes {
            self.done = true;
        } else {
            self.next = self.next + 1;
        }
    }
}

// ------------------------------------------------------------------
// JSON in model replies
// ------------------------------------------------------------------

/// Index of the last occurrence of `c` in `s`.
pub open spec fn last_index(s: Seq<char>, c: char) -> Option<int>
    decreases s.len(),
{
    if s.len() == 0 {
        None
    } else if s.last() == c {
        Some(s.len() - 1)
    } else {
        last_index(s.drop_last(), c)
    }
}

/// What [`json_object_slice`] gives: within the trimmed text, the part from
/// the first `{` to the last `}`, both included; an error message when
/// there is no `{` or no `}`, or the last `}` is not after the first `{`.
pub open spec fn json_slice(text: Seq<char>) -> Result<Seq<char>, Seq<char>> {
    let t = trim(text);
    match (crate::text::first_index(t, '{'), last_index(t, '}')) {
        (Some(a), Some(b)) => if a >= b {
            Err("Invalid JSON object bounds"@)
        } else {
            Ok(t.subrange(a, b + 1))
        },
        _ => Err("No JSON object found"@),
    }
}

/// The part of a model reply that holds a JSON object (see
/// [`json_slice`]).
pub fn json_object_slice(text: &str) -> (r: Result<String, String>)
    ensures
        match json_slice(text@) {
            Ok(s) => r matches Ok(x) && x@ == s,
            Err(m) => r matches Err(x) && x@ == m,
        },
{
    let v = str_chars(text);
    let (a0, b0) = trim_bounds(&v, 0, v.len());
    let t = crate::text::sub_chars(&v, a0, b0);
    assert(v@.subrange(0, v@.len() as int) =~= v@);
    let first = crate::text::find_char(&t, 0, t.len(), '{');
    assert(t@.subrange(0, t@.len() as int) =~= t@);
    let mut j = t.len();
    while j > 0 && t[j - 1] != '}'
        invariant
            j <= t.len(),
            last_index(t@, '}') == last_index(t@.take(j as int), '}'),
        decreases j,
    {
        assert(t@.take(j as int).drop_last() =~= t@.take(j - 1));
        assert(t@.take(j as int).last() == t@[j - 1]);
        j = j - 1;
    }
    let last: Option<usize> = if j > 0 {
        assert(t@.take(j as int).last() == t@[j - 1]);
        Some(j - 1)
    } else {
        assert(t@.take(0) =~= Seq::<char>::empty());
        None
    };
    match (first, last) {
        (Some(a), Some(b)) => {
            if a >= b {
                let mut m: Vec<char> = Vec::new();
                extend_str(&mut m, "Invalid JSON object bounds");
                Err(string_from(&m))
            } else {
                Ok(string_from(&crate::text::sub_chars(&t, a, b + 1)))
            }
        },
        _ => {
            let mut m: Vec<char> = Vec::new();
            extend_str(&mut m, "No JSON object found");
            Err(string_from(&m))
        },
    }
}

/// A found last index is in bounds.
pub proof fn lemma_last_index(s: Seq<char>, c: char)
    ensures
        last_index(s, c) matches Some(i) ==> 0 <= i < s.len() && s[i] == c,
    decreases s.len(),
{
    if s.len() > 0 && s.last() != c {
        lemma_last_index(s.drop_last(), c);
    }
}

/// The JSON part cut out of a model reply is an object in braces: it
/// starts with `{` and ends with `}`.
pub proof fn lemma_json_slice_braces(text: Seq<char>)
    ensures
        json_slice(text) matches Ok(s) ==> s.len() >= 2 && s[0] == '{' && s.last() == '}',
{
    let t = trim(text);
    crate::text::lemma_first_index(t, '{');
    lemma_last_index(t, '}');
}

/// `s` with every `None` replaced by `null` (left to right, without
/// overlaps).
pub open spec fn none_to_null(s: Seq<char>) -> Seq<char>
    decreases s.len(),
{
    if s.len() >= 4 && s.take(4) == "None"@ {
        "null"@ + none_to_null(s.skip(4))
    } else if s.len() == 0 {
        s
    } else {
        seq![s[0]] + none_to_null(s.drop_first())
    }
}

/// `s` with `None` written `null` and line breaks (`\n`, `\r`) turned into
/// spaces: the clean-up applied to a model's JSON before reading it.
pub open spec fn cleaned_json(s: Seq<char>) -> Seq<char> {
    none_to_null(s).map_values(|c: char| if c == '\n' || c == '\r' { ' ' } else { c })
}

/// Cleans up a model's JSON (see [`cleaned_json`]).
pub fn clean_json(s: &str) -> (r: String)
    ensures
        r@ == cleaned_json(s@),
{
    let v = str_chars(s);
    let none = str_chars("None");
    let null = str_chars("null");
    proof {
        reveal_strlit("None");
        reveal_strlit("null");
    }
    let mut out: Vec<char> = Vec::new();
    let mut i: usize = 0;
    assert(v@.skip(0) =~= v@);
    while i < v.len()
        invariant
            i <= v.len(),
            none@ == "None"@,
            null@ == "null"@,
            out@ + none_to_null(v@.skip(i as int)) == none_to_null(v@),
        decreases v.len() - i,
    {
        let ghost rest = v@.skip(i as int);
        proof {
            reveal_strlit("None");
        }
        if v.len() - i >= 4 && v[i] == 'N' && v[i + 1] == 'o' && v[i + 2] == 'n' && v[i + 3] == 'e' {
            assert(rest.take(4) =~= "None"@);
            extend_chars(&mut out, &null);
            assert(rest.skip(4) =~= v@.skip(i + 4));
            assert(out@ + none_to_null(v@.skip(i + 4)) =~= none_to_null(v@));
            i = i + 4;
        } else {
            proof {
                if rest.len() >= 4 && rest.take(4) == "None"@ {
                    assert(rest.take(4)[0] == v@[i as int]);
                    assert(rest.take(4)[1] == v@[i + 1]);
                    assert(rest.take(4)[2] == v@[i + 2]);
                    assert(rest.take(4)[3] == v@[i + 3]);
                }
            }
            out.push(v[i]);
            assert(rest[0] == v@[i as int]);
            assert(rest.drop_first() =~= v@.skip(i + 1));
            assert(out@ + none_to_null(v@.skip(i + 1)) =~= none_to_null(v@));
            i = i + 1;
        }
    }
    assert(v@.skip(v.len() as int) =~= Seq::<char>::empty());
    assert(out@ + Seq::<char>::empty() =~= out@);
    let mut res: Vec<char> = Vec::new();
    let mut k: usize = 0;
    while k < out.len()
        invariant
            k <= out.len(),
            res@ == out@.take(k as int).map_values(|c: char| if c == '\n' || c == '\r' { ' ' } else { c }),
        decreases out.len() - k,
    {
        let c = out[k];
        res.push(if c == '\n' || c == '\r' { ' ' } else { c });
        assert(out@.take(k + 1).map_values(|c: char| if c == '\n' || c == '\r' { ' ' } else { c })
            =~= res@);
        k = k + 1;
    }
    assert(out@.take(out.len() as int) =~= out@);
    string_from(&res)
}


// ------------------------------------------------------------------
// Model prompts and replies
// ------------------------------------------------------------------

/// The prompt that asks whether a page holds a table of contents.
pub open spec fn toc_detection_prompt(content: Seq<char>) -> Seq<char> {
    "Your job is to detect if there is a table of contents in the given text.\nNote: abstract, summary, notation list, figure list, table list, etc. are NOT table of contents.\n\nGiven text: "@
        + content
        + "\n\nReturn JSON format:\n{\n\"thinking\": \"<why do you think there is a table of contents>\",\n\"toc_detected\": \"<yes or no>\"\n}\nDirectly return the final JSON structure. Do not output anything else."@
}

/// The prompt that asks whether a table of contents gives page numbers.
pub open spec fn page_numbers_prompt(toc: Seq<char>) -> Seq<char> {
    "You will be given a table of contents.\n\nYour job is to detect if there are page numbers/indices given within the table of contents.\n\nGiven text: "@
        + toc
        + "\n\nReturn JSON format:\n{\n\"thinking\": \"<why do you think there are page numbers>\",\n\"page_index_given_in_toc\": \"<yes or no>\"\n}\nDirectly return the final JSON structure. Do not output anything else."@
}

/// The prompt that asks for the entries of a table of contents with their
/// structure numbers and printed pages.
pub open spec fn toc_transform_prompt(toc: Seq<char>) -> Seq<char> {
    "You are given a table of contents. Your job is to transform it into a JSON format.\nstructure is the numeric system representing the hierarchy. For example:\n- First section: \"1\"\n- First subsection: \"1.1\"\n- Second subsection: \"1.2\"\n\nReturn JSON format:\n{\n\"table_of_contents\": [\n{\n\"structure\": \"<x.x.x or null>\",\n\"title\": \"<section title>\",\n\"page\": \"<page number or null>\"\n}\n]\n}\nTransform the full table of contents. Directly return the JSON structure.\n\nGiven table of contents:\n"@
        + toc
}

/// The prompt that asks for the entries of a table of contents with their
/// levels, when it gives no page numbers.
pub open spec fn toc_levels_prompt(toc: Seq<char>) -> Seq<char> {
    "You are given a table of contents. Extract all sections with their hierarchy levels.\n\nGiven text: "@
        + toc
        + "\n\nReturn JSON format:\n[\n{\n\"structure\": \"<x.x.x>\",\n\"title\": \"<section title>\",\n\"level\": <1-6>\n}\n]\nDirectly return the JSON structure."@
}

/// The prompt that asks whether a page holds a table of contents (see
/// [`toc_detection_prompt`]).
pub fn detect_toc_prompt(content: &str) -> (r: String)
    ensures
        r@ == toc_detection_prompt(content@),
{
    let mut m: Vec<char> = Vec::new();
    extend_str(&mut m, "Your job is to detect if there is a table of contents in the given text.\nNote: abstract, summary, notation list, figure list, table list, etc. are NOT table of contents.\n\nGiven text: ");
    extend_str(&mut m, content);
    extend_str(&mut m, "\n\nReturn JSON format:\n{\n\"thinking\": \"<why do you think there is a table of contents>\",\n\"toc_detected\": \"<yes or no>\"\n}\nDirectly return the final JSON structure. Do not output anything else.");
    assert(m@ =~= toc_detection_prompt(content@));
    string_from(&m)
}

/// The prompt that asks whether a table of contents gives page numbers
/// (see [`page_numbers_prompt`]).
pub fn detect_page_numbers_prompt(toc: &str) -> (r: String)
    ensures
        r@ == page_numbers_prompt(toc@),
{
    let mut m: Vec<char> = Vec::new();
    extend_str(&mut m, "You will be given a table of contents.\n\nYour job is to detect if there are page numbers/indices given within the table of contents.\n\nGiven text: ");
    extend_str(&mut m, toc);
    extend_str(&mut m, "\n\nReturn JSON format:\n{\n\"thinking\": \"<why do you think there are page numbers>\",\n\"page_index_given_in_toc\": \"<yes or no>\"\n}\nDirectly return the final JSON structure. Do not output anything else.");
    assert(m@ =~= page_numbers_prompt(toc@));
    string_from(&m)
}

/// The prompt that asks for the entries with printed pages (see
/// [`toc_transform_prompt`]).
pub fn transform_toc_prompt(toc: &str) -> (r: String)
    ensures
        r@ == toc_transform_prompt(toc@),
{
    let mut m: Vec<char> = Vec::new();
    extend_str(&mut m, "You are given a table of contents. Your job is to transform it into a JSON format.\nstructure is the numeric system representing the hierarchy. For example:\n- First section: \"1\"\n- First subsection: \"1.1\"\n- Second subsection: \"1.2\"\n\nReturn JSON format:\n{\n\"table_of_contents\": [\n{\n\"structure\": \"<x.x.x or null>\",\n\"title\": \"<section title>\",\n\"page\": \"<page number or null>\"\n}\n]\n}\nTransform the full table of contents. Directly return the JSON structure.\n\nGiven table of contents:\n");
    extend_str(&mut m, toc);
    assert(m@ =~= toc_transform_prompt(toc@));
    string_from(&m)
}

/// The prompt that asks for the entries with levels (see
/// [`toc_levels_prompt`]).
pub fn entries_without_pages_prompt(toc: &str) -> (r: String)
    ensures
        r@ == toc_levels_prompt(toc@),
{
    let mut m: Vec<char> = Vec::new();
    extend_str(&mut m, "You are given a table of contents. Extract all sections with their hierarchy levels.\n\nGiven text: ");
    extend_str(&mut m, toc);
    extend_str(&mut m, "\n\nReturn JSON format:\n[\n{\n\"structure\": \"<x.x.x>\",\n\"title\": \"<section title>\",\n\"level\": <1-6>\n}\n]\nDirectly return the JSON structure.");
    assert(m@ =~= toc_levels_prompt(toc@));
    string_from(&m)
}

/// Whether a yes-or-no answer of the model is yes: `yes` in any case.
pub fn answer_is_yes(answer: &str) -> (r: bool)
    ensures
        r == (lowercase(answer@) == "yes"@),
{
    let l = str_chars(to_lowercase(answer).as_str());
    let y = str_chars("yes");
    crate::text::chars_eq(&l, &y)
}

/// The entry of a table of contents without page numbers, as the model
/// gives it: title, level and structure number.
pub fn entry_with_level(title: &str, level: usize, structure: &str) -> (r: TocEntry)
    ensures
        r.title@ == title@,
        r.level == level,
        r.page is None,
        r.physical_index is None,
        opt_view(r.structure) == Some(structure@),
{
    let mut e = TocEntry::new(title, level);
    e.structure = Some(string_from(&str_chars(structure)));
    e
}

} // verus!
