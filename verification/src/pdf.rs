//! Paged documents: pages with their text and token estimates, page
//! boundary markers, page-range extraction, and text extraction from PDF
//! bytes.

use vstd::prelude::*;
use vstd::utf8::encode_utf8;
use crate::pagespec::{error_message, parse_pages, spec_pages, strictly_increasing};
use crate::text::{
    decimal, decimal_chars, extend_chars, extend_str, join, join_chars, split, split_trimmed, str_chars,
    string_from, trim, word_count, count_words,
};

verus! {

// ------------------------------------------------------------------
// Token estimates
// ------------------------------------------------------------------

/// Length in bytes of the UTF-8 encoding of `s`, as `str::len` reports it.
pub open spec fn byte_len(s: Seq<char>) -> usize {
    encode_utf8(s).len() as usize
}

/// The larger of `a` and 1.
pub open spec fn at_least_one(a: nat) -> nat {
    if a >= 1 {
        a
    } else {
        1
    }
}

/// The default token estimate: 0 for empty text, else one token per four
/// bytes, and at least one.
pub open spec fn simple_tokens(s: Seq<char>) -> nat {
    if s.len() == 0 {
        0
    } else {
        at_least_one((byte_len(s) / 4) as nat)
    }
}

/// Token counting strategy.
#[derive(Clone, Copy, Debug, PartialEq, Eq, Structural)]
pub enum TokenStrategy {
    /// One token per four bytes of text (the default).
    Simple,
    /// Three tokens per four whitespace-separated words.
    WordBased,
    /// One token per four bytes of text.
    ByteBased,
}

/// The estimate that `strategy` gives for `s`.
pub open spec fn strategy_tokens(strategy: TokenStrategy, s: Seq<char>) -> nat {
    if s.len() == 0 {
        0
    } else {
        match strategy {
            TokenStrategy::WordBased => at_least_one(word_count(s) * 3 / 4),
            _ => at_least_one((byte_len(s) / 4) as nat),
        }
    }
}

impl Default for TokenStrategy {
    fn default() -> (r: TokenStrategy)
        ensures
            r == TokenStrategy::Simple,
    {
        TokenStrategy::Simple
    }
}

impl TokenStrategy {
    /// Estimated token count of `text` under this strategy.
    pub fn count(self, text: &str) -> (r: usize)
        ensures
            r == strategy_tokens(self, text@),
    {
        if text.is_empty() {
            return 0;
        }
        match self {
            TokenStrategy::WordBased => {
                let cs = str_chars(text);
                let w = count_words(&cs);
                // floor(3w / 4) computed without overflow
                let t = w / 4 * 3 + (w % 4) * 3 / 4;
                assert(t == w * 3 / 4) by (nonlinear_arith)
                    requires
                        t == w / 4 * 3 + (w % 4) * 3 / 4,
                ;
                if t >= 1 {
                    t
                } else {
                    1
                }
            },
            _ => {
                let q = text.len() / 4;
                if q >= 1 {
                    q
                } else {
                    1
                }
            },
        }
    }
}

/// Token estimate of `text` with the default strategy.
pub fn estimate_tokens(text: &str) -> (r: usize)
    ensures
        r == simple_tokens(text@),
{
    TokenStrategy::Simple.count(text)
}

// ------------------------------------------------------------------
// Pages and boundary markers
// ------------------------------------------------------------------

/// The marker `<physical_index_N>` for page `n`.
pub open spec fn page_marker(n: nat) -> Seq<char> {
    "<physical_index_"@ + decimal(n) + ">"@
}

/// Page text wrapped in its markers:
/// `<physical_index_N>\n{content}\n<physical_index_N>\n`.
pub open spec fn with_markers(n: nat, content: Seq<char>) -> Seq<char> {
    page_marker(n) + "\n"@ + content + "\n"@ + page_marker(n) + "\n"@
}

/// Executable form of [`page_marker`], appended to `out`.
pub fn push_page_marker(out: &mut Vec<char>, n: usize)
    ensures
        final(out)@ == old(out)@ + page_marker(n as nat),
{
    extend_str(out, "<physical_index_");
    let d = decimal_chars(n);
    extend_chars(out, &d);
    extend_str(out, ">");
    assert(final(out)@ =~= old(out)@ + page_marker(n as nat));
}

/// Executable form of [`with_markers`].
pub fn marked_chars(n: usize, content: &str) -> (r: Vec<char>)
    ensures
        r@ == with_markers(n as nat, content@),
{
    let mut r: Vec<char> = Vec::new();
    push_page_marker(&mut r, n);
    extend_str(&mut r, "\n");
    extend_str(&mut r, content);
    extend_str(&mut r, "\n");
    push_page_marker(&mut r, n);
    extend_str(&mut r, "\n");
    assert(r@ =~= with_markers(n as nat, content@));
    r
}

/// A single page of a document.
pub struct Page {
    /// Page number, 1-based.
    pub index: usize,
    /// Text of the page.
    pub content: String,
    /// Estimated token count of the text.
    pub tokens: usize,
}

impl Page {
    /// A page with the given number and text; its token count is the default
    /// estimate of the text.
    pub fn new(index: usize, content: String) -> (r: Page)
        ensures
            r.index == index,
            r.content@ == content@,
            r.tokens == simple_tokens(content@),
    {
        let tokens = estimate_tokens(content.as_str());
        Page { index, content, tokens }
    }

    /// The page text wrapped in `<physical_index_N>` markers.
    pub fn with_boundaries(&self) -> (r: String)
        ensures
            r@ == with_markers(self.index as nat, self.content@),
    {
        string_from(&marked_chars(self.index, self.content.as_str()))
    }
}

/// Sum of the token counts of the pages.
pub open spec fn total_tokens_of(pages: Seq<Page>) -> nat
    decreases pages.len(),
{
    if pages.len() == 0 {
        0
    } else {
        total_tokens_of(pages.drop_last()) + pages.last().tokens as nat
    }
}

/// Contents of the pages.
pub open spec fn contents_of(pages: Seq<Page>) -> Seq<Seq<char>> {
    pages.map_values(|p: Page| p.content@)
}

/// Contents of the pages, each wrapped in its markers.
pub open spec fn marked_contents_of(pages: Seq<Page>) -> Seq<Seq<char>> {
    pages.map_values(|p: Page| with_markers(p.index as nat, p.content@))
}

/// Text of pages `start..=end` (1-based) joined by blank lines, or the
/// empty text for a range outside `1..=pages.len()`.
pub open spec fn page_range_text(pages: Seq<Page>, start: int, end: int) -> Seq<char> {
    if start < 1 || end > pages.len() || start > end {
        Seq::empty()
    } else {
        join(contents_of(pages.subrange(start - 1, end)), "\n\n"@)
    }
}

/// Marked text of pages `start..=end` joined by newlines, or the empty text
/// for a range outside `1..=pages.len()`.
pub open spec fn marked_range_text(pages: Seq<Page>, start: int, end: int) -> Seq<char> {
    if start < 1 || end > pages.len() || start > end {
        Seq::empty()
    } else {
        join(marked_contents_of(pages.subrange(start - 1, end)), "\n"@)
    }
}

/// The contents of `pages[from..to]`.
pub fn page_texts(pages: &[Page], from: usize, to: usize) -> (r: Vec<Vec<char>>)
    requires
        from <= to <= pages.len(),
    ensures
        r@.map_values(|p: Vec<char>| p@) == contents_of(pages@.subrange(from as int, to as int)),
{
    let mut r: Vec<Vec<char>> = Vec::new();
    let mut i = from;
    while i < to
        invariant
            from <= i <= to <= pages.len(),
            r.len() == i - from,
            forall|j: int| 0 <= j < r.len() ==> #[trigger] r@[j]@ == pages@[from + j].content@,
        decreases to - i,
    {
        r.push(str_chars(pages[i].content.as_str()));
        i = i + 1;
    }
    assert(r@.map_values(|p: Vec<char>| p@) =~= contents_of(pages@.subrange(from as int, to as int)));
    r
}

/// The marked contents of `pages[from..to]`.
pub fn marked_page_texts(pages: &[Page], from: usize, to: usize) -> (r: Vec<Vec<char>>)
    requires
        from <= to <= pages.len(),
    ensures
        r@.map_values(|p: Vec<char>| p@) == marked_contents_of(
            pages@.subrange(from as int, to as int),
        ),
{
    let mut r: Vec<Vec<char>> = Vec::new();
    let mut i = from;
    while i < to
        invariant
            from <= i <= to <= pages.len(),
            r.len() == i - from,
            forall|j: int|
                0 <= j < r.len() ==> #[trigger] r@[j]@ == with_markers(
                    pages@[from + j].index as nat,
                    pages@[from + j].content@,
                ),
        decreases to - i,
    {
        r.push(marked_chars(pages[i].index, pages[i].content.as_str()));
        i = i + 1;
    }
    assert(r@.map_values(|p: Vec<char>| p@) =~= marked_contents_of(
        pages@.subrange(from as int, to as int),
    ));
    r
}

/// The separator `"\n\n"`.
pub fn blank_line() -> (r: Vec<char>)
    ensures
        r@ == "\n\n"@,
{
    let mut r = Vec::new();
    extend_str(&mut r, "\n\n");
    r
}

/// The separator `"\n"`.
pub fn newline() -> (r: Vec<char>)
    ensures
        r@ == "\n"@,
{
    let mut r = Vec::new();
    extend_str(&mut r, "\n");
    r
}

/// A parsed paged document.
pub struct PdfDocument {
    /// All pages, in order.
    pub pages: Vec<Page>,
    /// Number of pages.
    pub page_count: usize,
    /// Sum of the pages' token counts.
    pub total_tokens: usize,
}

impl PdfDocument {
    /// A document of the given pages, with its page count and token total.
    pub fn new(pages: Vec<Page>) -> (r: PdfDocument)
        requires
            total_tokens_of(pages@) <= usize::MAX,
        ensures
            r.pages@ == pages@,
            r.page_count == pages@.len(),
            r.total_tokens == total_tokens_of(pages@),
    {
        let mut total: usize = 0;
        let mut i: usize = 0;
        while i < pages.len()
            invariant
                i <= pages.len(),
                total == total_tokens_of(pages@.take(i as int)),
                total_tokens_of(pages@) <= usize::MAX,
            decreases pages.len() - i,
        {
            assert(pages@.take(i + 1).drop_last() =~= pages@.take(i as int));
            proof {
                lemma_total_tokens_prefix(pages@, i + 1);
            }
            total = total + pages[i].tokens;
            i = i + 1;
        }
        assert(pages@.take(pages.len() as int) =~= pages@);
        let page_count = pages.len();
        PdfDocument { pages, page_count, total_tokens: total }
    }

    /// The whole text with every page wrapped in its markers, pages joined by
    /// newlines.
    pub fn to_marked_text(&self) -> (r: String)
        ensures
            r@ == join(marked_contents_of(self.pages@), "\n"@),
    {
        let parts = marked_page_texts(self.pages.as_slice(), 0, self.pages.len());
        assert(self.pages@.subrange(0, self.pages@.len() as int) =~= self.pages@);
        string_from(&join_chars(&parts, &newline()))
    }

    /// Text of pages `start..=end` joined by blank lines, or `None` when the
    /// range is not within `1..=page_count`.
    pub fn get_page_range(&self, start: usize, end: usize) -> (r: Option<String>)
        requires
            1 <= start <= end <= self.page_count ==> end <= self.pages.len(),
        ensures
            r is Some <==> (1 <= start && start <= end && end <= self.page_count),
            r matches Some(s) ==> s@ == join(
                contents_of(self.pages@.subrange(start - 1, end as int)),
                "\n\n"@,
            ),
    {
        if start < 1 || end > self.page_count || start > end {
            return None;
        }
        let parts = page_texts(self.pages.as_slice(), start - 1, end);
        Some(string_from(&join_chars(&parts, &blank_line())))
    }

    /// Marked text of pages `start..=end` joined by newlines, or `None` when
    /// the range is not within `1..=page_count`.
    pub fn get_page_range_with_boundaries(&self, start: usize, end: usize) -> (r: Option<String>)
        requires
            1 <= start <= end <= self.page_count ==> end <= self.pages.len(),
        ensures
            r is Some <==> (1 <= start && start <= end && end <= self.page_count),
            r matches Some(s) ==> s@ == join(
                marked_contents_of(self.pages@.subrange(start - 1, end as int)),
                "\n"@,
            ),
    {
        if start < 1 || end > self.page_count || start > end {
            return None;
        }
        let parts = marked_page_texts(self.pages.as_slice(), start - 1, end);
        Some(string_from(&join_chars(&parts, &newline())))
    }

    /// Page `index` (1-based), or `None` when it is not within
    /// `1..=page_count` or not held.
    pub fn get_page(&self, index: usize) -> (r: Option<&Page>)
        ensures
            r is Some <==> (1 <= index && index <= self.page_count && index <= self.pages.len()),
            r matches Some(p) ==> *p == self.pages@[index - 1],
    {
        if index < 1 || index > self.page_count {
            return None;
        }
        if index - 1 < self.pages.len() {
            Some(&self.pages[index - 1])
        } else {
            None
        }
    }
}

/// Running totals never exceed the full total.
pub proof fn lemma_total_tokens_prefix(pages: Seq<Page>, k: int)
    requires
        0 <= k <= pages.len(),
    ensures
        total_tokens_of(pages.take(k)) <= total_tokens_of(pages),
    decreases pages.len(),
{
    if k < pages.len() {
        assert(pages.drop_last().take(k) =~= pages.take(k));
        lemma_total_tokens_prefix(pages.drop_last(), k);
    } else {
        assert(pages.take(k) =~= pages);
    }
}

/// Each text wrapped in the markers of its position (1-based), joined by
/// newlines.
pub open spec fn marked_texts(texts: Seq<Seq<char>>) -> Seq<char> {
    join(Seq::new(texts.len(), |i: int| with_markers((i + 1) as nat, texts[i])), "\n"@)
}

/// Wraps each page text in `<physical_index_N>` markers, N counting from 1,
/// and joins them with newlines.
pub fn mark_page_boundaries(pages: &Vec<String>) -> (r: String)
    requires
        pages.len() < usize::MAX,
    ensures
        r@ == marked_texts(pages@.map_values(|s: String| s@)),
{
    let ghost texts = pages@.map_values(|s: String| s@);
    let ghost target = Seq::new(texts.len(), |i: int| with_markers((i + 1) as nat, texts[i]));
    let mut parts: Vec<Vec<char>> = Vec::new();
    let mut i: usize = 0;
    while i < pages.len()
        invariant
            i <= pages.len() < usize::MAX,
            texts == pages@.map_values(|s: String| s@),
            target == Seq::new(texts.len(), |i: int| with_markers((i + 1) as nat, texts[i])),
            parts.len() == i,
            forall|j: int| 0 <= j < parts.len() ==> #[trigger] parts@[j]@ == target[j],
        decreases pages.len() - i,
    {
        parts.push(marked_chars(i + 1, pages[i].as_str()));
        i = i + 1;
    }
    assert(parts@.map_values(|p: Vec<char>| p@) =~= target);
    string_from(&join_chars(&parts, &newline()))
}


// ------------------------------------------------------------------
// Cutting text after a number of bytes
// ------------------------------------------------------------------

/// `str::get(..n)`: the prefix of `text` that is `n` bytes long, `None`
/// when `n` is past the end or inside a character (as std documents).
#[verifier::external_body]
fn byte_prefix(text: &str, n: usize) -> (r: Option<&str>)
    ensures
        r matches Some(p) ==> p@.len() <= text@.len() && p@ == text@.take(p@.len() as int)
            && byte_len(p@) == n,
        r is None ==> forall|k: int| 0 <= k <= text@.len() ==> byte_len(#[trigger] text@.take(k)) != n,
{
    text.get(..n)
}

/// Whether the text can be cut after `n` bytes: it is no longer than that,
/// or some prefix is exactly `n` bytes long.
pub open spec fn cuttable(s: Seq<char>, n: nat) -> bool {
    byte_len(s) <= n || exists|k: int| 0 <= k <= s.len() && byte_len(#[trigger] s.take(k)) == n
}

/// Whether `h` is the text cut after `n` bytes: the whole text when it is no
/// longer, else its prefix of exactly `n` bytes.
pub open spec fn is_head(s: Seq<char>, n: nat, h: Seq<char>) -> bool {
    if byte_len(s) > n {
        h.len() <= s.len() && h == s.take(h.len() as int) && byte_len(h) == n
    } else {
        h == s
    }
}

/// Whether the text can be cut after `n` bytes (see [`cuttable`]).
pub fn can_cut(text: &str, n: usize) -> (r: bool)
    ensures
        r == cuttable(text@, n as nat),
{
    if text.len() <= n {
        return true;
    }
    match byte_prefix(text, n) {
        Some(p) => {
            assert(byte_len(text@.take(p@.len() as int)) == n);
            true
        },
        None => false,
    }
}

/// The text cut after `n` bytes (see [`is_head`]).
pub(crate) fn head(text: &str, n: usize) -> (r: &str)
    requires
        cuttable(text@, n as nat),
    ensures
        is_head(text@, n as nat, r@),
{
    if text.len() > n {
        match byte_prefix(text, n) {
            Some(p) => p,
            None => {
                proof {
                    let k = choose|k: int| 0 <= k <= text@.len() && byte_len(#[trigger] text@.take(k)) == n;
                    assert(byte_len(text@.take(k)) != n);
                }
                text
            },
        }
    } else {
        text
    }
}

// ------------------------------------------------------------------
// Text extraction
// ------------------------------------------------------------------

/// The error type of the `pdf_extract` crate.
#[verifier::external_type_specification]
#[verifier::external_body]
pub struct ExOutputError(pdf_extract::OutputError);

/// What `pdf_extract::extract_text_from_mem` does with the bytes of a PDF:
/// `Some(Some(t))` where it returns the text `t`, `Some(None)` where it
/// returns an error, and `None` where it does not return at all (its parser
/// panics on some malformed input, for instance on an unknown font encoding
/// or a failed object lookup).
pub uninterp spec fn pdf_extraction(data: Seq<u8>) -> Option<Option<Seq<char>>>;

/// The text extracted from the bytes of a PDF, when there is one.
pub open spec fn pdf_text(data: Seq<u8>) -> Option<Seq<char>> {
    match pdf_extraction(data) {
        Some(Some(t)) => Some(t),
        _ => None,
    }
}

/// Whether text extraction returns on the bytes, with text or an error.
pub open spec fn pdf_extraction_returns(data: Seq<u8>) -> bool {
    pdf_extraction(data) is Some
}

/// `pdf_extract::extract_text_from_mem`: the text of a PDF given as bytes,
/// pages separated by form feeds. What it does is named [`pdf_extraction`],
/// a function of the bytes alone. The crate panics on some malformed input,
/// so the call is made only on bytes where [`pdf_extraction_returns`] holds;
/// it then returns the text, or an error where there is no text.
#[verifier::external_body]
fn extract_text(data: &[u8]) -> (r: Result<String, pdf_extract::OutputError>)
    requires
        pdf_extraction_returns(data@),
    ensures
        match pdf_extraction(data@) {
            Some(Some(t)) => r matches Ok(s) && s@ == t,
            _ => r is Err,
        },
{
    pdf_extract::extract_text_from_mem(data)
}

/// The message of a `pdf_extract::OutputError` (its `Display`); nothing is
/// promised of it.
#[verifier::external_body]
fn output_error_text(e: &pdf_extract::OutputError) -> String {
    e.to_string()
}

/// Errors of PDF parsing.
pub enum PdfError {
    /// No file at the path.
    FileNotFound(String),
    /// The path is not valid UTF-8.
    InvalidPath,
    /// The file could not be read.
    IoError(String),
    /// The PDF text could not be extracted.
    ExtractionFailed(String),
    /// The PDF holds no text.
    NoContent,
    /// A page specification was refused.
    InvalidPageSpec(String),
}

/// The message of a PDF error.
pub open spec fn pdf_error_message(e: PdfError) -> Seq<char> {
    match e {
        PdfError::FileNotFound(m) => "File not found: "@ + m@,
        PdfError::InvalidPath => "Invalid path"@,
        PdfError::IoError(m) => "I/O error: "@ + m@,
        PdfError::ExtractionFailed(m) => "Text extraction failed: "@ + m@,
        PdfError::NoContent => "No content found in PDF"@,
        PdfError::InvalidPageSpec(m) => "Invalid page specification: "@ + m@,
    }
}

impl PdfError {
    /// The error message.
    pub fn message(&self) -> (r: String)
        ensures
            r@ == pdf_error_message(*self),
    {
        let mut m: Vec<char> = Vec::new();
        match self {
            PdfError::FileNotFound(x) => {
                extend_str(&mut m, "File not found: ");
                extend_str(&mut m, x.as_str());
            },
            PdfError::InvalidPath => extend_str(&mut m, "Invalid path"),
            PdfError::IoError(x) => {
                extend_str(&mut m, "I/O error: ");
                extend_str(&mut m, x.as_str());
            },
            PdfError::ExtractionFailed(x) => {
                extend_str(&mut m, "Text extraction failed: ");
                extend_str(&mut m, x.as_str());
            },
            PdfError::NoContent => extend_str(&mut m, "No content found in PDF"),
            PdfError::InvalidPageSpec(x) => {
                extend_str(&mut m, "Invalid page specification: ");
                extend_str(&mut m, x.as_str());
            },
        }
        assert(m@ =~= pdf_error_message(*self));
        string_from(&m)
    }
}

/// The non-empty pieces of `s`, in order.
pub open spec fn non_empty(s: Seq<Seq<char>>) -> Seq<Seq<char>>
    decreases s.len(),
{
    if s.len() == 0 {
        s
    } else if s.last().len() == 0 {
        non_empty(s.drop_last())
    } else {
        non_empty(s.drop_last()).push(s.last())
    }
}

/// The pages of an extracted text: the pieces between form feeds, trimmed,
/// the empty ones left out.
pub open spec fn form_feed_pages(text: Seq<char>) -> Seq<Seq<char>> {
    non_empty(split(text, '\x0c').map_values(|p: Seq<char>| trim(p)))
}

/// The pages of an extracted text (see [`form_feed_pages`]); `NoContent`
/// when there are none.
pub fn pages_from_text(text: &str) -> (r: Result<Vec<String>, PdfError>)
    ensures
        form_feed_pages(text@).len() == 0 ==> r matches Err(PdfError::NoContent),
        form_feed_pages(text@).len() > 0 ==> (r matches Ok(v)
            && v@.map_values(|s: String| s@) == form_feed_pages(text@)),
{
    let cs = str_chars(text);
    let parts = split_trimmed(&cs, '\x0c');
    let ghost views = split(text@, '\x0c').map_values(|p: Seq<char>| trim(p));
    let mut out: Vec<String> = Vec::new();
    let mut i: usize = 0;
    assert(views.take(0) =~= Seq::<Seq<char>>::empty());
    while i < parts.len()
        invariant
            i <= parts.len() == views.len(),
            views == split(text@, '\x0c').map_values(|p: Seq<char>| trim(p)),
            forall|j: int| 0 <= j < parts@.len() ==> #[trigger] parts@[j]@ == views[j],
            out@.map_values(|s: String| s@) == non_empty(views.take(i as int)),
        decreases parts.len() - i,
    {
        assert(views.take(i + 1).drop_last() =~= views.take(i as int));
        assert(views.take(i + 1).last() == parts@[i as int]@);
        if parts[i].len() > 0 {
            let ghost before = out@;
            out.push(string_from(&parts[i]));
            assert(out@.map_values(|s: String| s@) =~= before.map_values(|s: String| s@).push(parts@[i as int]@));
        }
        i = i + 1;
    }
    assert(views.take(parts.len() as int) =~= views);
    if out.len() == 0 {
        Err(PdfError::NoContent)
    } else {
        Ok(out)
    }
}

/// The token estimates of `texts` under `strategy`, summed.
pub open spec fn texts_tokens(texts: Seq<Seq<char>>, strategy: TokenStrategy) -> nat
    decreases texts.len(),
{
    if texts.len() == 0 {
        0
    } else {
        texts_tokens(texts.drop_last(), strategy) + strategy_tokens(strategy, texts.last())
    }
}

/// The page texts of a PDF given as bytes, where its text could be
/// extracted.
pub open spec fn pdf_pages(data: Seq<u8>) -> Seq<Seq<char>> {
    form_feed_pages(pdf_text(data)->0)
}

/// Whether `p` is page `i` (0-based position) of a document made of
/// `texts` under `strategy`: numbered from 1, with its text and estimate.
pub open spec fn is_text_page(p: Page, i: int, texts: Seq<Seq<char>>, strategy: TokenStrategy) -> bool {
    &&& p.index == i + 1
    &&& p.content@ == texts[i]
    &&& p.tokens == strategy_tokens(strategy, texts[i])
}

/// Default PDF text extractor.
pub struct PdfExtractor {
    /// Token counting strategy.
    pub token_strategy: TokenStrategy,
    /// Whether to preserve the layout.
    pub preserve_layout: bool,
}

impl Default for PdfExtractor {
    fn default() -> (r: PdfExtractor)
        ensures
            r.token_strategy == TokenStrategy::Simple,
            !r.preserve_layout,
    {
        PdfExtractor { token_strategy: TokenStrategy::Simple, preserve_layout: false }
    }
}

impl PdfExtractor {
    /// An extractor with the default settings.
    pub fn new() -> (r: PdfExtractor)
        ensures
            r.token_strategy == TokenStrategy::Simple,
            !r.preserve_layout,
    {
        PdfExtractor::default()
    }

    /// An extractor with the given token strategy.
    pub fn with_strategy(strategy: TokenStrategy) -> (r: PdfExtractor)
        ensures
            r.token_strategy == strategy,
            !r.preserve_layout,
    {
        PdfExtractor { token_strategy: strategy, preserve_layout: false }
    }

    /// The page texts of a PDF given as bytes: its extracted text (see
    /// [`pdf_text`]) cut at form feeds, as [`pages_from_text`] does. The
    /// bytes must be ones on which the extraction returns
    /// ([`pdf_extraction_returns`]): on the others the extraction crate
    /// panics.
    pub fn extract_from_data(&self, data: &[u8]) -> (r: Result<Vec<String>, PdfError>)
        requires
            pdf_extraction_returns(data@),
        ensures
            pdf_extraction(data@) matches Some(None) ==> r matches Err(PdfError::ExtractionFailed(_)),
            pdf_text(data@) is Some && pdf_pages(data@).len() == 0 ==> r matches Err(PdfError::NoContent),
            pdf_text(data@) is Some && pdf_pages(data@).len() > 0 ==> (r matches Ok(v)
                && v@.map_values(|s: String| s@) == pdf_pages(data@)),
    {
        match extract_text(data) {
            Ok(text) => pages_from_text(text.as_str()),
            Err(e) => Err(PdfError::ExtractionFailed(output_error_text(&e))),
        }
    }

    /// A document of the page texts under `strategy`: page `i` numbered
    /// `i + 1`; `None` when the token total exceeds `usize::MAX`.
    pub fn document_from_texts(texts: Vec<String>, strategy: TokenStrategy) -> (r: Option<PdfDocument>)
        ensures
            texts_tokens(texts@.map_values(|s: String| s@), strategy) > usize::MAX ==> r is None,
            texts_tokens(texts@.map_values(|s: String| s@), strategy) <= usize::MAX ==> (r matches Some(d)
                && d.pages@.len() == texts@.len()
                && d.page_count == texts@.len()
                && d.total_tokens == texts_tokens(texts@.map_values(|s: String| s@), strategy)
                && forall|i: int| 0 <= i < texts@.len() ==> is_text_page(#[trigger] d.pages@[i], i, texts@.map_values(|s: String| s@), strategy)),
    {
        let ghost views = texts@.map_values(|s: String| s@);
        let mut pages: Vec<Page> = Vec::new();
        let mut total: usize = 0;
        let mut i: usize = 0;
        while i < texts.len()
            invariant
                i <= texts.len(),
                views == texts@.map_values(|s: String| s@),
                pages@.len() == i,
                forall|j: int| 0 <= j < i ==> is_text_page(#[trigger] pages@[j], j, views, strategy),
                total == texts_tokens(views.take(i as int), strategy),
                total == total_tokens_of(pages@),
            decreases texts.len() - i,
        {
            assert(views.take(i + 1).drop_last() =~= views.take(i as int));
            let content = string_from(&str_chars(texts[i].as_str()));
            let tokens = strategy.count(content.as_str());
            let ghost before = pages@;
            if total > usize::MAX - tokens {
                proof {
                    lemma_texts_tokens_prefix(views, strategy, i + 1);
                }
                return None;
            }
            total = total + tokens;
            pages.push(Page { index: i + 1, content, tokens });
            assert(pages@.drop_last() =~= before);
            i = i + 1;
        }
        assert(views.take(texts.len() as int) =~= views);
        let page_count = pages.len();
        Some(PdfDocument { pages, page_count, total_tokens: total })
    }

    /// The document of a PDF given as bytes, under `strategy`: the pages of
    /// [`PdfExtractor::extract_from_data`] made into a document by
    /// [`PdfExtractor::document_from_texts`]. The `None` of the latter
    /// cannot arise from text that fits in memory; it is reported as
    /// `NoContent`. The bytes must be ones on which the extraction returns,
    /// as for [`PdfExtractor::extract_from_data`].
    pub fn parse_data_with_strategy(&self, data: &[u8], strategy: TokenStrategy) -> (r: Result<PdfDocument, PdfError>)
        requires
            pdf_extraction_returns(data@),
        ensures
            pdf_extraction(data@) matches Some(None) ==> r matches Err(PdfError::ExtractionFailed(_)),
            pdf_text(data@) is Some && pdf_pages(data@).len() == 0 ==> r matches Err(PdfError::NoContent),
            pdf_text(data@) is Some && pdf_pages(data@).len() > 0
                && texts_tokens(pdf_pages(data@), strategy) <= usize::MAX ==> (r matches Ok(d)
                && d.page_count == pdf_pages(data@).len()
                && d.total_tokens == texts_tokens(pdf_pages(data@), strategy)
                && forall|i: int| 0 <= i < d.pages@.len() ==> is_text_page(#[trigger] d.pages@[i], i, pdf_pages(data@), strategy)),
    {
        match self.extract_from_data(data) {
            Err(e) => Err(e),
            Ok(texts) => match PdfExtractor::document_from_texts(texts, strategy) {
                Some(d) => Ok(d),
                None => Err(PdfError::NoContent),
            },
        }
    }
}

/// A prefix's token total is at most the whole's.
pub proof fn lemma_texts_tokens_prefix(texts: Seq<Seq<char>>, strategy: TokenStrategy, k: int)
    requires
        0 <= k <= texts.len(),
    ensures
        texts_tokens(texts.take(k), strategy) <= texts_tokens(texts, strategy),
    decreases texts.len() - k,
{
    if k < texts.len() {
        lemma_texts_tokens_prefix(texts, strategy, k + 1);
        assert(texts.take(k + 1).drop_last() =~= texts.take(k));
    } else {
        assert(texts.take(k) =~= texts);
    }
}

/// Parses a page specification such as `"3,5-7,10"` into sorted, distinct
/// page numbers; a part that is not a number or a range, or a range whose
/// start exceeds its end, is refused with its message.
pub fn parse_page_spec(spec: &str) -> (r: Result<Vec<usize>, PdfError>)
    ensures
        match spec_pages(spec@, false) {
            Ok(s) => r matches Ok(v) && strictly_increasing(v@) && v@.to_set() == s,
            Err((part, e)) => r matches Err(PdfError::InvalidPageSpec(m)) && m@ == error_message(part, e, true),
        },
{
    match parse_pages(spec, false, true) {
        Ok(v) => Ok(v),
        Err(m) => Err(PdfError::InvalidPageSpec(string_from(&m))),
    }
}

} // verus!
