//! Document-level queries: metadata, the tree structure without text, and
//! the content of given pages (PDF) or header lines (Markdown).
//!
//! The queries return values; turning them into JSON is the caller's part.

use vstd::prelude::*;
use crate::node::{PageNode, forest_preorder, preorder};
use crate::pagespec::{
    PartError, error_message, kept_parts, lemma_non_empty_members, lemma_skip_empty_parts,
    parse_pages, spec_pages, strictly_increasing,
};
use crate::pdf::non_empty;
use crate::text::{
    chars_eq, clone_opt, extend_chars, extend_str, join, lemma_split_join, lemma_split_pieces_lack_sep,
    lemma_trim_idempotent, lemma_trim_shape, opt_view, split, str_chars, string_from, trim,
};

verus! {

/// Kind of document.
#[derive(Clone, Copy, Debug, PartialEq, Eq, Structural)]
pub enum DocumentType {
    /// A PDF document, addressed by physical page numbers.
    Pdf,
    /// A Markdown document, addressed by header line numbers.
    Markdown,
}

/// Cached text of one page of a PDF document.
pub struct CachedPage {
    /// Page number, 1-based.
    pub page: usize,
    /// Page text.
    pub content: String,
}

/// A document with its metadata and, once loaded, its tree and pages.
pub struct Document {
    /// Unique document identifier.
    pub id: String,
    /// Document type.
    pub doc_type: DocumentType,
    /// Document name.
    pub doc_name: String,
    /// Document description.
    pub doc_description: String,
    /// Path of the document file.
    pub file_path: String,
    /// Page count (PDF).
    pub page_count: Option<usize>,
    /// Line count (Markdown).
    pub line_count: Option<usize>,
    /// Document tree, when loaded.
    pub root: Option<PageNode>,
    /// Cached page texts (PDF), when loaded.
    pub pages: Option<Vec<CachedPage>>,
}

/// Lightweight document summary (metadata only).
pub struct DocumentSummary {
    /// Document ID.
    pub id: String,
    /// Document type.
    pub doc_type: DocumentType,
    /// Document name.
    pub doc_name: String,
    /// Document description.
    pub doc_description: String,
    /// Page count (PDF).
    pub page_count: Option<usize>,
    /// Line count (Markdown).
    pub line_count: Option<usize>,
    /// File path.
    pub file_path: String,
}

/// A tree node without its text.
pub struct StructureNodeDto {
    /// Node title.
    pub title: String,
    /// Node ID, if any.
    pub node_id: Option<String>,
    /// Summary, if not empty.
    pub summary: Option<String>,
    /// Depth in the tree.
    pub depth: usize,
    /// First page or line.
    pub start_index: Option<usize>,
    /// Last page.
    pub end_index: Option<usize>,
    /// Child nodes.
    pub nodes: Vec<StructureNodeDto>,
}

/// Document metadata reply.
pub struct DocumentMetadata {
    /// Document ID.
    pub doc_id: String,
    /// Document name.
    pub doc_name: String,
    /// Document description.
    pub doc_description: String,
    /// Document type: `"pdf"` or `"markdown"`.
    pub doc_type: String,
    /// Processing status: `"completed"`.
    pub status: String,
    /// Page count (PDF).
    pub page_count: Option<usize>,
    /// Line count (Markdown).
    pub line_count: Option<usize>,
}

/// Error reply.
pub struct ErrorResponse {
    /// Error message.
    pub error: String,
}

/// Errors of the document queries.
pub enum DocumentError {
    /// Document not found.
    DocumentNotFound(String),
    /// Invalid page range; the message says which part and why.
    InvalidPageRange(String),
    /// Page content not available for this document type.
    ContentNotAvailable,
    /// I/O error, with its message.
    Io(String),
    /// JSON error, with its message.
    Json(String),
}

// ------------------------------------------------------------------
// Page ranges
// ------------------------------------------------------------------

/// Parses a page range such as `"5-7,3,8,12"` into sorted, distinct page
/// numbers. Parts are trimmed and empty parts are passed over; the first
/// part that is not a number or an increasing range `a-b` is refused. How
/// this relates to `parse_page_spec` is [`lemma_page_range_is_page_spec`].
pub fn parse_page_range(spec: &str) -> (r: Result<Vec<usize>, DocumentError>)
    ensures
        match spec_pages(spec@, true) {
            Ok(s) => r matches Ok(v) && strictly_increasing(v@) && v@.to_set() == s,
            Err((part, e)) => r matches Err(DocumentError::InvalidPageRange(m)) && m@
                == error_message(part, e, false),
        },
{
    match parse_pages(spec, true, false) {
        Ok(v) => Ok(v),
        Err(m) => Err(DocumentError::InvalidPageRange(string_from(&m))),
    }
}

/// [`parse_page_range`] is [`crate::pdf::parse_page_spec`] on the non-empty
/// trimmed parts joined by commas: reading a page range (empty parts passed
/// over) gives the pages, or the refused part with its reason, that reading
/// those joined parts as a page specification gives; with no such part the
/// range holds no page. So `"3,,5"` is a range of pages 3 and 5 and is read
/// as the specification `"3,5"`.
pub proof fn lemma_page_range_is_page_spec(spec: Seq<char>)
    ensures
        kept_parts(spec).len() == 0 ==> spec_pages(spec, true) == Ok::<
            Set<usize>,
            (Seq<char>, PartError),
        >(Set::empty()),
        kept_parts(spec).len() > 0 ==> spec_pages(spec, true) == spec_pages(
            join(kept_parts(spec), seq![',']),
            false,
        ),
{
    let pieces = split(spec, ',');
    let v = pieces.map_values(|p: Seq<char>| trim(p));
    let w = non_empty(v);
    lemma_skip_empty_parts(v);
    if w.len() > 0 {
        lemma_split_pieces_lack_sep(spec, ',');
        lemma_non_empty_members(v);
        assert forall|k: int| 0 <= k < w.len() implies trim(#[trigger] w[k]) == w[k] && (forall|j: int|
            0 <= j < w[k].len() ==> w[k][j] != ',') by {
            assert(w[k].len() > 0 && v.contains(w[k]));
            let i = choose|i: int| 0 <= i < v.len() && v[i] == w[k];
            assert(v[i] == trim(pieces[i]));
            lemma_trim_idempotent(pieces[i]);
            lemma_trim_shape(pieces[i]);
            assert forall|j: int| 0 <= j < w[k].len() implies w[k][j] != ',' by {
                assert(trim(pieces[i]).contains(w[k][j]));
                assert(pieces[i].contains(w[k][j]));
                let m = choose|m: int| 0 <= m < pieces[i].len() && pieces[i][m] == w[k][j];
                assert(pieces[i][m] != ',');
            }
        }
        assert forall|k: int, j: int| 0 <= k < w.len() && 0 <= j < w[k].len() implies #[trigger] w[k][j]
            != ',' by {
            assert(trim(w[k]) == w[k]);
        }
        lemma_split_join(w, ',');
        assert(split(join(w, seq![',']), ',').map_values(|p: Seq<char>| trim(p)) =~= w);
    }
}

// ------------------------------------------------------------------
// Structure without text
// ------------------------------------------------------------------

/// Whether `dto` is the text-free copy of the tree rooted at `node`.
pub open spec fn is_structure_of(dto: StructureNodeDto, node: PageNode) -> bool
    decreases node,
{
    &&& dto.title@ == node.title@
    &&& opt_view(dto.node_id) == opt_view(node.node_id)
    &&& opt_view(dto.summary) == (if node.summary@.len() == 0 {
        None
    } else {
        Some(node.summary@)
    })
    &&& dto.depth == node.depth
    &&& dto.start_index == node.start_page
    &&& dto.end_index == node.end_page
    &&& dto.nodes@.len() == node.children@.len()
    &&& forall|i: int|
        0 <= i < node.children@.len() ==> is_structure_of(
            #[trigger] dto.nodes@[i],
            node.children@[i],
        )
}

/// The tree rooted at `node`, with titles, identifiers, non-empty
/// summaries, depths and page bounds, but no text.
pub fn to_structure_dto(node: &PageNode) -> (r: StructureNodeDto)
    ensures
        is_structure_of(r, *node),
    decreases node,
{
    let mut nodes: Vec<StructureNodeDto> = Vec::new();
    let mut i: usize = 0;
    while i < node.children.len()
        invariant
            i <= node.children.len(),
            nodes.len() == i,
            forall|j: int| 0 <= j < i ==> is_structure_of(#[trigger] nodes@[j], node.children@[j]),
        decreases node.children.len() - i,
    {
        assert(decreases_to!(*node => node.children@[i as int]));
        nodes.push(to_structure_dto(&node.children[i]));
        i = i + 1;
    }
    StructureNodeDto {
        title: node.title.clone(),
        node_id: clone_opt(&node.node_id),
        summary: if node.summary.as_str().is_empty() {
            None
        } else {
            Some(node.summary.clone())
        },
        depth: node.depth,
        start_index: node.start_page,
        end_index: node.end_page,
        nodes,
    }
}

// ------------------------------------------------------------------
// Lookups
// ------------------------------------------------------------------

/// Index of the first document with the given id.
pub open spec fn find_doc(docs: Seq<Document>, id: Seq<char>) -> Option<int>
    decreases docs.len(),
{
    if docs.len() == 0 {
        None
    } else if docs[0].id@ == id {
        Some(0)
    } else {
        match find_doc(docs.drop_first(), id) {
            Some(i) => Some(i + 1),
            None => None,
        }
    }
}

/// A found index is in bounds and holds the id.
pub proof fn lemma_find_doc(docs: Seq<Document>, id: Seq<char>)
    ensures
        find_doc(docs, id) matches Some(i) ==> 0 <= i < docs.len() && docs[i].id@ == id,
    decreases docs.len(),
{
    if docs.len() > 0 {
        lemma_find_doc(docs.drop_first(), id);
    }
}

/// No document has the id when none is found.
pub proof fn lemma_find_doc_none(docs: Seq<Document>, id: Seq<char>)
    ensures
        find_doc(docs, id) is None ==> forall|i: int| 0 <= i < docs.len() ==> (#[trigger] docs[i]).id@ != id,
    decreases docs.len(),
{
    if docs.len() > 0 {
        lemma_find_doc_none(docs.drop_first(), id);
        assert forall|i: int| 0 < i < docs.len() implies docs[i] == docs.drop_first()[i - 1] by {}
    }
}

/// A document added to a list (replacing the one with its id, or appended
/// when there is none) is what a later lookup of its id finds, provided no
/// id occurred twice before.
pub proof fn lemma_insert_then_found(before: Seq<Document>, after: Seq<Document>, doc: Document)
    requires
        forall|a: int, b: int| 0 <= a < b < before.len() ==> before[a].id@ != before[b].id@,
        match find_doc(before, doc.id@) {
            Some(i) => after == before.update(i, doc),
            None => after == before.push(doc),
        },
    ensures
        find_doc(after, doc.id@) matches Some(j) && after[j] == doc,
{
    lemma_find_doc(before, doc.id@);
    lemma_find_doc_none(before, doc.id@);
    match find_doc(before, doc.id@) {
        Some(i) => {
            assert forall|k: int| 0 <= k < i implies (#[trigger] after[k]).id@ != doc.id@ by {
                assert(after[k] == before[k]);
            }
            lemma_find_doc_first(after, doc.id@, i);
        },
        None => {
            assert forall|k: int| 0 <= k < before.len() implies (#[trigger] after[k]).id@ != doc.id@ by {
                assert(after[k] == before[k]);
            }
            lemma_find_doc_first(after, doc.id@, before.len() as int);
        },
    }
}

/// The first document with the id is the one found.
pub proof fn lemma_find_doc_first(docs: Seq<Document>, id: Seq<char>, i: int)
    requires
        0 <= i < docs.len(),
        docs[i].id@ == id,
        forall|k: int| 0 <= k < i ==> (#[trigger] docs[k]).id@ != id,
    ensures
        find_doc(docs, id) == Some(i),
    decreases i,
{
    if i > 0 {
        assert forall|k: int| 0 <= k < i - 1 implies (#[trigger] docs.drop_first()[k]).id@ != id by {
            assert(docs.drop_first()[k] == docs[k + 1]);
        }
        lemma_find_doc_first(docs.drop_first(), id, i - 1);
    }
}

/// Finds the first document with the given id.
pub fn lookup(documents: &Vec<Document>, doc_id: &str) -> (r: Option<usize>)
    ensures
        r is None <==> find_doc(documents@, doc_id@) is None,
        r matches Some(i) ==> find_doc(documents@, doc_id@) == Some(i as int) && i
            < documents@.len() && documents@[i as int].id@ == doc_id@,
{
    proof {
        lemma_find_doc(documents@, doc_id@);
    }
    let want = str_chars(doc_id);
    let mut i: usize = 0;
    assert(documents@.skip(0) =~= documents@);
    while i < documents.len()
        invariant
            i <= documents.len(),
            want@ == doc_id@,
            find_doc(documents@, doc_id@) == (match find_doc(documents@.skip(i as int), doc_id@) {
                Some(k) => Some(k + i),
                None => None,
            }),
        decreases documents.len() - i,
    {
        let ghost rest = documents@.skip(i as int);
        assert(rest.drop_first() =~= documents@.skip(i + 1));
        assert(rest[0] == documents@[i as int]);
        let id = str_chars(documents[i].id.as_str());
        if chars_eq(&id, &want) {
            return Some(i);
        }
        i = i + 1;
    }
    None
}

/// `"Document {id} not found"`.
pub open spec fn not_found_message(id: Seq<char>) -> Seq<char> {
    "Document "@ + id + " not found"@
}

/// `"Document {id} has no structure loaded"`.
pub open spec fn no_structure_message(id: Seq<char>) -> Seq<char> {
    "Document "@ + id + " has no structure loaded"@
}

fn document_message(doc_id: &str, tail: &str) -> (r: ErrorResponse)
    ensures
        r.error@ == "Document "@ + doc_id@ + tail@,
{
    let mut m: Vec<char> = Vec::new();
    extend_str(&mut m, "Document ");
    extend_str(&mut m, doc_id);
    extend_str(&mut m, tail);
    ErrorResponse { error: string_from(&m) }
}

/// The name of a document type: `"pdf"` or `"markdown"`.
pub open spec fn kind_name(t: DocumentType) -> Seq<char> {
    match t {
        DocumentType::Pdf => "pdf"@,
        DocumentType::Markdown => "markdown"@,
    }
}

fn type_string(t: DocumentType) -> (r: String)
    ensures
        r@ == kind_name(t),
{
    let mut m: Vec<char> = Vec::new();
    match t {
        DocumentType::Pdf => extend_str(&mut m, "pdf"),
        DocumentType::Markdown => extend_str(&mut m, "markdown"),
    }
    string_from(&m)
}

/// Whether `r` is the metadata reply for `doc_id`: the metadata of the
/// first document with that id, or the not-found error.
pub open spec fn is_metadata_reply(documents: Seq<Document>, doc_id: Seq<char>, r: Result<DocumentMetadata, ErrorResponse>) -> bool {
    match find_doc(documents, doc_id) {
        None => r matches Err(e) && e.error@ == not_found_message(doc_id),
        Some(i) => 0 <= i < documents.len() && (r matches Ok(m) && {
            let d = documents[i];
            &&& m.doc_id@ == doc_id
            &&& m.doc_name@ == d.doc_name@
            &&& m.doc_description@ == d.doc_description@
            &&& m.doc_type@ == kind_name(d.doc_type)
            &&& m.status@ == "completed"@
            &&& m.page_count == d.page_count
            &&& m.line_count == d.line_count
        }),
    }
}

/// Whether `r` is the structure reply for `doc_id`.
pub open spec fn is_structure_reply(documents: Seq<Document>, doc_id: Seq<char>, r: Result<StructureNodeDto, ErrorResponse>) -> bool {
    match find_doc(documents, doc_id) {
        None => r matches Err(e) && e.error@ == not_found_message(doc_id),
        Some(i) => 0 <= i < documents.len() && match documents[i].root {
            None => r matches Err(e) && e.error@ == no_structure_message(doc_id),
            Some(root) => r matches Ok(s) && is_structure_of(s, root),
        },
    }
}

/// Metadata of the document `doc_id`: its id, name, description, type name,
/// status `"completed"` and counts; an error reply when no document has
/// that id.
pub fn get_document(documents: &Vec<Document>, doc_id: &str) -> (r: Result<
    DocumentMetadata,
    ErrorResponse,
>)
    ensures
        is_metadata_reply(documents@, doc_id@, r),
{
    match lookup(documents, doc_id) {
        None => Err(document_message(doc_id, " not found")),
        Some(i) => {
            let d = &documents[i];
            let mut status: Vec<char> = Vec::new();
            extend_str(&mut status, "completed");
            Ok(
                DocumentMetadata {
                    doc_id: string_from(&str_chars(doc_id)),
                    doc_name: d.doc_name.clone(),
                    doc_description: d.doc_description.clone(),
                    doc_type: type_string(d.doc_type),
                    status: string_from(&status),
                    page_count: d.page_count,
                    line_count: d.line_count,
                },
            )
        },
    }
}

/// The text-free structure of document `doc_id`; an error reply when no
/// document has that id or its tree is not loaded.
pub fn get_document_structure(documents: &Vec<Document>, doc_id: &str) -> (r: Result<
    StructureNodeDto,
    ErrorResponse,
>)
    ensures
        is_structure_reply(documents@, doc_id@, r),
{
    match lookup(documents, doc_id) {
        None => Err(document_message(doc_id, " not found")),
        Some(i) => match &documents[i].root {
            None => Err(document_message(doc_id, " has no structure loaded")),
            Some(root) => Ok(to_structure_dto(root)),
        },
    }
}

// ------------------------------------------------------------------
// Page content
// ------------------------------------------------------------------

/// A cached page as a value: page number and text.
pub open spec fn cached_view(c: CachedPage) -> (usize, Seq<char>) {
    (c.page, c.content@)
}

/// The cached pages as values.
pub open spec fn cached_views(s: Seq<CachedPage>) -> Seq<(usize, Seq<char>)> {
    s.map_values(|c: CachedPage| cached_view(c))
}

/// Index of the last cached page with number `page`.
pub open spec fn last_cached(cp: Seq<CachedPage>, page: usize) -> Option<int>
    decreases cp.len(),
{
    if cp.len() == 0 {
        None
    } else if cp.last().page == page {
        Some(cp.len() - 1)
    } else {
        last_cached(cp.drop_last(), page)
    }
}

/// The PDF content of the requested pages: for each requested page, in
/// order, the text of the last cached page with that number, when there is
/// one.
pub open spec fn pdf_content(cp: Seq<CachedPage>, nums: Seq<usize>) -> Seq<(usize, Seq<char>)>
    decreases nums.len(),
{
    if nums.len() == 0 {
        Seq::empty()
    } else {
        pdf_content(cp, nums.drop_last()) + match last_cached(cp, nums.last()) {
            Some(k) => seq![(nums.last(), cp[k].content@)],
            None => Seq::empty(),
        }
    }
}

/// A found cached page is in bounds and has the number.
pub proof fn lemma_last_cached(cp: Seq<CachedPage>, page: usize)
    ensures
        last_cached(cp, page) matches Some(k) ==> 0 <= k < cp.len() && cp[k].page == page,
    decreases cp.len(),
{
    if cp.len() > 0 && cp.last().page != page {
        lemma_last_cached(cp.drop_last(), page);
    }
}

fn pdf_page_content(cached: &Vec<CachedPage>, nums: &Vec<usize>) -> (r: Vec<CachedPage>)
    ensures
        cached_views(r@) == pdf_content(cached@, nums@),
{
    let mut out: Vec<CachedPage> = Vec::new();
    let mut i: usize = 0;
    while i < nums.len()
        invariant
            i <= nums.len(),
            cached_views(out@) == pdf_content(cached@, nums@.take(i as int)),
        decreases nums.len() - i,
    {
        let page = nums[i];
        let mut j = cached.len();
        assert(cached@.take(cached.len() as int) =~= cached@);
        while j > 0 && cached[j - 1].page != page
            invariant
                j <= cached.len(),
                last_cached(cached@, page) == last_cached(cached@.take(j as int), page),
            decreases j,
        {
            assert(cached@.take(j as int).drop_last() =~= cached@.take(j - 1));
            j = j - 1;
        }
        let ghost before = cached_views(out@);
        assert(nums@.take(i + 1).drop_last() =~= nums@.take(i as int));
        assert(nums@.take(i + 1).last() == page);
        if j > 0 {
            assert(cached@.take(j as int).drop_last() =~= cached@.take(j - 1));
            assert(cached@.take(j as int).last() == cached@[j - 1]);
            out.push(CachedPage { page, content: cached[j - 1].content.clone() });
            assert(cached_views(out@) =~= before.push((page, cached@[j - 1].content@)));
        } else {
            assert(cached@.take(0) =~= Seq::<CachedPage>::empty());
        }
        assert(cached_views(out@) =~= pdf_content(cached@, nums@.take(i + 1)));
        i = i + 1;
    }
    assert(nums@.take(nums.len() as int) =~= nums@);
    out
}

/// Whether some value in `acc` has page number `page`.
pub open spec fn has_page(acc: Seq<(usize, Seq<char>)>, page: usize) -> bool {
    exists|k: int| 0 <= k < acc.len() && (#[trigger] acc[k]).0 == page
}

/// The nodes of `pre`, in order, gathered after `acc`: a node whose first
/// line (its start) lies in `min..=max` and is not gathered yet adds its
/// line and text.
pub open spec fn gather_lines(
    acc: Seq<(usize, Seq<char>)>,
    pre: Seq<PageNode>,
    min: usize,
    max: usize,
) -> Seq<(usize, Seq<char>)>
    decreases pre.len(),
{
    if pre.len() == 0 {
        acc
    } else {
        let prev = gather_lines(acc, pre.drop_last(), min, max);
        match pre.last().start_page {
            Some(l) => if min <= l <= max && !has_page(prev, l) {
                prev.push((l, pre.last().content@))
            } else {
                prev
            },
            None => prev,
        }
    }
}

/// Gathering over two sequences is gathering over the first, then the
/// second.
pub proof fn lemma_gather_concat(
    acc: Seq<(usize, Seq<char>)>,
    a: Seq<PageNode>,
    b: Seq<PageNode>,
    min: usize,
    max: usize,
)
    ensures
        gather_lines(acc, a + b, min, max) == gather_lines(gather_lines(acc, a, min, max), b, min, max),
    decreases b.len(),
{
    if b.len() == 0 {
        assert(a + b =~= a);
    } else {
        assert((a + b).drop_last() =~= a + b.drop_last());
        assert((a + b).last() == b.last());
        lemma_gather_concat(acc, a, b.drop_last(), min, max);
    }
}

fn gather_node(node: &PageNode, min: usize, max: usize, out: &mut Vec<CachedPage>)
    ensures
        cached_views(final(out)@) == gather_lines(cached_views(old(out)@), preorder(*node), min, max),
    decreases node,
{
    let ghost start = cached_views(out@);
    if let Some(l) = node.start_page {
        if min <= l && l <= max {
            let mut seen = false;
            let mut k: usize = 0;
            while k < out.len()
                invariant
                    k <= out.len(),
                    seen == exists|m: int| 0 <= m < k && (#[trigger] cached_views(out@)[m]).0 == l,
                decreases out.len() - k,
            {
                assert(cached_views(out@)[k as int].0 == out@[k as int].page);
                if out[k].page == l {
                    seen = true;
                }
                k = k + 1;
            }
            assert(seen == has_page(cached_views(out@), l));
            if !seen {
                let ghost before = cached_views(out@);
                out.push(CachedPage { page: l, content: node.content.clone() });
                assert(cached_views(out@) =~= before.push((l, node.content@)));
            }
        }
    }
    proof {
        assert(seq![*node].drop_last() =~= Seq::<PageNode>::empty());
        assert(seq![*node].last() == *node);
        assert(gather_lines(start, Seq::<PageNode>::empty(), min, max) == start);
        assert(cached_views(out@) == gather_lines(start, seq![*node], min, max));
        assert(node.children@.take(0) =~= Seq::<PageNode>::empty());
        assert(seq![*node] + forest_preorder(node.children@.take(0)) =~= seq![*node]);
    }
    let mut i: usize = 0;
    while i < node.children.len()
        invariant
            i <= node.children.len(),
            cached_views(out@) == gather_lines(
                start,
                seq![*node] + forest_preorder(node.children@.take(i as int)),
                min,
                max,
            ),
        decreases node.children.len() - i,
    {
        let ghost mid = cached_views(out@);
        assert(decreases_to!(*node => node.children@[i as int]));
        gather_node(&node.children[i], min, max, out);
        proof {
            crate::tree_builder::lemma_forest_preorder_take(node.children@, i as int);
            let a = seq![*node] + forest_preorder(node.children@.take(i as int));
            let b = preorder(node.children@[i as int]);
            assert(seq![*node] + forest_preorder(node.children@.take(i + 1)) =~= a + b);
            lemma_gather_concat(start, a, b, min, max);
        }
        i = i + 1;
    }
    assert(node.children@.take(node.children.len() as int) =~= node.children@);
}

/// Whether the page numbers of `s` strictly increase.
pub open spec fn pages_increasing(s: Seq<(usize, Seq<char>)>) -> bool {
    forall|i: int, j: int| 0 <= i < j < s.len() ==> s[i].0 < s[j].0
}

/// Whether `s` holds each page number at most once.
pub open spec fn pages_distinct(s: Seq<(usize, Seq<char>)>) -> bool {
    forall|i: int, j: int| 0 <= i < j < s.len() ==> s[i].0 != s[j].0
}

/// Gathering never repeats a page number.
pub proof fn lemma_gather_distinct(acc: Seq<(usize, Seq<char>)>, pre: Seq<PageNode>, min: usize, max: usize)
    requires
        pages_distinct(acc),
    ensures
        pages_distinct(gather_lines(acc, pre, min, max)),
    decreases pre.len(),
{
    if pre.len() > 0 {
        lemma_gather_distinct(acc, pre.drop_last(), min, max);
        let prev = gather_lines(acc, pre.drop_last(), min, max);
        match pre.last().start_page {
            Some(l) => if min <= l <= max && !has_page(prev, l) {
                let nx = prev.push((l, pre.last().content@));
                assert forall|i: int, j: int| 0 <= i < j < nx.len() implies nx[i].0 != nx[j].0 by {
                    if j == prev.len() {
                        assert(nx[i] == prev[i]);
                    }
                }
            },
            None => {},
        }
    }
}

fn insert_by_page(v: &mut Vec<CachedPage>, c: CachedPage)
    requires
        pages_increasing(cached_views(old(v)@)),
        !has_page(cached_views(old(v)@), c.page),
    ensures
        pages_increasing(cached_views(final(v)@)),
        cached_views(final(v)@).to_set() == cached_views(old(v)@).to_set().insert(cached_view(c)),
        cached_views(final(v)@).len() == cached_views(old(v)@).len() + 1,
{
    let ghost before = cached_views(v@);
    let mut i: usize = 0;
    while i < v.len() && v[i].page < c.page
        invariant
            i <= v.len(),
            before == cached_views(v@),
            forall|j: int| 0 <= j < i ==> #[trigger] before[j].0 < c.page,
        decreases v.len() - i,
    {
        assert(before[i as int].0 == v@[i as int].page);
        i = i + 1;
    }
    let ghost cv = cached_view(c);
    proof {
        if i < v.len() {
            assert(before[i as int].0 == v@[i as int].page);
            assert(before[i as int].0 != c.page);
        }
    }
    v.insert(i, c);
    proof {
        let after = cached_views(v@);
        assert(after =~= before.take(i as int).push(cv) + before.skip(i as int));
        assert forall|a: int, b: int| 0 <= a < b < after.len() implies after[a].0 < after[b].0 by {
            if b < i {
            } else if b == i {
            } else if a < i {
                assert(after[b] == before[b - 1]);
                if b - 1 > i {
                    assert(before[i as int].0 < before[b - 1].0);
                }
            } else if a == i {
                assert(after[b] == before[b - 1]);
                if b - 1 > i {
                    assert(before[i as int].0 < before[b - 1].0);
                }
            } else {
                assert(after[a] == before[a - 1]);
                assert(after[b] == before[b - 1]);
            }
        }
        assert forall|y: (usize, Seq<char>)| after.to_set().contains(y) <==> before.to_set().insert(cv).contains(y) by {
            if after.to_set().contains(y) {
                let k = choose|k: int| 0 <= k < after.len() && after[k] == y;
                if k < i {
                    assert(before[k] == y);
                } else if k > i {
                    assert(before[k - 1] == y);
                }
            }
            if before.to_set().contains(y) && y != cv {
                let k = choose|k: int| 0 <= k < before.len() && before[k] == y;
                if k < i {
                    assert(after[k] == y);
                } else {
                    assert(after[k + 1] == y);
                }
            }
            if y == cv {
                assert(after[i as int] == cv);
            }
        }
        assert(after.to_set() =~= before.to_set().insert(cv));
    }
}

/// The Markdown content of the requested lines: over the tree in
/// pre-order, the first node that starts at each line from the first
/// requested line (1 when none) to the last requested one (the first when
/// none), ordered by line.
pub open spec fn md_content_ok(r: Seq<(usize, Seq<char>)>, root: PageNode, nums: Seq<usize>) -> bool {
    let min: usize = if nums.len() > 0 { nums[0] } else { 1 };
    let max: usize = if nums.len() > 0 { nums.last() } else { min };
    let g = gather_lines(Seq::empty(), preorder(root), min, max);
    &&& pages_increasing(r)
    &&& r.to_set() == g.to_set()
    &&& r.len() == g.len()
}

/// What gathering collects: every entry added to `acc` carries a line in
/// `min..=max` and is the start line and text of the first node of `pre`
/// that starts at that line; and
/// every node of `pre` that starts at a line in `min..=max` has its line
/// among the entries.
pub proof fn lemma_gather_lines(acc: Seq<(usize, Seq<char>)>, pre: Seq<PageNode>, min: usize, max: usize)
    ensures
        acc.len() <= gather_lines(acc, pre, min, max).len(),
        forall|k: int| 0 <= k < acc.len() ==> #[trigger] gather_lines(acc, pre, min, max)[k] == acc[k],
        forall|k: int|
            acc.len() <= k < gather_lines(acc, pre, min, max).len() ==> {
                let g = #[trigger] gather_lines(acc, pre, min, max)[k];
                &&& min <= g.0 <= max
                &&& exists|m: int| 0 <= m < pre.len() && pre[m].start_page == Some(g.0) && pre[m].content@ == g.1
                    && forall|m2: int| 0 <= m2 < m ==> pre[m2].start_page != Some(g.0)
            },
        forall|m: int|
            0 <= m < pre.len() && (#[trigger] pre[m]).start_page is Some && min <= pre[m].start_page->0
                <= max ==> has_page(gather_lines(acc, pre, min, max), pre[m].start_page->0),
    decreases pre.len(),
{
    if pre.len() > 0 {
        let d = pre.drop_last();
        lemma_gather_lines(acc, d, min, max);
        let prev = gather_lines(acc, d, min, max);
        let g = gather_lines(acc, pre, min, max);
        assert forall|k: int| acc.len() <= k < g.len() implies {
            let x = #[trigger] g[k];
            &&& min <= x.0 <= max
            &&& exists|m: int| 0 <= m < pre.len() && pre[m].start_page == Some(x.0) && pre[m].content@ == x.1
                && forall|m2: int| 0 <= m2 < m ==> pre[m2].start_page != Some(x.0)
        } by {
            if k < prev.len() {
                assert(g[k] == prev[k]);
                let m = choose|m: int| 0 <= m < d.len() && d[m].start_page == Some(prev[k].0) && d[m].content@ == prev[k].1
                    && forall|m2: int| 0 <= m2 < m ==> d[m2].start_page != Some(prev[k].0);
                assert(pre[m] == d[m]);
                assert forall|m2: int| 0 <= m2 < m implies pre[m2].start_page != Some(g[k].0) by {
                    assert(pre[m2] == d[m2]);
                }
            } else {
                let l = g[k].0;
                assert(pre[pre.len() - 1] == pre.last());
                assert(!has_page(prev, l));
                assert forall|m2: int| 0 <= m2 < pre.len() - 1 implies pre[m2].start_page != Some(l) by {
                    assert(pre[m2] == d[m2]);
                    if d[m2].start_page == Some(l) {
                        assert((#[trigger] d[m2]).start_page is Some);
                        assert(has_page(prev, l));
                    }
                }
            }
        }
        assert forall|k: int| 0 <= k < acc.len() implies #[trigger] g[k] == acc[k] by {
            assert(g[k] == prev[k]);
        }
        assert forall|m: int|
            0 <= m < pre.len() && (#[trigger] pre[m]).start_page is Some && min <= pre[m].start_page->0
                <= max implies has_page(g, pre[m].start_page->0) by {
            let l = pre[m].start_page->0;
            if m < d.len() {
                assert(pre[m] == d[m]);
                assert(has_page(prev, l));
                let q = choose|q: int| 0 <= q < prev.len() && (#[trigger] prev[q]).0 == l;
                assert(g[q] == prev[q]);
            } else {
                assert(pre[m] == pre.last());
                if has_page(prev, l) {
                    let q = choose|q: int| 0 <= q < prev.len() && (#[trigger] prev[q]).0 == l;
                    assert(g[q] == prev[q]);
                } else {
                    assert(g[prev.len() as int].0 == l);
                }
            }
        }
    }
}

/// The Markdown page-content reply (see [`md_content_ok`], as
/// [`get_page_content`] gives it) for a requested page list with first page
/// `first` and last page `last`: every entry's line lies in
/// `first..=last`, and is the start line and text of the first node of
/// the tree in pre-order that starts at that line; and every node of the tree that starts at a line in `first..=last`
/// has its line in the reply.
pub proof fn lemma_md_content_in_range(r: Seq<(usize, Seq<char>)>, root: PageNode, nums: Seq<usize>)
    requires
        md_content_ok(r, root, nums),
        nums.len() > 0,
    ensures
        forall|k: int| 0 <= k < r.len() ==> nums[0] <= (#[trigger] r[k]).0 <= nums.last(),
        forall|k: int|
            0 <= k < r.len() ==> exists|m: int|
                0 <= m < preorder(root).len() && preorder(root)[m].start_page == Some((#[trigger] r[k]).0)
                    && preorder(root)[m].content@ == r[k].1 && forall|m2: int|
                    0 <= m2 < m ==> preorder(root)[m2].start_page != Some(r[k].0),
        forall|m: int|
            0 <= m < preorder(root).len() && (#[trigger] preorder(root)[m]).start_page is Some
                && nums[0] <= preorder(root)[m].start_page->0 <= nums.last() ==> exists|k: int|
                0 <= k < r.len() && r[k].0 == preorder(root)[m].start_page->0,
{
    let pre = preorder(root);
    let e = Seq::<(usize, Seq<char>)>::empty();
    let g = gather_lines(e, pre, nums[0], nums.last());
    lemma_gather_lines(e, pre, nums[0], nums.last());
    assert forall|k: int| 0 <= k < r.len() implies nums[0] <= (#[trigger] r[k]).0 <= nums.last() && exists|m: int|
        0 <= m < pre.len() && pre[m].start_page == Some(r[k].0) && pre[m].content@ == r[k].1 && forall|m2: int|
        0 <= m2 < m ==> pre[m2].start_page != Some(r[k].0) by {
        assert(r.to_set().contains(r[k]));
        assert(g.to_set().contains(r[k]));
        let q = choose|q: int| 0 <= q < g.len() && g[q] == r[k];
        assert(g[q] == r[k]);
    }
    assert forall|m: int|
        0 <= m < pre.len() && (#[trigger] pre[m]).start_page is Some && nums[0] <= pre[m].start_page->0
            <= nums.last() implies exists|k: int| 0 <= k < r.len() && r[k].0 == pre[m].start_page->0 by {
        let l = pre[m].start_page->0;
        assert(has_page(g, l));
        let q = choose|q: int| 0 <= q < g.len() && (#[trigger] g[q]).0 == l;
        assert(g.to_set().contains(g[q]));
        assert(r.to_set().contains(g[q]));
        let k = choose|k: int| 0 <= k < r.len() && r[k] == g[q];
        assert(r[k].0 == l);
    }
}

/// Gathers, for the lines `min..=max`, the first node in pre-order that
/// starts at each line, then orders them by line.
pub fn collect_md_content_by_line(root: &PageNode, min: usize, max: usize) -> (r: Vec<CachedPage>)
    ensures
        pages_increasing(cached_views(r@)),
        cached_views(r@).to_set() == gather_lines(Seq::empty(), preorder(*root), min, max).to_set(),
        cached_views(r@).len() == gather_lines(Seq::empty(), preorder(*root), min, max).len(),
{
    let mut found: Vec<CachedPage> = Vec::new();
    gather_node(root, min, max, &mut found);
    let ghost g = gather_lines(Seq::empty(), preorder(*root), min, max);
    assert(cached_views(Seq::<CachedPage>::empty()) =~= Seq::<(usize, Seq<char>)>::empty());
    proof {
        lemma_gather_distinct(Seq::empty(), preorder(*root), min, max);
    }
    let mut sorted: Vec<CachedPage> = Vec::new();
    let ghost fv = cached_views(found@);
    assert(fv == g);
    let mut k: usize = 0;
    let n = found.len();
    assert(found@.skip(0) =~= found@);
    assert(fv.take(0).to_set() =~= Set::<(usize, Seq<char>)>::empty());
    assert(cached_views(sorted@).to_set() =~= Set::<(usize, Seq<char>)>::empty());
    while found.len() > 0
        invariant
            k + found@.len() == n,
            n == fv.len(),
            cached_views(found@) == fv.skip(k as int),
            pages_distinct(fv),
            pages_increasing(cached_views(sorted@)),
            cached_views(sorted@).to_set() == fv.take(k as int).to_set(),
            cached_views(sorted@).len() == k,
        decreases found@.len(),
    {
        let ghost rest = cached_views(found@);
        let ghost old_found = found@;
        let c = found.remove(0);
        assert(found@ =~= old_found.drop_first());
        assert(cached_views(found@) =~= rest.drop_first());
        assert(cached_view(c) == fv[k as int]) by {
            assert(rest[0] == cached_view(c));
        }
        assert(cached_views(found@) =~= fv.skip(k + 1));
        proof {
            if has_page(cached_views(sorted@), c.page) {
                let m = choose|m: int| 0 <= m < cached_views(sorted@).len() && (#[trigger] cached_views(sorted@)[m]).0 == c.page;
                assert(cached_views(sorted@).to_set().contains(cached_views(sorted@)[m]));
                let j = choose|j: int| 0 <= j < fv.take(k as int).len() && fv.take(k as int)[j] == cached_views(sorted@)[m];
                assert(fv[j].0 == fv[k as int].0);
            }
        }
        insert_by_page(&mut sorted, c);
        assert(fv.take(k + 1) =~= fv.take(k as int).push(fv[k as int]));
        proof {
            fv.take(k as int).lemma_push_to_set_commute(fv[k as int]);
        }
        k = k + 1;
    }
    assert(fv.take(n as int) =~= fv);
    sorted
}

/// `"Invalid pages format: {pages}. Use \"5-7\", \"3,8\", or \"12\". Error: Invalid page range: {reason}"`.
pub open spec fn invalid_pages_message(pages: Seq<char>, reason: Seq<char>) -> Seq<char> {
    "Invalid pages format: "@ + pages + ". Use \"5-7\", \"3,8\", or \"12\". Error: Invalid page range: "@
        + reason
}

/// Whether `r` is the page-content reply for `doc_id` and the page list
/// `pages`.
pub open spec fn is_page_content_reply(documents: Seq<Document>, doc_id: Seq<char>, pages: Seq<char>, r: Result<Vec<CachedPage>, ErrorResponse>) -> bool {
        match find_doc(documents, doc_id) {
            None => r matches Err(e) && e.error@ == not_found_message(doc_id),
            Some(i) => match spec_pages(pages, true) {
                Err((part, pe)) => r matches Err(e) && e.error@ == invalid_pages_message(
                    pages,
                    error_message(part, pe, false),
                ),
                Ok(set) => r matches Ok(v) && exists|nums: Seq<usize>|
                    strictly_increasing(nums) && nums.to_set() == set && match documents[i].doc_type {
                        DocumentType::Pdf => match documents[i].pages {
                            Some(cp) => cached_views(v@) == pdf_content(cp@, nums),
                            None => v@.len() == 0,
                        },
                        DocumentType::Markdown => match documents[i].root {
                            Some(root) => md_content_ok(cached_views(v@), root, nums),
                            None => v@.len() == 0,
                        },
                    },
            },
        }
}

/// The content of the requested pages of document `doc_id`: for a PDF,
/// the cached text of each requested page (see [`pdf_content`]); for
/// Markdown, the text of the nodes that start at the requested lines (see
/// [`md_content_ok`]). An error reply when no document has that id or the
/// page list cannot be read.
pub fn get_page_content(documents: &Vec<Document>, doc_id: &str, pages: &str) -> (r: Result<
    Vec<CachedPage>,
    ErrorResponse,
>)
    ensures
        is_page_content_reply(documents@, doc_id@, pages@, r),
{
    let i = match lookup(documents, doc_id) {
        None => {
            return Err(document_message(doc_id, " not found"));
        },
        Some(i) => i,
    };
    let nums = match parse_pages(pages, true, false) {
        Ok(v) => v,
        Err(m) => {
            let mut e: Vec<char> = Vec::new();
            extend_str(&mut e, "Invalid pages format: ");
            extend_str(&mut e, pages);
            extend_str(&mut e, ". Use \"5-7\", \"3,8\", or \"12\". Error: Invalid page range: ");
            extend_chars(&mut e, &m);
            return Err(ErrorResponse { error: string_from(&e) });
        },
    };
    let doc = &documents[i];
    let content = match doc.doc_type {
        DocumentType::Pdf => match &doc.pages {
            Some(cp) => pdf_page_content(cp, &nums),
            None => Vec::new(),
        },
        DocumentType::Markdown => match &doc.root {
            Some(root) => {
                let min = if nums.len() > 0 { nums[0] } else { 1 };
                let max = if nums.len() > 0 { nums[nums.len() - 1] } else { min };
                collect_md_content_by_line(root, min, max)
            },
            None => Vec::new(),
        },
    };
    Ok(content)
}

} // verus!
