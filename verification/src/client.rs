//! The document collection: documents held in memory with their metadata,
//! the workspace metadata entries, document ids, and the detection of a
//! document's type from its path.
//!
//! Reading files, writing the workspace, and calling models is the
//! caller's part.

use vstd::prelude::*;
use crate::document::{
    CachedPage, Document, DocumentMetadata, DocumentType, ErrorResponse, StructureNodeDto, find_doc,
    get_document, get_document_structure, get_page_content, is_metadata_reply,
    is_page_content_reply, is_structure_reply, kind_name, lookup,
};
use crate::markdown::{md_lines, split_lines};
use crate::text::{
    chars_eq, clone_opt, decimal, decimal_chars, extend_chars, extend_str, first_index, lowercase,
    split, split_chars, str_chars, string_from, to_lowercase,
};

verus! {

/// Metadata of a document in the workspace's `_meta.json`.
pub struct MetaEntry {
    /// Document id.
    pub id: String,
    /// Document type: `"pdf"` or `"markdown"`.
    pub doc_type: String,
    /// Document name (file name).
    pub doc_name: String,
    /// Document description.
    pub doc_description: String,
    /// Path of the document file.
    pub path: String,
    /// Page count (PDF).
    pub page_count: Option<usize>,
    /// Line count (Markdown).
    pub line_count: Option<usize>,
}

/// How a document is indexed.
#[derive(Clone, Copy, Debug, PartialEq, Eq, Structural)]
pub enum IndexMode {
    /// From the file extension.
    Auto,
    /// As a PDF.
    Pdf,
    /// As Markdown.
    Markdown,
}

/// Errors of the document collection.
pub enum ClientError {
    /// Document not found, with its id or path.
    DocumentNotFound(String),
    /// No workspace configured.
    NoWorkspace,
    /// I/O error, with its message.
    Io(String),
    /// JSON error, with its message.
    Json(String),
    /// Unsupported document format.
    UnknownFormat,
    /// Parsing failed, with the reason.
    ParseFailed(String),
    /// Indexing failed, with the reason.
    IndexFailed(String),
}

/// The message of a collection error.
pub open spec fn client_error_message(e: ClientError) -> Seq<char> {
    match e {
        ClientError::DocumentNotFound(m) => "Document not found: "@ + m@,
        ClientError::NoWorkspace => "Workspace not configured"@,
        ClientError::Io(m) => "IO error: "@ + m@,
        ClientError::Json(m) => "JSON error: "@ + m@,
        ClientError::UnknownFormat => "Unsupported document format"@,
        ClientError::ParseFailed(m) => "Parsing failed: "@ + m@,
        ClientError::IndexFailed(m) => "Indexing failed: "@ + m@,
    }
}

impl ClientError {
    /// The error message.
    pub fn message(&self) -> (r: String)
        ensures
            r@ == client_error_message(*self),
    {
        let mut m: Vec<char> = Vec::new();
        match self {
            ClientError::DocumentNotFound(x) => {
                extend_str(&mut m, "Document not found: ");
                extend_str(&mut m, x.as_str());
            },
            ClientError::NoWorkspace => extend_str(&mut m, "Workspace not configured"),
            ClientError::Io(x) => {
                extend_str(&mut m, "IO error: ");
                extend_str(&mut m, x.as_str());
            },
            ClientError::Json(x) => {
                extend_str(&mut m, "JSON error: ");
                extend_str(&mut m, x.as_str());
            },
            ClientError::UnknownFormat => extend_str(&mut m, "Unsupported document format"),
            ClientError::ParseFailed(x) => {
                extend_str(&mut m, "Parsing failed: ");
                extend_str(&mut m, x.as_str());
            },
            ClientError::IndexFailed(x) => {
                extend_str(&mut m, "Indexing failed: ");
                extend_str(&mut m, x.as_str());
            },
        }
        assert(m@ =~= client_error_message(*self));
        string_from(&m)
    }
}

// ------------------------------------------------------------------
// File names and types
// ------------------------------------------------------------------

/// The last piece of `s` that is not empty and not `"."`, if any.
pub open spec fn last_component(pieces: Seq<Seq<char>>) -> Option<Seq<char>>
    decreases pieces.len(),
{
    if pieces.len() == 0 {
        None
    } else if pieces.last().len() == 0 || pieces.last() == "."@ {
        last_component(pieces.drop_last())
    } else {
        Some(pieces.last())
    }
}

/// The file name of a path (`Path::file_name` on Unix): its last
/// component, unless that is `..` or there is none.
pub open spec fn file_name(path: Seq<char>) -> Option<Seq<char>> {
    match last_component(split(path, '/')) {
        Some(c) => if c == ".."@ {
            None
        } else {
            Some(c)
        },
        None => None,
    }
}

/// The extension of a file name (`Path::extension`): the text after its
/// last `.`, when there is a `.` with something before it.
pub open spec fn name_extension(name: Seq<char>) -> Option<Seq<char>> {
    match crate::toc::last_index(name, '.') {
        Some(i) => if i == 0 {
            None
        } else {
            Some(name.skip(i + 1))
        },
        None => None,
    }
}

/// The type a path's extension names, compared without case: `pdf` for a
/// PDF, `md` or `markdown` for Markdown.
pub open spec fn path_type(path: Seq<char>) -> Option<DocumentType> {
    match file_name(path) {
        None => None,
        Some(n) => match name_extension(n) {
            None => None,
            Some(e) => {
                let l = lowercase(e);
                if l == "pdf"@ {
                    Some(DocumentType::Pdf)
                } else if l == "md"@ || l == "markdown"@ {
                    Some(DocumentType::Markdown)
                } else {
                    None
                }
            },
        },
    }
}

fn file_name_of(path: &str) -> (r: Option<Vec<char>>)
    ensures
        match file_name(path@) {
            Some(n) => r matches Some(v) && v@ == n,
            None => r is None,
        },
{
    let v = str_chars(path);
    let pieces = split_chars(&v, '/');
    let ghost ps = split(path@, '/');
    let dot = str_chars(".");
    let dotdot = str_chars("..");
    let mut i = pieces.len();
    assert(ps.take(ps.len() as int) =~= ps);
    while i > 0 && (pieces[i - 1].len() == 0 || chars_eq(&pieces[i - 1], &dot))
        invariant
            i <= pieces.len() == ps.len(),
            ps == split(path@, '/'),
            dot@ == "."@,
            forall|j: int| 0 <= j < ps.len() ==> #[trigger] pieces@[j]@ == ps[j],
            last_component(ps) == last_component(ps.take(i as int)),
        decreases i,
    {
        assert(ps.take(i as int).drop_last() =~= ps.take(i - 1));
        assert(ps.take(i as int).last() == ps[i - 1]);
        i = i - 1;
    }
    if i == 0 {
        assert(ps.take(0) =~= Seq::<Seq<char>>::empty());
        return None;
    }
    assert(ps.take(i as int).last() == ps[i - 1]);
    let c = &pieces[i - 1];
    if chars_eq(c, &dotdot) {
        return None;
    }
    Some(crate::text::sub_chars(c, 0, c.len()))
}

/// Detects a document's type from its path (see [`path_type`]); an
/// unsupported-format error when the extension names none.
pub fn detect_document_type(path: &str) -> (r: Result<DocumentType, ClientError>)
    ensures
        match path_type(path@) {
            Some(t) => r == Ok::<DocumentType, ClientError>(t),
            None => r matches Err(ClientError::UnknownFormat),
        },
{
    let name = match file_name_of(path) {
        Some(n) => n,
        None => {
            return Err(ClientError::UnknownFormat);
        },
    };
    assert(name@.subrange(0, name@.len() as int) =~= name@);
    let mut j = name.len();
    while j > 0 && name[j - 1] != '.'
        invariant
            j <= name.len(),
            crate::toc::last_index(name@, '.') == crate::toc::last_index(name@.take(j as int), '.'),
        decreases j,
    {
        assert(name@.take(j as int).drop_last() =~= name@.take(j - 1));
        assert(name@.take(j as int).last() == name@[j - 1]);
        j = j - 1;
    }
    proof {
        assert(name@.take(name@.len() as int) =~= name@);
        if j > 0 {
            assert(name@.take(j as int).last() == name@[j - 1]);
        } else {
            assert(name@.take(0) =~= Seq::<char>::empty());
        }
    }
    if j <= 1 {
        return Err(ClientError::UnknownFormat);
    }
    let ext = string_from(&crate::text::sub_chars(&name, j, name.len()));
    assert(name@.subrange(j as int, name@.len() as int) =~= name@.skip(j as int));
    let low = str_chars(to_lowercase(ext.as_str()).as_str());
    if chars_eq(&low, &str_chars("pdf")) {
        Ok(DocumentType::Pdf)
    } else if chars_eq(&low, &str_chars("md")) || chars_eq(&low, &str_chars("markdown")) {
        Ok(DocumentType::Markdown)
    } else {
        Err(ClientError::UnknownFormat)
    }
}

// ------------------------------------------------------------------
// Document ids
// ------------------------------------------------------------------

/// Whether `c` is a lowercase hexadecimal digit.
pub open spec fn is_lower_hex(c: char) -> bool {
    ('0' <= c && c <= '9') || ('a' <= c && c <= 'f')
}

/// Whether `s` is a random (version 4) UUID in hyphenated lowercase form:
/// 36 characters, hyphens at 8, 13, 18 and 23, lowercase hex digits
/// elsewhere, version digit `4` at 14 and a variant digit `8`, `9`, `a` or
/// `b` at 19.
pub open spec fn is_uuid_v4_text(s: Seq<char>) -> bool {
    &&& s.len() == 36
    &&& forall|i: int|
        0 <= i < 36 ==> if i == 8 || i == 13 || i == 18 || i == 23 {
            s[i] == '-'
        } else {
            is_lower_hex(#[trigger] s[i])
        }
    &&& s[14] == '4'
    &&& (s[19] == '8' || s[19] == '9' || s[19] == 'a' || s[19] == 'b')
}

/// A new random document id: `uuid::Uuid::new_v4()` rendered by its
/// `Display` (the hyphenated lowercase form). The contract gives the shape
/// of the text only; which id comes out is left open.
#[verifier::external_body]
fn new_uuid_text() -> (r: String)
    ensures
        is_uuid_v4_text(r@),
{
    uuid::Uuid::new_v4().to_string()
}

/// A new random document id (a version 4 UUID in hyphenated lowercase
/// form).
pub fn generate_doc_id() -> (r: String)
    ensures
        is_uuid_v4_text(r@),
{
    new_uuid_text()
}

// ------------------------------------------------------------------
// Documents from files
// ------------------------------------------------------------------

/// The name of a document at `path`: its file name, or `"Unknown"`.
pub open spec fn doc_name_of(path: Seq<char>) -> Seq<char> {
    match file_name(path) {
        Some(n) => n,
        None => "Unknown"@,
    }
}

fn name_of(path: &str) -> (r: String)
    ensures
        r@ == doc_name_of(path@),
{
    match file_name_of(path) {
        Some(n) => string_from(&n),
        None => string_from(&str_chars("Unknown")),
    }
}

/// Whether `d` is a freshly indexed document: the given id, type, name of
/// its path, description and counts, and nothing loaded.
pub open spec fn is_new_document(
    d: Document,
    id: Seq<char>,
    t: DocumentType,
    path: Seq<char>,
    description: Seq<char>,
    page_count: Option<usize>,
    line_count: Option<usize>,
) -> bool {
    &&& d.id@ == id
    &&& d.doc_type == t
    &&& d.doc_name@ == doc_name_of(path)
    &&& d.doc_description@ == description
    &&& d.file_path@ == path
    &&& d.page_count == page_count
    &&& d.line_count == line_count
    &&& d.root is None
    &&& d.pages is None
}

/// The document record of a Markdown file: its line count, and the
/// description `"Markdown document with {n} lines"`.
pub fn markdown_document(id: &str, path: &str, content: &str) -> (r: Document)
    ensures
        is_new_document(
            r,
            id@,
            DocumentType::Markdown,
            path@,
            "Markdown document with "@ + decimal(md_lines(content@).len()) + " lines"@,
            None,
            Some(md_lines(content@).len() as usize),
        ),
{
    let lines = split_lines(content);
    let n = lines.len();
    assert(crate::tree_builder::string_views(lines@).len() == lines@.len());
    let mut d: Vec<char> = Vec::new();
    extend_str(&mut d, "Markdown document with ");
    extend_chars(&mut d, &decimal_chars(n));
    extend_str(&mut d, " lines");
    assert(d@ =~= "Markdown document with "@ + decimal(md_lines(content@).len()) + " lines"@);
    Document {
        id: string_from(&str_chars(id)),
        doc_type: DocumentType::Markdown,
        doc_name: name_of(path),
        doc_description: string_from(&d),
        file_path: string_from(&str_chars(path)),
        page_count: None,
        line_count: Some(n),
        root: None,
        pages: None,
    }
}

/// The document record of a PDF file read as text: the description
/// `"PDF document with {n} bytes"`, or `"PDF document"` when the text is
/// empty.
pub fn pdf_document(id: &str, path: &str, content: &str) -> (r: Document)
    ensures
        is_new_document(
            r,
            id@,
            DocumentType::Pdf,
            path@,
            if content@.len() == 0 {
                "PDF document"@
            } else {
                "PDF document with "@ + decimal(crate::pdf::byte_len(content@) as nat) + " bytes"@
            },
            None,
            None,
        ),
{
    let mut d: Vec<char> = Vec::new();
    if content.is_empty() {
        extend_str(&mut d, "PDF document");
    } else {
        extend_str(&mut d, "PDF document with ");
        extend_chars(&mut d, &decimal_chars(content.len()));
        extend_str(&mut d, " bytes");
    }
    Document {
        id: string_from(&str_chars(id)),
        doc_type: DocumentType::Pdf,
        doc_name: name_of(path),
        doc_description: string_from(&d),
        file_path: string_from(&str_chars(path)),
        page_count: None,
        line_count: None,
        root: None,
        pages: None,
    }
}

// ------------------------------------------------------------------
// Metadata entries
// ------------------------------------------------------------------

/// Whether `m` is the metadata entry of document `d`.
pub open spec fn is_meta_of(m: MetaEntry, d: Document) -> bool {
    &&& m.id@ == d.id@
    &&& m.doc_type@ == kind_name(d.doc_type)
    &&& m.doc_name@ == d.doc_name@
    &&& m.doc_description@ == d.doc_description@
    &&& m.path@ == d.file_path@
    &&& m.page_count == d.page_count
    &&& m.line_count == d.line_count
}

/// The metadata entry of a document.
pub fn meta_entry(d: &Document) -> (r: MetaEntry)
    ensures
        is_meta_of(r, *d),
{
    let mut t: Vec<char> = Vec::new();
    match d.doc_type {
        DocumentType::Pdf => extend_str(&mut t, "pdf"),
        DocumentType::Markdown => extend_str(&mut t, "markdown"),
    }
    MetaEntry {
        id: d.id.clone(),
        doc_type: string_from(&t),
        doc_name: d.doc_name.clone(),
        doc_description: d.doc_description.clone(),
        path: d.file_path.clone(),
        page_count: d.page_count,
        line_count: d.line_count,
    }
}

/// The document record of a metadata entry under id `id`: a PDF when the
/// entry's type is `"pdf"`, Markdown otherwise; nothing loaded.
pub fn document_from_meta(id: &str, m: &MetaEntry) -> (r: Document)
    ensures
        r.id@ == id@,
        r.doc_type == (if m.doc_type@ == "pdf"@ {
            DocumentType::Pdf
        } else {
            DocumentType::Markdown
        }),
        r.doc_name@ == m.doc_name@,
        r.doc_description@ == m.doc_description@,
        r.file_path@ == m.path@,
        r.page_count == m.page_count,
        r.line_count == m.line_count,
        r.root is None,
        r.pages is None,
{
    let is_pdf = chars_eq(&str_chars(m.doc_type.as_str()), &str_chars("pdf"));
    Document {
        id: string_from(&str_chars(id)),
        doc_type: if is_pdf {
            DocumentType::Pdf
        } else {
            DocumentType::Markdown
        },
        doc_name: m.doc_name.clone(),
        doc_description: m.doc_description.clone(),
        file_path: m.path.clone(),
        page_count: m.page_count,
        line_count: m.line_count,
        root: None,
        pages: None,
    }
}

// ------------------------------------------------------------------
// The collection
// ------------------------------------------------------------------

/// The ids of the documents.
pub open spec fn doc_ids(docs: Seq<Document>) -> Seq<Seq<char>> {
    docs.map_values(|d: Document| d.id@)
}

/// A collection of documents, with an optional workspace directory and
/// the models used for indexing and retrieval.
pub struct DocumentCollection {
    /// Documents, each id at most once.
    pub documents: Vec<Document>,
    /// Workspace directory, if any.
    pub workspace: Option<String>,
    /// Model for indexing.
    pub model: String,
    /// Model for retrieval.
    pub retrieve_model: String,
}

impl Default for DocumentCollection {
    fn default() -> (r: DocumentCollection)
        ensures
            r.documents@.len() == 0,
            r.workspace is None,
            r.model@ == "gpt-4"@,
            r.retrieve_model@ == "gpt-4"@,
            r.wf(),
    {
        DocumentCollection::new()
    }
}

impl DocumentCollection {
    /// Whether no id occurs twice.
    pub open spec fn wf(&self) -> bool {
        crate::storage::keys_distinct(doc_ids(self.documents@))
    }

    /// An empty collection without workspace, both models `"gpt-4"`.
    pub fn new() -> (r: DocumentCollection)
        ensures
            r.documents@.len() == 0,
            r.workspace is None,
            r.model@ == "gpt-4"@,
            r.retrieve_model@ == "gpt-4"@,
            r.wf(),
    {
        DocumentCollection {
            documents: Vec::new(),
            workspace: None,
            model: string_from(&str_chars("gpt-4")),
            retrieve_model: string_from(&str_chars("gpt-4")),
        }
    }

    /// An empty collection in the given workspace directory, both models
    /// `"gpt-4"` (the caller creates the directory and loads its metadata).
    pub fn in_workspace(workspace: &str) -> (r: DocumentCollection)
        ensures
            r.documents@.len() == 0,
            r.workspace matches Some(w) && w@ == workspace@,
            r.model@ == "gpt-4"@,
            r.retrieve_model@ == "gpt-4"@,
            r.wf(),
    {
        let mut c = DocumentCollection::new();
        c.workspace = Some(string_from(&str_chars(workspace)));
        c
    }

    /// The same collection with `model` for both indexing and retrieval.
    pub fn with_model(self, model: &str) -> (r: DocumentCollection)
        ensures
            r.model@ == model@,
            r.retrieve_model@ == model@,
            r.documents == self.documents,
            r.workspace == self.workspace,
    {
        let mut c = self;
        c.retrieve_model = string_from(&str_chars(model));
        c.model = string_from(&str_chars(model));
        c
    }

    /// The same collection with `model` for retrieval.
    pub fn with_retrieve_model(self, model: &str) -> (r: DocumentCollection)
        ensures
            r.model == self.model,
            r.retrieve_model@ == model@,
            r.documents == self.documents,
            r.workspace == self.workspace,
    {
        let mut c = self;
        c.retrieve_model = string_from(&str_chars(model));
        c
    }

    /// The ids of the documents.
    pub fn list_documents(&self) -> (r: Vec<String>)
        ensures
            crate::tree_builder::string_views(r@) == doc_ids(self.documents@),
    {
        let mut out: Vec<String> = Vec::new();
        let mut i: usize = 0;
        while i < self.documents.len()
            invariant
                i <= self.documents.len(),
                crate::tree_builder::string_views(out@) == doc_ids(self.documents@).take(i as int),
            decreases self.documents.len() - i,
        {
            let ghost before = crate::tree_builder::string_views(out@);
            let id = self.documents[i].id.clone();
            assert(id@ == self.documents@[i as int].id@);
            out.push(id);
            assert(crate::tree_builder::string_views(out@) =~= before.push(id@));
            assert(doc_ids(self.documents@).take(i + 1) =~= doc_ids(self.documents@).take(i as int).push(id@));
            i = i + 1;
        }
        assert(doc_ids(self.documents@).take(self.documents.len() as int) =~= doc_ids(self.documents@));
        out
    }

    /// Adds a document, replacing the one with the same id.
    pub fn insert_document(&mut self, doc: Document)
        requires
            old(self).wf(),
        ensures
            final(self).wf(),
            final(self).workspace == old(self).workspace,
            final(self).model == old(self).model,
            final(self).retrieve_model == old(self).retrieve_model,
            match find_doc(old(self).documents@, doc.id@) {
                Some(i) => final(self).documents@ == old(self).documents@.update(i, doc),
                None => final(self).documents@ == old(self).documents@.push(doc),
            },
    {
        let ghost ids0 = doc_ids(self.documents@);
        let ghost d = doc;
        match lookup(&self.documents, doc.id.as_str()) {
            Some(i) => {
                let ghost before = self.documents@;
                self.documents.remove(i);
                self.documents.insert(i, doc);
                assert(self.documents@ =~= before.update(i as int, d));
                assert(doc_ids(self.documents@) =~= ids0);
            },
            None => {
                proof {
                    crate::document::lemma_find_doc_none(self.documents@, d.id@);
                }
                self.documents.push(doc);
                proof {
                    let ids1 = doc_ids(self.documents@);
                    assert(ids1 =~= ids0.push(d.id@));
                    assert forall|a: int, b: int| 0 <= a < b < ids1.len() implies ids1[a] != ids1[b] by {
                        if b == ids0.len() {
                            assert(ids1[a] == self.documents@[a].id@);
                        }
                    }
                }
            },
        }
    }

    /// Removes the document with the given id from memory (the caller
    /// removes its file and metadata entry).
    pub fn remove_from_memory(&mut self, doc_id: &str)
        requires
            old(self).wf(),
        ensures
            final(self).wf(),
            final(self).workspace == old(self).workspace,
            final(self).model == old(self).model,
            final(self).retrieve_model == old(self).retrieve_model,
            match find_doc(old(self).documents@, doc_id@) {
                Some(i) => final(self).documents@ == old(self).documents@.remove(i),
                None => final(self).documents@ == old(self).documents@,
            },
    {
        match lookup(&self.documents, doc_id) {
            Some(i) => {
                let ghost ids0 = doc_ids(self.documents@);
                let ghost before = self.documents@;
                self.documents.remove(i);
                proof {
                    let ids1 = doc_ids(self.documents@);
                    assert(ids1 =~= ids0.remove(i as int));
                    assert forall|a: int, b: int| 0 <= a < b < ids1.len() implies ids1[a] != ids1[b] by {
                        let a0 = if a < i { a } else { a + 1 };
                        let b0 = if b < i { b } else { b + 1 };
                        assert(ids1[a] == ids0[a0]);
                        assert(ids1[b] == ids0[b0]);
                    }
                }
            },
            None => {},
        }
    }

    /// Metadata of a document (see [`get_document`]).
    pub fn get_document(&self, doc_id: &str) -> (r: Result<DocumentMetadata, ErrorResponse>)
        ensures
            is_metadata_reply(self.documents@, doc_id@, r),
    {
        get_document(&self.documents, doc_id)
    }

    /// Structure of a document (see [`get_document_structure`]); the
    /// caller loads the document's tree first.
    pub fn get_document_structure(&self, doc_id: &str) -> (r: Result<StructureNodeDto, ErrorResponse>)
        ensures
            is_structure_reply(self.documents@, doc_id@, r),
    {
        get_document_structure(&self.documents, doc_id)
    }

    /// Content of pages of a document (see [`get_page_content`]); the
    /// caller loads the document's tree and pages first.
    pub fn get_page_content(&self, doc_id: &str, pages: &str) -> (r: Result<Vec<CachedPage>, ErrorResponse>)
        ensures
            is_page_content_reply(self.documents@, doc_id@, pages@, r),
    {
        get_page_content(&self.documents, doc_id, pages)
    }
}

} // verus!
