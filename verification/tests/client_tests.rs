use vectorless::client::{detect_document_type, generate_doc_id, ClientError, DocumentCollection};
use vectorless::document::DocumentType;

#[test]
fn test_collection_new() {
    let _collection = DocumentCollection::new();
    let collection = DocumentCollection::new();
    assert!(collection.workspace.is_none());
    assert!(collection.documents.is_empty());
}

#[test]
fn test_with_model() {
    let collection = DocumentCollection::new().with_model("gpt-4o");
    assert_eq!(collection.model, "gpt-4o");
    assert_eq!(collection.retrieve_model, "gpt-4o");
}

#[test]
fn test_with_retrieve_model() {
    let collection = DocumentCollection::new()
        .with_model("gpt-4")
        .with_retrieve_model("gpt-3.5-turbo");
    assert_eq!(collection.model, "gpt-4");
    assert_eq!(collection.retrieve_model, "gpt-3.5-turbo");
}

#[test]
fn test_detect_pdf() {
    let doc_type = detect_document_type("/test/document.pdf").ok().unwrap();
    assert_eq!(doc_type, DocumentType::Pdf);
}

#[test]
fn test_detect_markdown() {
    let doc_type = detect_document_type("/test/README.md").ok().unwrap();
    assert_eq!(doc_type, DocumentType::Markdown);

    let doc_type = detect_document_type("/test/doc.markdown").ok().unwrap();
    assert_eq!(doc_type, DocumentType::Markdown);
}

#[test]
fn test_detect_unknown() {
    let result = detect_document_type("/test/document.txt");
    assert!(matches!(result, Err(ClientError::UnknownFormat)));

    let result = detect_document_type("/test/no_extension");
    assert!(matches!(result, Err(ClientError::UnknownFormat)));
}

#[test]
fn test_generate_doc_id() {
    let id1 = generate_doc_id();
    let id2 = generate_doc_id();
    assert_ne!(id1, id2);
    // UUID v4 format: 8-4-4-4-12 hex digits
    assert_eq!(id1.len(), 36);
    assert_eq!(id2.len(), 36);
}

#[test]
fn test_list_documents_empty() {
    let collection = DocumentCollection::new();
    let docs = collection.list_documents();
    assert!(docs.is_empty());
}

#[test]
fn client_test_get_document_not_found() {
    let collection = DocumentCollection::new();
    let result = collection.get_document("non-existent");
    let err = result.err().unwrap();
    assert!(err.error.contains("not found"));
}

#[test]
fn detect_is_case_insensitive_and_uses_last_extension() {
    assert_eq!(detect_document_type("/a/B.PDF").ok().unwrap(), DocumentType::Pdf);
    assert_eq!(detect_document_type("/a/notes.tar.md").ok().unwrap(), DocumentType::Markdown);
    assert!(detect_document_type("/a.pdf/readme").is_err());
}

#[test]
fn generated_ids_are_uuid_v4_text() {
    let id = generate_doc_id();
    let b = id.as_bytes();
    for (i, c) in b.iter().enumerate() {
        if i == 8 || i == 13 || i == 18 || i == 23 {
            assert_eq!(*c, b'-');
        } else {
            assert!(c.is_ascii_hexdigit() && !c.is_ascii_uppercase());
        }
    }
    assert_eq!(b[14], b'4');
}

#[test]
fn unknown_format_message() {
    assert_eq!(ClientError::UnknownFormat.message(), "Unsupported document format");
    assert_eq!(ClientError::NoWorkspace.message(), "Workspace not configured");
}

#[test]
fn workspace_collection_keeps_path() {
    let c = DocumentCollection::in_workspace("/tmp/ws");
    assert_eq!(c.workspace.as_deref(), Some("/tmp/ws"));
    assert!(c.documents.is_empty());
}
