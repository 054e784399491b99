use nanopdf::document::{
    Document, FZ_PERMISSION_ANNOTATE, FZ_PERMISSION_COPY, FZ_PERMISSION_EDIT, FZ_PERMISSION_PRINT,
    estimate_page_count,
};
use nanopdf::font::Font;
use nanopdf::jbig2::decode_jbig2;
use nanopdf::stream::{SEEK_CUR, SEEK_END, SEEK_SET};

#[test]
fn test_document_new() {
    let pdf_data = b"%PDF-1.4\n/Type /Page\n/Type /Page\n%%EOF";
    let doc = Document::new(pdf_data.to_vec());
    assert_eq!(doc.page_count, 2);
    assert!(!doc.needs_password);
    assert!(doc.authenticated);
}

#[test]
fn test_document_estimate_page_count() {
    // No pages
    let empty = b"%PDF-1.4\n%%EOF";
    let doc1 = Document::new(empty.to_vec());
    assert_eq!(doc1.page_count, 1); // Minimum 1

    // Multiple pages
    let multi = b"%PDF-1.4\n/Type /Page\n/Type /Page\n/Type /Page\n%%EOF";
    let doc2 = Document::new(multi.to_vec());
    assert_eq!(doc2.page_count, 3);
}

#[test]
fn test_permission_constants() {
    assert_eq!(FZ_PERMISSION_PRINT, 1);
    assert_eq!(FZ_PERMISSION_COPY, 2);
    assert_eq!(FZ_PERMISSION_EDIT, 4);
    assert_eq!(FZ_PERMISSION_ANNOTATE, 8);
}

#[test]
fn test_seek_constants() {
    assert_eq!(SEEK_SET, 0);
    assert_eq!(SEEK_CUR, 1);
    assert_eq!(SEEK_END, 2);
}

#[test]
fn estimate_on_empty_input() {
    assert_eq!(estimate_page_count(b""), 1);
    assert_eq!(estimate_page_count(b"/Type /Pag"), 1);
    assert_eq!(estimate_page_count(b"/Type /Page"), 1);
}

#[test]
fn estimate_counts_overlapping_occurrences() {
    let data = b"/Type /Page/Type /Page";
    assert_eq!(estimate_page_count(data), 2);
}

#[test]
fn test_font_new() {
    let font = Font::new("Helvetica");
    assert_eq!(font.name(), "Helvetica");
}

#[test]
fn test_font_empty_name() {
    let font = Font::new("");
    assert_eq!(font.name(), "");
}

#[test]
fn test_font_unicode_name() {
    let font = Font::new("Arial日本語");
    assert_eq!(font.name(), "Arial日本語");
}

#[test]
fn test_jbig2_disabled() {
    let data = &[0u8; 100];
    let result = decode_jbig2(data, None);
    assert!(result.is_err());
}
