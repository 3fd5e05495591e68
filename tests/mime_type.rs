use epub_io::mime_type::{
    is_content_mime_type, is_html_mime_type, is_markdown_mime_type, STANDARD_MARKDOWN_MIME_TYPE,
};

#[test]
fn content_set_members() {
    assert!(is_content_mime_type("image/png"));
    assert!(is_content_mime_type("text/html"));
    assert!(is_content_mime_type("application/xhtml+xml"));
    assert!(is_content_mime_type("video/x-msvideo"));
    assert!(is_content_mime_type("application/epub+zip"));
}

#[test]
fn content_set_rejects_unclassified() {
    assert!(!is_content_mime_type("application/x-msdownload"));
    assert!(!is_content_mime_type(""));
    assert!(!is_content_mime_type("image/PNG"));
    assert!(!is_content_mime_type("image/png "));
}

#[test]
fn html_set_is_exactly_two_types() {
    assert!(is_html_mime_type("application/xhtml+xml"));
    assert!(is_html_mime_type("text/html"));
    assert!(!is_html_mime_type("text/plain"));
    assert!(!is_html_mime_type("text/htm"));
}

#[test]
fn markdown_set() {
    assert!(is_markdown_mime_type("text/markdown"));
    assert!(is_markdown_mime_type(STANDARD_MARKDOWN_MIME_TYPE));
    assert!(!is_markdown_mime_type("text/x-markdown"));
}
