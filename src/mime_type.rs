use vstd::prelude::*;
use crate::text::str_eq;

verus! {

/// The MIME type under which Markdown documents are exported.
pub const STANDARD_MARKDOWN_MIME_TYPE: &'static str = "text/markdown";

/// The content classification set: the MIME types worth exporting as files.
pub open spec fn is_content_mime(m: Seq<char>) -> bool {
    m == "application/epub+zip"@
    || m == "application/font-woff"@
    || m == "application/font-woff2"@
    || m == "application/gzip"@
    || m == "application/javascript"@
    || m == "application/json"@
    || m == "application/mathml+xml"@
    || m == "application/oebps-package+xml"@
    || m == "application/ogg"@
    || m == "application/pdf"@
    || m == "application/pls+xml"@
    || m == "application/smil+xml"@
    || m == "application/vnd.adobe.xpgt"@
    || m == "application/vnd.ms-fontobject"@
    || m == "application/vnd.ms-opentype"@
    || m == "application/x-7z-compressed"@
    || m == "application/x-dtbncx+xml"@
    || m == "application/x-dtbook+xml"@
    || m == "application/x-font-otf"@
    || m == "application/x-font-truetype"@
    || m == "application/x-font-ttf"@
    || m == "application/x-rar-compressed"@
    || m == "application/x-tar"@
    || m == "application/x-yaml"@
    || m == "application/xenc+xml"@
    || m == "application/xhtml+xml"@
    || m == "application/xinclude+xml"@
    || m == "application/xlink+xml"@
    || m == "application/xml"@
    || m == "application/xml-dtd"@
    || m == "application/xpath+xml"@
    || m == "application/xpointer+xml"@
    || m == "application/xproc+xml"@
    || m == "application/xquery+xml"@
    || m == "application/xsig+xml"@
    || m == "application/xslt+xml"@
    || m == "application/zip"@
    || m == "audio/aac"@
    || m == "audio/flac"@
    || m == "audio/mp4"@
    || m == "audio/mpeg"@
    || m == "audio/ogg"@
    || m == "audio/wav"@
    || m == "audio/x-ms-wma"@
    || m == "audio/x-wav"@
    || m == "font/otf"@
    || m == "font/ttf"@
    || m == "font/woff"@
    || m == "font/woff2"@
    || m == "image/bmp"@
    || m == "image/gif"@
    || m == "image/jpeg"@
    || m == "image/png"@
    || m == "image/svg+xml"@
    || m == "image/tiff"@
    || m == "image/webp"@
    || m == "image/x-icon"@
    || m == "text/css"@
    || m == "text/csv"@
    || m == "text/html"@
    || m == "text/javascript"@
    || m == "text/markdown"@
    || m == "text/plain"@
    || m == "text/xml"@
    || m == "video/mp4"@
    || m == "video/mpeg"@
    || m == "video/ogg"@
    || m == "video/quicktime"@
    || m == "video/webm"@
    || m == "video/x-ms-wmv"@
    || m == "video/x-msvideo"@
}

/// The Markdown classification set.
pub open spec fn is_markdown_mime(m: Seq<char>) -> bool {
    m == "text/markdown"@
}

/// The HTML classification set: XHTML and HTML documents.
pub open spec fn is_html_mime(m: Seq<char>) -> bool {
    m == "application/xhtml+xml"@ || m == "text/html"@
}

/// Whether `mime_type` is an HTML content type.
pub fn is_html_mime_type(mime_type: &str) -> (r: bool)
    ensures
        r == is_html_mime(mime_type@),
{
    str_eq(mime_type, "application/xhtml+xml") || str_eq(mime_type, "text/html")
}

/// Whether `mime_type` is a content type worth exporting.
pub fn is_content_mime_type(mime_type: &str) -> (r: bool)
    ensures
        r == is_content_mime(mime_type@),
{
    str_eq(mime_type, "application/epub+zip")
        || str_eq(mime_type, "application/font-woff")
        || str_eq(mime_type, "application/font-woff2")
        || str_eq(mime_type, "application/gzip")
        || str_eq(mime_type, "application/javascript")
        || str_eq(mime_type, "application/json")
        || str_eq(mime_type, "application/mathml+xml")
        || str_eq(mime_type, "application/oebps-package+xml")
        || str_eq(mime_type, "application/ogg")
        || str_eq(mime_type, "application/pdf")
        || str_eq(mime_type, "application/pls+xml")
        || str_eq(mime_type, "application/smil+xml")
        || str_eq(mime_type, "application/vnd.adobe.xpgt")
        || str_eq(mime_type, "application/vnd.ms-fontobject")
        || str_eq(mime_type, "application/vnd.ms-opentype")
        || str_eq(mime_type, "application/x-7z-compressed")
        || str_eq(mime_type, "application/x-dtbncx+xml")
        || str_eq(mime_type, "application/x-dtbook+xml")
        || str_eq(mime_type, "application/x-font-otf")
        || str_eq(mime_type, "application/x-font-truetype")
        || str_eq(mime_type, "application/x-font-ttf")
        || str_eq(mime_type, "application/x-rar-compressed")
        || str_eq(mime_type, "application/x-tar")
        || str_eq(mime_type, "application/x-yaml")
        || str_eq(mime_type, "application/xenc+xml")
        || str_eq(mime_type, "application/xhtml+xml")
        || str_eq(mime_type, "application/xinclude+xml")
        || str_eq(mime_type, "application/xlink+xml")
        || str_eq(mime_type, "application/xml")
        || str_eq(mime_type, "application/xml-dtd")
        || str_eq(mime_type, "application/xpath+xml")
        || str_eq(mime_type, "application/xpointer+xml")
        || str_eq(mime_type, "application/xproc+xml")
        || str_eq(mime_type, "application/xquery+xml")
        || str_eq(mime_type, "application/xsig+xml")
        || str_eq(mime_type, "application/xslt+xml")
        || str_eq(mime_type, "application/zip")
        || str_eq(mime_type, "audio/aac")
        || str_eq(mime_type, "audio/flac")
        || str_eq(mime_type, "audio/mp4")
        || str_eq(mime_type, "audio/mpeg")
        || str_eq(mime_type, "audio/ogg")
        || str_eq(mime_type, "audio/wav")
        || str_eq(mime_type, "audio/x-ms-wma")
        || str_eq(mime_type, "audio/x-wav")
        || str_eq(mime_type, "font/otf")
        || str_eq(mime_type, "font/ttf")
        || str_eq(mime_type, "font/woff")
        || str_eq(mime_type, "font/woff2")
        || str_eq(mime_type, "image/bmp")
        || str_eq(mime_type, "image/gif")
        || str_eq(mime_type, "image/jpeg")
        || str_eq(mime_type, "image/png")
        || str_eq(mime_type, "image/svg+xml")
        || str_eq(mime_type, "image/tiff")
        || str_eq(mime_type, "image/webp")
        || str_eq(mime_type, "image/x-icon")
        || str_eq(mime_type, "text/css")
        || str_eq(mime_type, "text/csv")
        || str_eq(mime_type, "text/html")
        || str_eq(mime_type, "text/javascript")
        || str_eq(mime_type, "text/markdown")
        || str_eq(mime_type, "text/plain")
        || str_eq(mime_type, "text/xml")
        || str_eq(mime_type, "video/mp4")
        || str_eq(mime_type, "video/mpeg")
        || str_eq(mime_type, "video/ogg")
        || str_eq(mime_type, "video/quicktime")
        || str_eq(mime_type, "video/webm")
        || str_eq(mime_type, "video/x-ms-wmv")
        || str_eq(mime_type, "video/x-msvideo")
}

/// Whether `mime_type` is a Markdown content type.
pub fn is_markdown_mime_type(mime_type: &str) -> (r: bool)
    ensures
        r == is_markdown_mime(mime_type@),
{
    str_eq(mime_type, STANDARD_MARKDOWN_MIME_TYPE)
}

} // verus!
