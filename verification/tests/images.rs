use local_mcp::images::{get_image, image_mime_type};
use local_mcp::json::Json;
use local_mcp::paths::resolve_path;

fn first_content(answer: &Json) -> &Json {
    match answer.get("content") {
        Some(Json::Array(items)) => &items[0],
        _ => panic!("expected content"),
    }
}

#[test]
fn detects_supported_image_types() {
    assert_eq!(image_mime_type(b"\x89PNG\r\n\x1a\n"), Some("image/png"));
    assert_eq!(image_mime_type(b"\xff\xd8\xff\xe0"), Some("image/jpeg"));
    assert_eq!(image_mime_type(b"GIF89a"), Some("image/gif"));
    assert_eq!(image_mime_type(b"RIFF\0\0\0\0WEBP"), Some("image/webp"));
    assert_eq!(image_mime_type(b"not an image"), None);
}

#[test]
fn detects_the_other_image_types() {
    assert_eq!(image_mime_type(b"GIF87a"), Some("image/gif"));
    assert_eq!(image_mime_type(b"BM"), Some("image/bmp"));
    assert_eq!(image_mime_type(b"II*\0"), Some("image/tiff"));
    assert_eq!(image_mime_type(b"MM\0*"), Some("image/tiff"));
    assert_eq!(image_mime_type(b"\0\0\0\x20ftypavif"), Some("image/avif"));
    assert_eq!(image_mime_type(b"\0\0\0\x20ftypavis"), Some("image/avif"));
    assert_eq!(image_mime_type(b"\0\0\0\x20ftypmp42"), None);
    assert_eq!(image_mime_type(b"RIFF\0\0\0\0WAVE"), None);
    assert_eq!(image_mime_type(b"RIFF\0\0\0\0WEB"), None);
    assert_eq!(image_mime_type(b"\x89PNG\r\n\x1a"), None);
    assert_eq!(image_mime_type(b""), None);
}

#[test]
fn get_image_returns_mcp_image_content() {
    let result = get_image("/tmp/image.png", b"\x89PNG\r\n\x1a\nexample").unwrap();
    let content = first_content(&result);
    assert_eq!(content.get_text("type"), Some("image"));
    assert_eq!(content.get_text("mimeType"), Some("image/png"));
    assert_eq!(content.get_text("data"), Some("iVBORw0KGgpleGFtcGxl"));
}

#[test]
fn get_image_resolves_relative_paths_from_session_cwd() {
    let path = resolve_path("/tmp/session", "image.gif");
    assert_eq!(path, "/tmp/session/image.gif");
    let result = get_image(&path, b"GIF89a").unwrap();
    assert_eq!(first_content(&result).get_text("mimeType"), Some("image/gif"));
}

#[test]
fn names_the_file_that_is_no_image() {
    assert_eq!(
        get_image("/tmp/notes.txt", b"notes").unwrap_err(),
        "unsupported image format: /tmp/notes.txt"
    );
}
