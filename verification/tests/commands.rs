use workspace_engine::commands::{FileInfo, InferredType};

const PNG: [u8; 16] = [0x89, b'P', b'N', b'G', 0x0d, 0x0a, 0x1a, 0x0a, 0, 0, 0, 13, b'I', b'H', b'D', b'R'];

#[test]
fn deleted_file_has_nothing() {
    let info = FileInfo::deleted();
    assert_eq!(info.content, None);
    assert_eq!(info.file_name, "");
    assert_eq!(info.size, None);
    assert_eq!(info.mime_type, None);
}

#[test]
fn text_is_kept_as_text() {
    let info = FileInfo::utf8_text_or_binary("a.txt", "h\u{e9}llo".as_bytes());
    assert_eq!(info.content.as_deref(), Some("h\u{e9}llo"));
    assert_eq!(info.file_name, "a.txt");
    assert_eq!(info.size, Some(6));
    assert_eq!(info.mime_type, None);
}

#[test]
fn invalid_utf8_has_no_content() {
    let info = FileInfo::utf8_text_or_binary("a.bin", &[0xff, 0xfe, 0x00]);
    assert_eq!(info.content, None);
    assert_eq!(info.size, Some(3));
    assert_eq!(info.mime_type, None);
}

#[test]
fn binary_reports_only_the_length() {
    let info = FileInfo::binary("big.iso", 1234);
    assert_eq!(info.content, None);
    assert_eq!(info.file_name, "big.iso");
    assert_eq!(info.size, Some(1234));
    assert_eq!(info.mime_type, None);
}

#[test]
fn images_carry_base64_and_type() {
    let info = FileInfo::image_or_empty("a.png", &PNG);
    assert_eq!(info.mime_type.as_deref(), Some("image/png"));
    assert_eq!(info.content.as_deref(), Some("iVBORw0KGgoAAAANSUhEUg=="));
    assert_eq!(info.size, Some(16));
    assert_eq!(info.file_name, "a.png");
}

#[test]
fn other_binaries_stay_empty() {
    let info = FileInfo::image_or_empty("a.bin", &[0, 1, 2, 3]);
    assert_eq!(info.content, None);
    assert_eq!(info.mime_type, None);
    assert_eq!(info.size, Some(4));
    let pdf = FileInfo::image_or_empty("a.pdf", b"%PDF-1.7\n");
    assert_eq!(pdf.content, None);
    assert_eq!(pdf.mime_type, None);
}

#[test]
fn content_is_sorted_by_its_look() {
    let text = FileInfo::from_content_with("a.txt", b"plain", false);
    assert_eq!(text.content.as_deref(), Some("plain"));
    let image = FileInfo::from_content_with("a.png", &PNG, true);
    assert_eq!(image.mime_type.as_deref(), Some("image/png"));
}

#[test]
fn content_is_probed_for_binary_statistics() {
    assert!(!FileInfo::is_binary(b"plain text\nwith lines\r\n"));
    assert!(FileInfo::is_binary(b"nul \0 inside"));
    assert!(FileInfo::is_binary(b"lone \r carriage return"));
    // Only the first 8000 bytes are looked at.
    let mut late = vec![b'a'; 8000];
    late.push(0);
    assert!(!FileInfo::is_binary(&late));
    late[7999] = 0;
    assert!(FileInfo::is_binary(&late));
    let text = FileInfo::from_content("a.txt", b"plain");
    assert_eq!(text.content.as_deref(), Some("plain"));
    assert_eq!(text.mime_type, None);
    let image = FileInfo::from_content("a.png", &PNG);
    assert_eq!(image.mime_type.as_deref(), Some("image/png"));
    let blob = FileInfo::from_content("a.bin", &[0, 159, 146, 150]);
    assert_eq!(blob.content, None);
    assert_eq!(blob.size, Some(4));
}

#[test]
fn sniffed_type_decides() {
    let kind = InferredType { is_image: false, mime_type: "application/zip".to_string() };
    let info = FileInfo::image_or_empty_from("a.zip", &[1, 2], Some(kind));
    assert_eq!(info.content, None);
    assert_eq!(info.mime_type, None);
    let kind = InferredType { is_image: true, mime_type: "image/x".to_string() };
    let info = FileInfo::image_or_empty_from("a.x", &[1, 2], Some(kind));
    assert_eq!(info.content.as_deref(), Some("AQI="));
    assert_eq!(info.mime_type.as_deref(), Some("image/x"));
}
