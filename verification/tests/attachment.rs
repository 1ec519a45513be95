use robinne::attachment::{
    attachment_backend_label, attachment_status_label, format_attachment_meta,
    image_format_from_mime_type, record_type_label, AttachmentFilter, PendingAttachment,
    SourceImageFormat,
};
use robinne::models::{AttachmentStatus, AttachmentStorageBackend, RecordType};

fn attachment(width: u32, height: u32, file_size: usize) -> PendingAttachment {
    PendingAttachment {
        path: "/tmp/draft.png".to_string(),
        file_name: "draft.png".to_string(),
        file_size,
        mime_type: "image/png".to_string(),
        width,
        height,
    }
}

#[test]
fn attachment_meta_shows_pixels_and_size() {
    assert_eq!(format_attachment_meta(&attachment(120, 80, 255)), "120 × 80 · 255 B");
    assert_eq!(
        format_attachment_meta(&attachment(1024, 2048, 1536)),
        "1024 × 2048 · 1.5 KB"
    );
}

#[test]
fn mime_types_map_to_supported_formats() {
    assert_eq!(image_format_from_mime_type("image/png"), Some(SourceImageFormat::Png));
    assert_eq!(image_format_from_mime_type("image/jpeg"), Some(SourceImageFormat::Jpeg));
    assert_eq!(image_format_from_mime_type("image/gif"), Some(SourceImageFormat::Gif));
    assert_eq!(image_format_from_mime_type("image/webp"), Some(SourceImageFormat::WebP));
    assert_eq!(image_format_from_mime_type("image/bmp"), None);
    assert_eq!(image_format_from_mime_type("IMAGE/PNG"), None);
}

#[test]
fn attachment_filters_and_labels() {
    assert!(AttachmentFilter::All.matches(AttachmentStatus::Failed));
    assert!(AttachmentFilter::Ready.matches(AttachmentStatus::Ready));
    assert!(!AttachmentFilter::Ready.matches(AttachmentStatus::Processing));
    assert_eq!(AttachmentFilter::Processing.label(), "处理中");
    assert_eq!(record_type_label(RecordType::Note), "记录");
    assert_eq!(attachment_status_label(AttachmentStatus::Failed), "失败");
    assert_eq!(
        attachment_backend_label(AttachmentStorageBackend::FilePathFallback),
        "路径回退"
    );
}
