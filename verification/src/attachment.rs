//! Images waiting to be attached, and the labels of stored attachments.
use vstd::prelude::*;
use crate::models::{AttachmentStatus, AttachmentStorageBackend, RecordType};
use crate::number_format::{decimal, decimal_chars, file_size_text, format_file_size};
use crate::strings::{chars_of, string_of, text_equals};
use crate::text_preview::append_chars;

verus! {

/// An image picked for attachment, with what the editor shows of it.
#[derive(Debug)]
pub struct PendingAttachment {
    pub path: String,
    pub file_name: String,
    pub file_size: usize,
    pub mime_type: String,
    pub width: u32,
    pub height: u32,
}

/// `W × H · SIZE`, the line under an attachment.
pub open spec fn attachment_meta_text(width: u32, height: u32, file_size: usize) -> Seq<char> {
    decimal(width as nat) + seq![' ', '×', ' '] + decimal(height as nat) + seq![' ', '·', ' ']
        + file_size_text(file_size as nat)
}

/// The line under an attachment: its pixel size and its file size.
pub fn format_attachment_meta(attachment: &PendingAttachment) -> (r: String)
    ensures
        r@ == attachment_meta_text(attachment.width, attachment.height, attachment.file_size),
{
    let mut v = decimal_chars(attachment.width as u128);
    v.push(' ');
    v.push('×');
    v.push(' ');
    append_chars(&mut v, decimal_chars(attachment.height as u128).as_slice());
    v.push(' ');
    v.push('·');
    v.push(' ');
    let size = format_file_size(attachment.file_size);
    append_chars(&mut v, chars_of(size.as_str()).as_slice());
    string_of(v.as_slice())
}

/// The image formats an attachment can have.
#[derive(Clone, Copy, PartialEq, Eq, Debug, Structural)]
pub enum SourceImageFormat {
    Png,
    Jpeg,
    Gif,
    WebP,
}

/// The image format of a MIME type, if it is one of the four supported.
pub open spec fn format_of_mime(mime: Seq<char>) -> Option<SourceImageFormat> {
    if mime == "image/png"@ {
        Some(SourceImageFormat::Png)
    } else if mime == "image/jpeg"@ {
        Some(SourceImageFormat::Jpeg)
    } else if mime == "image/gif"@ {
        Some(SourceImageFormat::Gif)
    } else if mime == "image/webp"@ {
        Some(SourceImageFormat::WebP)
    } else {
        None
    }
}

/// The image format of a MIME type, if it is one of the four supported.
pub fn image_format_from_mime_type(mime_type: &str) -> (r: Option<SourceImageFormat>)
    ensures
        r == format_of_mime(mime_type@),
{
    if text_equals(mime_type, "image/png") {
        Some(SourceImageFormat::Png)
    } else if text_equals(mime_type, "image/jpeg") {
        Some(SourceImageFormat::Jpeg)
    } else if text_equals(mime_type, "image/gif") {
        Some(SourceImageFormat::Gif)
    } else if text_equals(mime_type, "image/webp") {
        Some(SourceImageFormat::WebP)
    } else {
        None
    }
}

/// The attachment list filter of the data panel.
#[derive(Clone, Copy, PartialEq, Eq, Debug, Structural)]
pub enum AttachmentFilter {
    All,
    Ready,
    Processing,
    Failed,
}

impl AttachmentFilter {
    /// The label of the filter.
    pub fn label(self) -> (r: &'static str)
        ensures
            r@ == match self {
                AttachmentFilter::All => "全部"@,
                AttachmentFilter::Ready => "可用"@,
                AttachmentFilter::Processing => "处理中"@,
                AttachmentFilter::Failed => "失败"@,
            },
    {
        match self {
            Self::All => "全部",
            Self::Ready => "可用",
            Self::Processing => "处理中",
            Self::Failed => "失败",
        }
    }

    /// Whether an attachment with `status` passes the filter.
    pub fn matches(self, status: AttachmentStatus) -> (r: bool)
        ensures
            r == match self {
                AttachmentFilter::All => true,
                AttachmentFilter::Ready => status == AttachmentStatus::Ready,
                AttachmentFilter::Processing => status == AttachmentStatus::Processing,
                AttachmentFilter::Failed => status == AttachmentStatus::Failed,
            },
    {
        match self {
            Self::All => true,
            Self::Ready => status == AttachmentStatus::Ready,
            Self::Processing => status == AttachmentStatus::Processing,
            Self::Failed => status == AttachmentStatus::Failed,
        }
    }
}

/// The label of a record kind in the data panel.
pub fn record_type_label(record_type: RecordType) -> (r: &'static str)
    ensures
        r@ == match record_type {
            RecordType::Task => "任务"@,
            RecordType::Note => "记录"@,
            RecordType::Event => "事件"@,
            RecordType::Idea => "想法"@,
        },
{
    match record_type {
        RecordType::Task => "任务",
        RecordType::Note => "记录",
        RecordType::Event => "事件",
        RecordType::Idea => "想法",
    }
}

/// The label of an attachment status.
pub fn attachment_status_label(status: AttachmentStatus) -> (r: &'static str)
    ensures
        r@ == match status {
            AttachmentStatus::Ready => "可用"@,
            AttachmentStatus::Processing => "处理中"@,
            AttachmentStatus::Failed => "失败"@,
        },
{
    match status {
        AttachmentStatus::Ready => "可用",
        AttachmentStatus::Processing => "处理中",
        AttachmentStatus::Failed => "失败",
    }
}

/// The label of where an attachment's bytes live.
pub fn attachment_backend_label(backend: AttachmentStorageBackend) -> (r: &'static str)
    ensures
        r@ == match backend {
            AttachmentStorageBackend::DatabaseBlob => "数据库内"@,
            AttachmentStorageBackend::FilePathFallback => "路径回退"@,
            AttachmentStorageBackend::NoPayload => "无可用内容"@,
        },
{
    match backend {
        AttachmentStorageBackend::DatabaseBlob => "数据库内",
        AttachmentStorageBackend::FilePathFallback => "路径回退",
        AttachmentStorageBackend::NoPayload => "无可用内容",
    }
}

} // verus!
