//! The text, filter and list logic of a local task and note taking
//! application: its quick-input syntax, tag and person completion, search and
//! task filters, and how records, sizes and times are shown.
use vstd::prelude::*;

pub mod unicode;
pub mod strings;
pub mod models;
pub mod parsing;
pub mod ordering;
pub mod metadata_autocomplete;
pub mod attachment;
pub mod quick_add;
pub mod number_format;
pub mod name_set;
pub mod metadata_filters;
pub mod search;
pub mod search_requests;
pub mod text_preview;
pub mod record_display;
pub mod task_filters;
pub mod search_text;
pub mod dates;
pub mod tasks;
pub mod import_review;
pub mod summary_guard;

verus! {

} // verus!
