//! The checks that come before a summary is requested: a date range is
//! picked, there is a context with records in it, and an API key is at hand.
use vstd::prelude::*;
use crate::strings::{chars_of, string_of};
use crate::text_preview::append_chars;

verus! {

/// What stops a summary from being requested.
#[derive(Clone, Copy, PartialEq, Eq, Debug, Structural)]
pub enum SummaryBlock {
    /// No start date is picked.
    MissingStartDate,
    /// No end date is picked.
    MissingEndDate,
    /// No context has been loaded for the filters.
    NoContext,
    /// The context holds no record.
    NoMatchingRecords,
}

/// The message shown for a block.
pub open spec fn block_message(b: SummaryBlock) -> Seq<char> {
    match b {
        SummaryBlock::MissingStartDate => "请选择开始日期"@,
        SummaryBlock::MissingEndDate => "请选择结束日期"@,
        SummaryBlock::NoContext => "当前没有可生成的上下文，请先调整筛选范围"@,
        SummaryBlock::NoMatchingRecords => "当前筛选范围内没有命中记录，无法生成总结"@,
    }
}

impl SummaryBlock {
    /// The message shown for the block.
    pub fn message(&self) -> (r: &'static str)
        ensures
            r@ == block_message(*self),
    {
        match self {
            SummaryBlock::MissingStartDate => "请选择开始日期",
            SummaryBlock::MissingEndDate => "请选择结束日期",
            SummaryBlock::NoContext => "当前没有可生成的上下文，请先调整筛选范围",
            SummaryBlock::NoMatchingRecords => "当前筛选范围内没有命中记录，无法生成总结",
        }
    }
}

/// The picked date range: the start date is asked for first, then the end
/// date.
pub fn picked_range<D>(start: Option<D>, end: Option<D>) -> (r: Result<(D, D), SummaryBlock>)
    ensures
        match (start, end) {
            (Some(s), Some(e)) => r == Ok::<(D, D), SummaryBlock>((s, e)),
            (None, _) => r == Err::<(D, D), SummaryBlock>(SummaryBlock::MissingStartDate),
            (Some(_), None) => r == Err::<(D, D), SummaryBlock>(SummaryBlock::MissingEndDate),
        },
{
    match start {
        None => Err(SummaryBlock::MissingStartDate),
        Some(s) => match end {
            None => Err(SummaryBlock::MissingEndDate),
            Some(e) => Ok((s, e)),
        },
    }
}

/// Whether the loaded context can be summarised: there must be one, and it
/// must hold at least one record. `preview_record_count` is the number of
/// records of the loaded context, if one is loaded.
pub fn context_check(preview_record_count: Option<usize>) -> (r: Result<(), SummaryBlock>)
    ensures
        match preview_record_count {
            None => r == Err::<(), SummaryBlock>(SummaryBlock::NoContext),
            Some(0) => r == Err::<(), SummaryBlock>(SummaryBlock::NoMatchingRecords),
            Some(_) => r == Ok::<(), SummaryBlock>(()),
        },
{
    match preview_record_count {
        None => Err(SummaryBlock::NoContext),
        Some(n) => if n == 0 {
            Err(SummaryBlock::NoMatchingRecords)
        } else {
            Ok(())
        },
    }
}

/// The message for a protocol whose API key is neither saved nor in the
/// environment variable `env_var`.
pub open spec fn missing_key_message(env_var: Seq<char>) -> Seq<char> {
    "当前协议还没有配置 API Key，请先去设置里保存本地 Key，或提供环境变量 "@ + env_var
}

/// The API key to send, or the message that asks for one when none is
/// stored for the protocol, whose environment variable is `env_var`.
pub fn api_key_check(stored: Option<String>, env_var: &str) -> (r: Result<String, String>)
    ensures
        match stored {
            Some(k) => r matches Ok(v) && v@ == k@,
            None => r matches Err(m) && m@ == missing_key_message(env_var@),
        },
{
    match stored {
        Some(k) => Ok(k),
        None => {
            let mut v = chars_of("当前协议还没有配置 API Key，请先去设置里保存本地 Key，或提供环境变量 ");
            append_chars(&mut v, chars_of(env_var).as_slice());
            Err(string_of(v.as_slice()))
        },
    }
}

} // verus!
