//! Messages for the log.
use crate::logging::store::LogLevel;
use vstd::prelude::*;

verus! {

broadcast use {vstd::seq::group_seq_axioms, vstd::seq_lib::group_seq_properties};

/// One message for the log.
#[derive(Debug)]
pub struct Notice {
    pub level: LogLevel,
    pub text: String,
}

/// A message over its text.
pub struct NoticeView {
    pub level: LogLevel,
    pub text: Seq<char>,
}

impl View for Notice {
    type V = NoticeView;

    open spec fn view(&self) -> NoticeView {
        NoticeView { level: self.level, text: self.text@ }
    }
}

/// The messages over their texts.
pub open spec fn notice_views(notices: Seq<Notice>) -> Seq<NoticeView> {
    Seq::new(notices.len(), |i: int| notices[i]@)
}

/// A message at `level`.
pub open spec fn said(level: LogLevel, text: Seq<char>) -> NoticeView {
    NoticeView { level, text }
}

pub open spec fn error(text: Seq<char>) -> NoticeView {
    said(LogLevel::Error, text)
}

pub open spec fn warn(text: Seq<char>) -> NoticeView {
    said(LogLevel::Warn, text)
}

pub open spec fn info(text: Seq<char>) -> NoticeView {
    said(LogLevel::Info, text)
}

pub open spec fn debug(text: Seq<char>) -> NoticeView {
    said(LogLevel::Debug, text)
}

/// Adds a message.
pub fn say(notices: &mut Vec<Notice>, level: LogLevel, text: String)
    ensures
        notice_views(final(notices)@) == notice_views(old(notices)@).push(said(level, text@)),
{
    notices.push(Notice { level, text });
    proof {
        assert(notice_views(notices@) =~= notice_views(old(notices)@).push(said(level, text@)));
    }
}

} // verus!
