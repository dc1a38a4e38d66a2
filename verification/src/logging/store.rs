//! The latest entries of the log, and how far into the session each was written.
use crate::error::Fault;
use crate::log_store::{self, LevelFilter};
use vstd::prelude::*;

verus! {

broadcast use {vstd::seq::group_seq_axioms, vstd::seq_lib::group_seq_properties};

/// How many entries are kept.
pub const MAX_LOG_ENTRIES: usize = 1000;

/// How serious an entry is, the most serious first.
#[derive(Debug, Clone, Copy, PartialEq, Eq, Structural)]
pub enum LogLevel {
    Error,
    Warn,
    Info,
    Debug,
    Trace,
}

impl LogLevel {
    /// The level's name.
    pub open spec fn name(self) -> Seq<char> {
        match self {
            LogLevel::Error => "ERROR"@,
            LogLevel::Warn => "WARN"@,
            LogLevel::Info => "INFO"@,
            LogLevel::Debug => "DEBUG"@,
            LogLevel::Trace => "TRACE"@,
        }
    }

    /// The level's name.
    pub fn as_str(&self) -> (name: &'static str)
        ensures
            name@ == self.name(),
    {
        match self {
            LogLevel::Error => "ERROR",
            LogLevel::Warn => "WARN",
            LogLevel::Info => "INFO",
            LogLevel::Debug => "DEBUG",
            LogLevel::Trace => "TRACE",
        }
    }
}

/// One entry. Times are in nanoseconds on a clock that never goes back.
#[derive(Debug)]
pub struct LogEntry {
    pub level: LogLevel,
    pub message: String,
    pub timestamp: u64,
    /// Which part of the program wrote it.
    pub target: String,
}

/// One entry over its texts.
pub struct LogEntryView {
    pub level: LogLevel,
    pub message: Seq<char>,
    pub timestamp: u64,
    pub target: Seq<char>,
}

impl View for LogEntry {
    type V = LogEntryView;

    open spec fn view(&self) -> LogEntryView {
        LogEntryView {
            level: self.level,
            message: self.message@,
            timestamp: self.timestamp,
            target: self.target@,
        }
    }
}

impl Clone for LogEntry {
    fn clone(&self) -> (copy: Self)
        ensures
            copy@ == self@,
    {
        LogEntry {
            level: self.level,
            message: self.message.clone(),
            timestamp: self.timestamp,
            target: self.target.clone(),
        }
    }
}

/// The entries over their texts.
pub open spec fn entry_views(entries: Seq<LogEntry>) -> Seq<LogEntryView> {
    Seq::new(entries.len(), |i: int| entries[i]@)
}

#[derive(Debug)]
pub struct LogStore {
    entries: Vec<LogEntry>,
    start_time: u64,
}

/// The log over its texts.
pub struct LogStoreView {
    pub entries: Seq<LogEntryView>,
    pub start_time: u64,
}

impl View for LogStore {
    type V = LogStoreView;

    closed spec fn view(&self) -> LogStoreView {
        LogStoreView { entries: entry_views(self.entries@), start_time: self.start_time }
    }
}

impl LogStoreView {
    /// No more entries than are to be kept.
    pub open spec fn wf(self) -> bool {
        self.entries.len() <= MAX_LOG_ENTRIES
    }
}

/// The entries with one more, and the oldest gone where there would be too many.
pub open spec fn pushed(entries: Seq<LogEntryView>, entry: LogEntryView) -> Seq<LogEntryView> {
    if entries.len() >= MAX_LOG_ENTRIES {
        entries.drop_first().push(entry)
    } else {
        entries.push(entry)
    }
}

impl LogStore {
    pub fn new(now: u64) -> (store: Self)
        ensures
            store@ == (LogStoreView { entries: Seq::empty(), start_time: now }),
    {
        let store = LogStore { entries: Vec::new(), start_time: now };
        proof {
            assert(store@.entries =~= Seq::empty());
        }
        store
    }

    pub fn entries(&self) -> (all: Vec<LogEntry>)
        ensures
            entry_views(all@) == self@.entries,
    {
        let mut all: Vec<LogEntry> = Vec::new();
        let mut i: usize = 0;
        while i < self.entries.len()
            invariant
                i <= self.entries@.len(),
                all@.len() == i,
                forall|k: int| 0 <= k < i ==> (#[trigger] all@[k])@ == self.entries@[k]@,
            decreases self.entries.len() - i,
        {
            all.push(self.entries[i].clone());
            i = i + 1;
        }
        proof {
            assert(entry_views(all@) =~= self@.entries);
        }
        all
    }

    pub fn latest(&self) -> (entry: Option<LogEntry>)
        ensures
            match entry {
                Some(entry) => self@.entries.len() > 0 && entry@ == self@.entries.last(),
                None => self@.entries.len() == 0,
            },
    {
        if self.entries.len() == 0 {
            None
        } else {
            Some(self.entries[self.entries.len() - 1].clone())
        }
    }

    /// How far into the session an entry was written, in nanoseconds.
    pub fn elapsed_since(&self, entry: &LogEntry) -> (nanos: u64)
        ensures
            nanos == log_store::since(self@.start_time, entry@.timestamp),
    {
        entry.timestamp.saturating_sub(self.start_time)
    }

    /// How long the session has lasted, in nanoseconds.
    pub fn time_since_start(&self, now: u64) -> (nanos: u64)
        ensures
            nanos == log_store::since(self@.start_time, now),
    {
        now.saturating_sub(self.start_time)
    }

    fn push(&mut self, entry: LogEntry)
        ensures
            final(self)@ == (LogStoreView {
                entries: pushed(old(self)@.entries, entry@),
                ..old(self)@
            }),
    {
        if self.entries.len() >= MAX_LOG_ENTRIES {
            let _ = self.entries.remove(0);
        }
        self.entries.push(entry);
        proof {
            assert(self@.entries =~= pushed(old(self)@.entries, entry@));
        }
    }

    /// Whether an entry at this level is kept.
    pub fn enabled(&self, level: LogLevel) -> (is: bool)
        ensures
            is == log_store::kept(level),
    {
        level != LogLevel::Trace
    }

    /// Takes an entry.
    pub fn log(&mut self, level: LogLevel, message: String, target: String, now: u64)
        ensures
            final(self)@ == if log_store::kept(level) {
                LogStoreView {
                    entries: pushed(
                        old(self)@.entries,
                        (LogEntryView {
                            level,
                            message: message@,
                            timestamp: now,
                            target: target@,
                        }),
                    ),
                    ..old(self)@
                }
            } else {
                old(self)@
            },
    {
        if self.enabled(level) {
            self.push(LogEntry { level, message, timestamp: now, target });
        }
    }
}

/// What the log is filtered by, once it has been installed. `installed` says whether
/// it could be.
pub fn init_logger(installed: Result<(), Fault>) -> (filter: Result<LevelFilter, Fault>)
    ensures
        match (installed, filter) {
            (Ok(()), Ok(filter)) => filter == LevelFilter::Debug,
            (Err(fault), Err(given)) => given@ == fault@,
            _ => false,
        },
{
    match installed {
        Ok(()) => Ok(LevelFilter::Debug),
        Err(fault) => Err(fault),
    }
}

/// However much is logged, no more is kept than there is room for, and what was
/// logged last is the latest.
pub proof fn law_the_log_stays_bounded(entries: Seq<LogEntryView>, entry: LogEntryView)
    requires
        entries.len() <= MAX_LOG_ENTRIES,
    ensures
        pushed(entries, entry).len() <= MAX_LOG_ENTRIES,
        pushed(entries, entry).last() == entry,
        entries.len() < MAX_LOG_ENTRIES ==> pushed(entries, entry) == entries.push(entry),
{
}

/// The entries that are kept are the latest: what is logged comes last, and when there is no
/// more room it is the oldest that goes.
pub proof fn law_the_oldest_entry_goes_first(entries: Seq<LogEntryView>, entry: LogEntryView)
    requires
        entries.len() <= 1000,
    ensures
        entries.len() < 1000 ==> pushed(entries, entry) == entries.push(entry),
        entries.len() == 1000 ==> pushed(entries, entry) == entries.skip(1).push(entry),
{
    if entries.len() == 1000 {
        assert(entries.drop_first() =~= entries.skip(1));
    }
}

} // verus!
