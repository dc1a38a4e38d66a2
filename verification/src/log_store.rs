//! The log of a session, and the dump an error leaves behind.
use crate::error::{self, Errx, Fault, Resultx};
use crate::logging::store::LogLevel;
use crate::path::{self, FilePath};
use crate::text::{self, cat, cat3, decimal, pad};
use std::str::FromStr;
use vstd::prelude::*;
use vstd::string::StringExecFns;

verus! {

broadcast use {vstd::seq::group_seq_axioms, vstd::seq_lib::group_seq_properties};

/// Which entries reach the log: those at this level and above.
#[derive(Debug, Clone, Copy, PartialEq, Eq, Structural)]
pub enum LevelFilter {
    Off,
    Error,
    Warn,
    Info,
    Debug,
    Trace,
}

/// The filter with this name, whatever case its letters are in.
pub open spec fn filter_named(name: Seq<char>) -> Option<LevelFilter> {
    let lowered = text::ascii_lowered(name);
    if lowered == "off"@ {
        Some(LevelFilter::Off)
    } else if lowered == "error"@ {
        Some(LevelFilter::Error)
    } else if lowered == "warn"@ {
        Some(LevelFilter::Warn)
    } else if lowered == "info"@ {
        Some(LevelFilter::Info)
    } else if lowered == "debug"@ {
        Some(LevelFilter::Debug)
    } else if lowered == "trace"@ {
        Some(LevelFilter::Trace)
    } else {
        None
    }
}

/// `log::LevelFilter::from_str`: the filter whose name this is, ignoring the case of
/// ASCII letters, and an error for any other text.
#[verifier::external_body]
fn parse_filter(name: &str) -> (filter: Option<LevelFilter>)
    ensures
        filter == filter_named(name@),
{
    match log::LevelFilter::from_str(name) {
        Ok(log::LevelFilter::Off) => Some(LevelFilter::Off),
        Ok(log::LevelFilter::Error) => Some(LevelFilter::Error),
        Ok(log::LevelFilter::Warn) => Some(LevelFilter::Warn),
        Ok(log::LevelFilter::Info) => Some(LevelFilter::Info),
        Ok(log::LevelFilter::Debug) => Some(LevelFilter::Debug),
        Ok(log::LevelFilter::Trace) => Some(LevelFilter::Trace),
        Err(_) => None,
    }
}

/// The filter that `rust_log` asks for: `info` when it asks for none.
pub open spec fn filter_wanted(rust_log: Option<Seq<char>>) -> LevelFilter {
    match rust_log {
        Some(name) => match filter_named(name) {
            Some(filter) => filter,
            None => LevelFilter::Info,
        },
        None => LevelFilter::Info,
    }
}

/// What the log is filtered by, once it has been installed. `installed` says whether
/// it could be.
pub fn init_logger(rust_log: Option<String>, installed: Result<(), Fault>) -> (filter: Resultx<
    LevelFilter,
>)
    ensures
        match (installed, filter) {
            (Ok(()), Ok(filter)) => filter == filter_wanted(
                match rust_log {
                    Some(name) => Some(name@),
                    None => None,
                },
            ),
            (Err(fault), Err(errx)) => {
                &&& errx@ == error::over(
                    error::KindxView::Any("failed to initialize logging"@),
                    fault@,
                )
                &&& errx.traced()
            },
            _ => false,
        },
{
    let wanted = match rust_log {
        Some(name) => match parse_filter(name.as_str()) {
            Some(filter) => filter,
            None => LevelFilter::Info,
        },
        None => LevelFilter::Info,
    };
    match installed {
        Ok(()) => Ok(wanted),
        Err(fault) => Err(Errx::e_any(fault, "failed to initialize logging".to_owned())),
    }
}

/// One file per running navigator, so two of them side by side do not overwrite
/// each other's dump.
pub fn default_dump_path(temp_dir: &FilePath, process: u32) -> (path: FilePath)
    ensures
        path@ == path::join(
            temp_dir@,
            vstd::utf8::encode_utf8("nav-"@ + text::decimal_text(process as nat) + ".log"@),
        ),
{
    temp_dir.join(cat3("nav-", decimal(process as u64).as_str(), ".log").as_str())
}

/// One entry. Times are in nanoseconds on a clock that never goes back.
#[derive(Debug)]
pub struct LogEntry {
    pub level: LogLevel,
    pub message: String,
    pub timestamp: u64,
}

/// One entry over its message.
pub struct LogEntryView {
    pub level: LogLevel,
    pub message: Seq<char>,
    pub timestamp: u64,
}

impl View for LogEntry {
    type V = LogEntryView;

    open spec fn view(&self) -> LogEntryView {
        LogEntryView {
            level: self.level,
            message: self.message@,
            timestamp: self.timestamp,
        }
    }
}

impl Clone for LogEntry {
    fn clone(&self) -> (copy: Self)
        ensures
            copy@ == self@,
    {
        LogEntry {
            level: self.level,
            message: self.message.clone(),
            timestamp: self.timestamp,
        }
    }
}

/// The entries over their messages.
pub open spec fn log_views(entries: Seq<LogEntry>) -> Seq<LogEntryView> {
    Seq::new(entries.len(), |i: int| entries[i]@)
}

/// What is to be written to disk, and where.
#[derive(Debug)]
pub struct Dump {
    pub path: FilePath,
    pub text: String,
}

/// The time from `start` to `time`, or none where `time` is before it.
pub open spec fn since(start: u64, time: u64) -> u64 {
    if time > start {
        (time - start) as u64
    } else {
        0
    }
}

/// A time in seconds with three decimals, right-aligned in eight columns, as
/// `format!("{:>8.3}")` writes it.
pub uninterp spec fn seconds_text(seconds: u64, nanos: u32) -> Seq<char>;

/// `format!("{:>8.3}")` of `Duration::as_secs_f64`: the time in seconds with three
/// decimals, right-aligned in eight columns.
#[verifier::external_body]
fn written_seconds(seconds: u64, nanos: u32) -> (text: String)
    requires
        nanos < 1_000_000_000,
    ensures
        text@ == seconds_text(seconds, nanos),
{
    format!("{:>8.3}", std::time::Duration::new(seconds, nanos).as_secs_f64())
}

/// A time in nanoseconds as the dump writes it.
pub open spec fn time_text(nanos: u64) -> Seq<char> {
    seconds_text(nanos / 1_000_000_000, (nanos % 1_000_000_000) as u32)
}

/// One line of the dump: how far into the session the entry was logged, then its
/// level and message.
pub open spec fn dump_line(time: Seq<char>, entry: LogEntryView) -> Seq<char> {
    time + "s "@ + text::padded(entry.level.name(), 5) + " "@ + entry.message + "\n"@
}

/// The dump: one line per entry.
pub open spec fn dump_text(entries: Seq<LogEntryView>, start: u64) -> Seq<char>
    decreases entries.len(),
{
    if entries.len() == 0 {
        Seq::empty()
    } else {
        let last = entries.last();
        dump_text(entries.drop_last(), start) + dump_line(
            time_text(since(start, last.timestamp)),
            last,
        )
    }
}

/// One line of the dump, once its time is written out.
pub fn dumped_line(time: &str, entry: &LogEntry) -> (line: String)
    ensures
        line@ == dump_line(time@, entry@),
{
    let mut line = cat3(time, "s ", pad(entry.level.as_str(), 5).as_str());
    line.append(" ");
    line.append(entry.message.as_str());
    line.append("\n");
    line
}

/// One line per entry: how far into the session it was logged, then its level and
/// message.
pub fn render(entries: &Vec<LogEntry>, start: u64) -> (out: String)
    ensures
        out@ == dump_text(log_views(entries@), start),
{
    let ghost all = log_views(entries@);
    let mut out = String::new();
    let mut i: usize = 0;
    while i < entries.len()
        invariant
            i <= entries@.len(),
            all == log_views(entries@),
            out@ == dump_text(all.take(i as int), start),
        decreases entries.len() - i,
    {
        proof {
            assert(all.take(i as int + 1).drop_last() =~= all.take(i as int));
            assert(all.take(i as int + 1).last() == entries@[i as int]@);
        }
        let nanos: u64 = entries[i].timestamp.saturating_sub(start);
        let time = written_seconds(nanos / 1_000_000_000, (nanos % 1_000_000_000) as u32);
        out.append(dumped_line(time.as_str(), &entries[i]).as_str());
        i = i + 1;
    }
    proof {
        assert(all.take(i as int) =~= all);
    }
    out
}

#[derive(Debug)]
pub struct LogStore {
    /// The whole session. Nothing is dropped: the navigator is launched per
    /// invocation and exits when a file is opened, so a session's log stays small,
    /// and a dump missing its beginning is the half you usually need.
    entries: Vec<LogEntry>,
    start_time: u64,
    dump_path: FilePath,
    /// Whether the log has been told where the dump goes.
    announced: bool,
}

/// The log over its texts.
pub struct LogStoreView {
    pub entries: Seq<LogEntryView>,
    pub start_time: u64,
    pub dump_path: Seq<u8>,
    pub announced: bool,
}

impl View for LogStore {
    type V = LogStoreView;

    closed spec fn view(&self) -> LogStoreView {
        LogStoreView {
            entries: log_views(self.entries@),
            start_time: self.start_time,
            dump_path: self.dump_path@,
            announced: self.announced,
        }
    }
}

/// Whether an entry at this level is kept.
pub open spec fn kept(level: LogLevel) -> bool {
    level != LogLevel::Trace
}

/// The entry that names the dump.
pub open spec fn announcement(s: LogStoreView, now: u64) -> LogEntryView {
    LogEntryView {
        level: LogLevel::Warn,
        message: "full log: "@ + text::lossy_text(s.dump_path),
        timestamp: now,
    }
}

/// The log with one more entry. An error is preceded by the name of the dump, the
/// first time.
pub open spec fn logged(
    s: LogStoreView,
    level: LogLevel,
    message: Seq<char>,
    now: u64,
) -> LogStoreView {
    let entry = LogEntryView { level, message, timestamp: now };
    if !kept(level) {
        s
    } else if level == LogLevel::Error && !s.announced {
        LogStoreView {
            entries: s.entries.push(announcement(s, now)).push(entry),
            announced: true,
            ..s
        }
    } else {
        LogStoreView { entries: s.entries.push(entry), ..s }
    }
}

impl LogStore {
    pub fn new(dump_path: FilePath, now: u64) -> (store: Self)
        ensures
            store@ == (LogStoreView {
                entries: Seq::empty(),
                start_time: now,
                dump_path: dump_path@,
                announced: false,
            }),
    {
        let store = LogStore {
            entries: Vec::new(),
            start_time: now,
            dump_path,
            announced: false,
        };
        proof {
            assert(store@.entries =~= Seq::empty());
        }
        store
    }

    /// How many entries there are, to which the log panel clamps its scroll.
    pub fn len(&self) -> (count: usize)
        ensures
            count == self@.entries.len(),
    {
        self.entries.len()
    }

    pub fn entries(&self) -> (all: Vec<LogEntry>)
        ensures
            log_views(all@) == self@.entries,
    {
        let mut all: Vec<LogEntry> = Vec::new();
        let mut i: usize = 0;
        while i < self.entries.len()
            invariant
                i <= self.entries@.len(),
                all@.len() == i,
                forall|k: int| 0 <= k < i ==> (#[trigger] all@[k])@ == self.entries@[k]@,
            decreases self.entries.len() - i,
        {
            all.push(self.entries[i].clone());
            i = i + 1;
        }
        proof {
            assert(log_views(all@) =~= self@.entries);
        }
        all
    }

    /// The entry at `row`, the oldest first.
    pub fn entry(&self, row: usize) -> (entry: &LogEntry)
        requires
            row < self@.entries.len(),
        ensures
            entry@ == self@.entries[row as int],
    {
        &self.entries[row]
    }

    pub fn latest(&self) -> (entry: Option<LogEntry>)
        ensures
            match entry {
                Some(entry) => self@.entries.len() > 0 && entry@ == self@.entries.last(),
                None => self@.entries.len() == 0,
            },
    {
        if self.entries.len() == 0 {
            None
        } else {
            Some(self.entries[self.entries.len() - 1].clone())
        }
    }

    /// How far into the session an entry was written, in nanoseconds.
    pub fn elapsed_since(&self, entry: &LogEntry) -> (nanos: u64)
        ensures
            nanos == since(self@.start_time, entry@.timestamp),
    {
        entry.timestamp.saturating_sub(self.start_time)
    }

    /// How long the session has lasted, in nanoseconds.
    pub fn time_since_start(&self, now: u64) -> (nanos: u64)
        ensures
            nanos == since(self@.start_time, now),
    {
        now.saturating_sub(self.start_time)
    }

    fn push(&mut self, level: LogLevel, message: String, now: u64)
        ensures
            final(self)@ == (LogStoreView {
                entries: old(self)@.entries.push(
                    (LogEntryView { level, message: message@, timestamp: now }),
                ),
                ..old(self)@
            }),
    {
        self.entries.push(LogEntry { level, message, timestamp: now });
        proof {
            assert(self@.entries =~= old(self)@.entries.push(
                (LogEntryView { level, message: message@, timestamp: now }),
            ));
        }
    }

    /// Names the dump file once, and just before the error that calls for it, so
    /// the error itself is still the last line the status line shows.
    fn announce_dump(&mut self, now: u64)
        ensures
            final(self)@ == if old(self)@.announced {
                old(self)@
            } else {
                LogStoreView {
                    entries: old(self)@.entries.push(announcement(old(self)@, now)),
                    announced: true,
                    ..old(self)@
                }
            },
    {
        if self.announced {
            return ;
        }
        self.announced = true;
        let message = cat("full log: ", self.dump_path.display().as_str());
        self.push(LogLevel::Warn, message, now);
    }

    /// The session written out, so the log outlives the screen it was drawn on.
    ///
    /// Rewritten whole on each error rather than appended to: whichever error
    /// wrote it last, the file is the complete session up to that point.
    fn dump(&self) -> (dump: Dump)
        ensures
            dump.path@ == self@.dump_path,
            dump.text@ == dump_text(self@.entries, self@.start_time),
    {
        Dump { path: self.dump_path.clone(), text: render(&self.entries, self.start_time) }
    }

    /// Whether an entry at this level is kept.
    pub fn enabled(&self, level: LogLevel) -> (is: bool)
        ensures
            is == kept(level),
    {
        level != LogLevel::Trace
    }

    /// Takes an entry. An error asks for the dump to be written.
    pub fn log(&mut self, level: LogLevel, message: String, now: u64) -> (dump: Option<Dump>)
        ensures
            final(self)@ == logged(old(self)@, level, message@, now),
            match dump {
                Some(dump) => {
                    &&& level == LogLevel::Error
                    &&& dump.path@ == final(self)@.dump_path
                    &&& dump.text@ == dump_text(final(self)@.entries, final(self)@.start_time)
                },
                None => level != LogLevel::Error,
            },
    {
        if !self.enabled(level) {
            return None;
        }
        let failed = level == LogLevel::Error;
        if failed {
            self.announce_dump(now);
        }
        self.push(level, message, now);
        if failed {
            Some(self.dump())
        } else {
            None
        }
    }

    /// Takes note that the dump could not be written, and why. That asks for no
    /// further dump, which would only fail again.
    pub fn dump_failed(&mut self, fault: &Fault, now: u64)
        ensures
            final(self)@ == (LogStoreView {
                entries: old(self)@.entries.push(
                    (LogEntryView {
                        level: LogLevel::Warn,
                        message: "could not write "@ + text::lossy_text(old(self)@.dump_path)
                            + ": "@ + fault@.text,
                        timestamp: now,
                    }),
                ),
                ..old(self)@
            }),
    {
        let mut message = cat3("could not write ", self.dump_path.display().as_str(), ": ");
        message.append(fault.text.as_str());
        self.push(LogLevel::Warn, message, now);
    }
}

/// After an error, that error is the latest entry, whatever came before.
pub proof fn law_the_error_is_the_latest_entry(s: LogStoreView, message: Seq<char>, now: u64)
    ensures
        logged(s, LogLevel::Error, message, now).entries.last() == (LogEntryView {
            level: LogLevel::Error,
            message,
            timestamp: now,
        }),
        logged(s, LogLevel::Error, message, now).announced,
{
}

/// Nothing is ever dropped: what was logged before is still there, in its place.
pub proof fn law_nothing_is_dropped(
    s: LogStoreView,
    level: LogLevel,
    message: Seq<char>,
    now: u64,
)
    ensures
        s.entries.is_prefix_of(logged(s, level, message, now).entries),
{
}

/// Once the dump has been named it is not named again: from then on every entry
/// adds itself and nothing else.
pub proof fn law_the_dump_is_named_once(
    s: LogStoreView,
    level: LogLevel,
    message: Seq<char>,
    now: u64,
)
    requires
        s.announced,
    ensures
        logged(s, level, message, now).announced,
        logged(s, level, message, now).entries.len() <= s.entries.len() + 1,
{
}

/// The dump holds what every entry says, in full.
pub proof fn law_the_dump_holds_every_entry(entries: Seq<LogEntryView>, start: u64, row: int)
    requires
        0 <= row < entries.len(),
    ensures
        exists|before: Seq<char>, after: Seq<char>|
            dump_text(entries, start) == #[trigger] (before + entries[row].message + after),
    decreases entries.len(),
{
    let last = entries.last();
    let start_text = dump_text(entries.drop_last(), start);
    let time = time_text(since(start, last.timestamp));
    let line = dump_line(time, last);
    if row == entries.len() - 1 {
        let before = start_text + (time + "s "@ + text::padded(last.level.name(), 5) + " "@);
        assert(dump_text(entries, start) =~= (before + entries[row].message) + "\n"@);
    } else {
        law_the_dump_holds_every_entry(entries.drop_last(), start, row);
        let (before, after) = choose|before: Seq<char>, after: Seq<char>|
            start_text == #[trigger] (before + entries.drop_last()[row].message + after);
        assert(dump_text(entries, start) =~= (before + entries[row].message) + (after + line));
    }
}

/// Every message but a trace is the latest entry once it is logged, at its level and its
/// time. A trace leaves no entry. Only the first error adds another entry, which names the
/// dump.
pub proof fn law_what_is_logged_is_the_latest(
    s: LogStoreView,
    level: LogLevel,
    message: Seq<char>,
    now: u64,
)
    ensures
        level == LogLevel::Trace ==> logged(s, level, message, now) == s,
        level != LogLevel::Trace ==> ({
            let after = logged(s, level, message, now);
            &&& after.entries.len() > 0
            &&& after.entries.last() == (LogEntryView { level, message, timestamp: now })
            &&& after.entries.len() == s.entries.len() + if level == LogLevel::Error
                && !s.announced {
                2int
            } else {
                1
            }
            &&& after.entries.take(s.entries.len() as int) == s.entries
            &&& after.start_time == s.start_time && after.dump_path == s.dump_path
        }),
{
    let after = logged(s, level, message, now);
    if level != LogLevel::Trace {
        assert(after.entries.take(s.entries.len() as int) =~= s.entries);
    }
}

/// The log is filtered by the level that is asked for, whatever case it is written in, and
/// by `info` where none is.
pub proof fn law_which_filter_is_wanted(name: Seq<char>)
    ensures
        filter_wanted(None) == LevelFilter::Info,
        text::ascii_lowered(name) == "off"@ ==> filter_wanted(Some(name)) == LevelFilter::Off,
        text::ascii_lowered(name) == "error"@ ==> filter_wanted(Some(name)) == LevelFilter::Error,
        text::ascii_lowered(name) == "warn"@ ==> filter_wanted(Some(name)) == LevelFilter::Warn,
        text::ascii_lowered(name) == "info"@ ==> filter_wanted(Some(name)) == LevelFilter::Info,
        text::ascii_lowered(name) == "debug"@ ==> filter_wanted(Some(name)) == LevelFilter::Debug,
        text::ascii_lowered(name) == "trace"@ ==> filter_wanted(Some(name)) == LevelFilter::Trace,
{
    reveal_strlit("off");
    reveal_strlit("error");
    reveal_strlit("warn");
    reveal_strlit("info");
    reveal_strlit("debug");
    reveal_strlit("trace");
    let off = "off"@;
    let error = "error"@;
    let warn = "warn"@;
    let info = "info"@;
    let debug = "debug"@;
    let trace = "trace"@;
    assert(off.len() == 3 && error.len() == 5 && warn.len() == 4 && info.len() == 4 && debug.len()
        == 5 && trace.len() == 5);
    assert(error[0] == 'e' && debug[0] == 'd' && trace[0] == 't' && warn[0] == 'w' && info[0]
        == 'i');
}

/// The dump has one line for each entry, in their order: how long after the start it came,
/// its level and its message.
pub proof fn law_the_dump_has_a_line_for_each(
    entries: Seq<LogEntryView>,
    more: Seq<LogEntryView>,
    one: LogEntryView,
    start: u64,
)
    requires
        start <= one.timestamp,
    ensures
        dump_text(entries + more, start) == dump_text(entries, start) + dump_text(more, start),
        ({
            let elapsed = (one.timestamp - start) as u64;
            dump_text(seq![one], start) == seconds_text(
                (elapsed / 1_000_000_000) as u64,
                (elapsed % 1_000_000_000) as u32,
            ) + "s "@ + text::padded(one.level.name(), 5) + " "@ + one.message + "\n"@
        }),
    decreases more.len(),
{
    let first = seq![one];
    assert(first.drop_last() =~= Seq::empty());
    assert(dump_text(first.drop_last(), start) =~= Seq::empty());
    assert(dump_text(first, start) =~= dump_line(time_text(since(start, one.timestamp)), one));
    if more.len() == 0 {
        assert(entries + more =~= entries);
        assert(dump_text(entries, start) + dump_text(more, start) =~= dump_text(entries, start));
    } else {
        law_the_dump_has_a_line_for_each(entries, more.drop_last(), one, start);
        assert((entries + more).drop_last() =~= entries + more.drop_last());
        assert((entries + more).last() == more.last());
        let line = dump_line(time_text(since(start, more.last().timestamp)), more.last());
        assert(dump_text(entries + more, start) =~= dump_text(entries, start) + (dump_text(
            more.drop_last(),
            start,
        ) + line));
    }
}

} // verus!
