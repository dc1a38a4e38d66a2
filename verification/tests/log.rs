use navigator::error::Fault;
use navigator::log_store::{self, render, Dump, LevelFilter, LogEntry, LogStore};
use navigator::logging::store::{self, LogLevel, MAX_LOG_ENTRIES};
use navigator::path::FilePath;

/// A log with a place to dump it, and what was dumped there last.
struct Logged {
    store: LogStore,
    written: Option<Dump>,
}

fn store() -> Logged {
    Logged { store: LogStore::new(FilePath::new("/tmp/nav.log"), 0), written: None }
}

fn send(logged: &mut Logged, level: LogLevel, message: &str) {
    if let Some(dump) = logged.store.log(level, message.to_string(), 1) {
        logged.written = Some(dump);
    }
}

fn dumped(logged: &Logged) -> String {
    let dump = logged.written.as_ref().expect("the dump should have been written");
    assert_eq!(dump.path, FilePath::new("/tmp/nav.log"));
    dump.text.clone()
}

fn messages(logged: &Logged) -> Vec<String> {
    logged.store.entries().iter().map(|entry| entry.message.clone()).collect()
}

#[test]
fn a_session_that_goes_well_leaves_no_file_behind() {
    let mut store = store();

    send(&mut store, LogLevel::Info, "started");
    send(&mut store, LogLevel::Warn, "nothing serious");

    assert!(store.written.is_none());
}

#[test]
fn an_error_dumps_the_whole_session_not_just_the_error() {
    let mut store = store();

    send(&mut store, LogLevel::Info, "started");
    send(&mut store, LogLevel::Debug, "read a directory");
    send(&mut store, LogLevel::Error, "boom");

    let dump = dumped(&store);

    assert!(dump.contains("started"), "{dump}");
    assert!(dump.contains("read a directory"), "{dump}");
    assert!(dump.contains("boom"), "{dump}");
}

#[test]
fn the_log_says_where_the_dump_went() {
    let mut store = store();

    send(&mut store, LogLevel::Error, "boom");

    let path = "/tmp/nav.log";
    assert!(
        messages(&store)
            .iter()
            .any(|message| message.contains(path)),
        "the dump should be named in the log"
    );
}

#[test]
fn the_error_is_still_the_latest_thing_that_happened() {
    // The status line shows the latest entry, and that has to be the error
    // rather than the housekeeping note about where it was written.
    let mut store = store();

    send(&mut store, LogLevel::Error, "boom");

    assert_eq!(store.store.latest().unwrap().message, "boom");
}

#[test]
fn the_dump_is_named_once_however_many_errors_follow() {
    let mut store = store();

    send(&mut store, LogLevel::Error, "first");
    send(&mut store, LogLevel::Error, "second");
    send(&mut store, LogLevel::Error, "third");

    let path = "/tmp/nav.log";
    let mentions = messages(&store)
        .iter()
        .filter(|message| message.contains(path))
        .count();

    assert_eq!(mentions, 1);
}

#[test]
fn later_errors_keep_the_dump_up_to_date() {
    let mut store = store();

    send(&mut store, LogLevel::Error, "first");
    send(&mut store, LogLevel::Error, "second");

    let dump = dumped(&store);

    assert!(dump.contains("first"), "{dump}");
    assert!(dump.contains("second"), "{dump}");
}

#[test]
fn nothing_is_ever_dropped() {
    let mut store = store();

    for i in 0..5_000 {
        send(&mut store, LogLevel::Info, &format!("entry {i}"));
    }

    assert_eq!(store.store.len(), 5_000);
    assert_eq!(store.store.entries().first().unwrap().message, "entry 0");
}

#[test]
fn a_dumped_line_reads_as_time_level_message() {
    let start: u64 = 5_000_000_000;
    let entries = vec![
        LogEntry {
            level: LogLevel::Info,
            message: "started".into(),
            timestamp: start,
        },
        LogEntry {
            level: LogLevel::Error,
            message: "boom".into(),
            timestamp: start + 1_500_000_000,
        },
    ];

    assert_eq!(
        render(&entries, start),
        "   0.000s INFO  started\n   1.500s ERROR boom\n"
    );
}

#[test]
fn an_entry_logged_before_the_store_started_does_not_panic() {
    let start: u64 = 5_000_000_000;
    let entries = vec![LogEntry {
        level: LogLevel::Info,
        message: "early".into(),
        timestamp: start - 1_000_000_000,
    }];

    assert_eq!(render(&entries, start), "   0.000s INFO  early\n");
}

#[test]
fn a_dump_that_cannot_be_written_is_a_warning() {
    let mut logged = store();
    let fault = Fault { text: "no space left".to_string(), causes: vec![], code: Some(28) };

    send(&mut logged, LogLevel::Error, "boom");
    logged.store.dump_failed(&fault, 2);

    let last = logged.store.latest().unwrap();
    assert_eq!(last.level, LogLevel::Warn);
    assert_eq!(last.message, "could not write /tmp/nav.log: no space left");
}

#[test]
fn the_filter_is_what_the_environment_asks_for() {
    let filter = |name: &str| log_store::init_logger(Some(name.to_string()), Ok(())).unwrap();

    assert_eq!(filter("off"), LevelFilter::Off);
    assert_eq!(filter("ERROR"), LevelFilter::Error);
    assert_eq!(filter("Warn"), LevelFilter::Warn);
    assert_eq!(filter("info"), LevelFilter::Info);
    assert_eq!(filter("debug"), LevelFilter::Debug);
    assert_eq!(filter("trace"), LevelFilter::Trace);
    assert_eq!(filter("loud"), LevelFilter::Info);
    assert_eq!(log_store::init_logger(None, Ok(())).unwrap(), LevelFilter::Info);
}

#[test]
fn a_second_logger_is_an_error() {
    let fault = Fault { text: "already set".to_string(), causes: vec![], code: None };

    assert!(log_store::init_logger(None, Err(fault)).is_err());
}

#[test]
fn every_process_dumps_to_a_file_of_its_own() {
    let path = log_store::default_dump_path(&FilePath::new("/tmp"), 77);

    assert_eq!(path, FilePath::new("/tmp/nav-77.log"));
}

#[test]
fn only_the_finest_level_is_left_out() {
    let logged = store();

    for level in [LogLevel::Error, LogLevel::Warn, LogLevel::Info, LogLevel::Debug] {
        assert!(logged.store.enabled(level));
    }
    assert!(!logged.store.enabled(LogLevel::Trace));
}

#[test]
fn what_is_left_out_is_not_kept() {
    let mut logged = store();
    send(&mut logged, LogLevel::Trace, "too much");

    assert_eq!(logged.store.len(), 0);
}

#[test]
fn time_is_counted_from_the_start() {
    let mut log = LogStore::new(FilePath::new("/tmp/nav.log"), 10);
    log.log(LogLevel::Info, "hello".to_string(), 35);

    assert_eq!(log.time_since_start(40), 30);
    assert_eq!(log.elapsed_since(&log.latest().unwrap()), 25);
    assert_eq!(log.entry(0).message, "hello");
}

#[test]
fn the_short_log_forgets_the_oldest() {
    let mut log = store::LogStore::new(0);
    for i in 0..MAX_LOG_ENTRIES + 3 {
        log.log(LogLevel::Info, format!("entry {i}"), "nav".to_string(), i as u64);
    }

    let entries = log.entries();
    assert_eq!(entries.len(), MAX_LOG_ENTRIES);
    assert_eq!(entries[0].message, "entry 3");
    assert_eq!(log.latest().unwrap().message, format!("entry {}", MAX_LOG_ENTRIES + 2));
    assert_eq!(log.latest().unwrap().target, "nav");
    assert_eq!(log.elapsed_since(&entries[0]), 3);
    assert_eq!(log.time_since_start(9), 9);
}

#[test]
fn the_short_log_asks_for_everything_but_the_finest() {
    assert_eq!(store::init_logger(Ok(())).unwrap(), LevelFilter::Debug);
    let fault = Fault { text: "already set".to_string(), causes: vec![], code: None };
    assert_eq!(store::init_logger(Err(fault)).unwrap_err().text, "already set");
}

#[test]
fn levels_are_named_as_they_are_written() {
    assert_eq!(LogLevel::Error.as_str(), "ERROR");
    assert_eq!(LogLevel::Warn.as_str(), "WARN");
    assert_eq!(LogLevel::Info.as_str(), "INFO");
    assert_eq!(LogLevel::Debug.as_str(), "DEBUG");
    assert_eq!(LogLevel::Trace.as_str(), "TRACE");
}
