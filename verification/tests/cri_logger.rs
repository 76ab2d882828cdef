use conmon_log::cri_logger::CriLogger;
use conmon_log::error::{ConfigError, LogError};
use conmon_log::pipe::Pipe;
use conmon_log::record::Format;
use conmon_log::script::{Progress, Step};

#[test]
fn tagged_entry_is_time_channel_tag_and_content() {
    let record = Format::Cri.entry(Pipe::StdOut, b"hello world\n", "T0");
    assert_eq!(record, b"T0 stdout F hello world".to_vec());
    let record = Format::Cri.entry(Pipe::StdErr, b"oops\n", "12:00");
    assert_eq!(record, b"12:00 stderr F oops".to_vec());
}

#[test]
fn tagged_entry_keeps_the_bytes_of_the_line_as_they_are() {
    let record = Format::Cri.entry(Pipe::StdOut, b"  a\xffb \n", "T");
    assert_eq!(record, b"T stdout F   a\xffb ".to_vec());
}

#[test]
fn tagged_entry_of_bytes_without_a_newline_drops_nothing() {
    let record = Format::Cri.entry(Pipe::StdOut, b"abc", "T");
    assert_eq!(record, b"T stdout F abc".to_vec());
    let record = Format::Cri.entry(Pipe::StdOut, b"", "T");
    assert_eq!(record, b"T stdout F ".to_vec());
}

#[test]
fn cri_new_refuses_an_empty_path() {
    assert_eq!(CriLogger::new("", None).err(), Some(ConfigError::MalformedPath));
}

#[test]
fn cri_write_before_init_fails() {
    let mut logger = CriLogger::new("c.log", None).unwrap();
    let script = logger.write(Pipe::StdOut, b"line\n");
    assert!(script.uninitialized);
    assert!(script.steps.iter().all(|step| matches!(step, Step::Account(_))));
    assert_eq!(logger.commit(&script, &Progress::Completed), Err(LogError::Uninitialized));
}

#[test]
fn cri_write_gives_one_tagged_line_per_line() {
    let mut logger = CriLogger::new("c.log", None).unwrap();
    let script = logger.init();
    logger.commit(&script, &Progress::Completed).unwrap();

    let script = logger.write(Pipe::StdErr, b"first\nsecond\nrest");
    assert_eq!(script.path, "c.log");
    let appends: Vec<String> = script
        .steps
        .iter()
        .filter_map(|step| match step {
            Step::Append(bytes) => Some(String::from_utf8(bytes.clone()).unwrap()),
            _ => None,
        })
        .collect();
    assert_eq!(appends.len(), 2);
    assert!(appends[0].ends_with(" stderr F first\n"));
    assert!(appends[1].ends_with(" stderr F second\n"));
    logger.commit(&script, &Progress::Completed).unwrap();
    assert_eq!(logger.bytes_written(), appends[0].len() - 1 + appends[1].len() - 1);
}

#[test]
fn cri_write_starts_the_file_over_when_the_limit_is_crossed() {
    let mut logger = CriLogger::new("c.log", Some(1)).unwrap();
    let script = logger.init();
    logger.commit(&script, &Progress::Completed).unwrap();
    let script = logger.write(Pipe::StdOut, b"a\nb\n");
    let opens = script.steps.iter().filter(|step| matches!(step, Step::Open)).count();
    assert_eq!(opens, 2);
    logger.commit(&script, &Progress::Completed).unwrap();
    assert_eq!(logger.bytes_written(), 0);
    assert_eq!(logger.max_log_size(), Some(1));
    assert!(logger.is_open());
    assert_eq!(logger.path(), "c.log");
}

#[test]
fn cri_reopen_and_flush_need_a_file() {
    let mut logger = CriLogger::new("c.log", None).unwrap();
    assert!(logger.reopen().uninitialized);
    assert!(logger.flush().uninitialized);
    let script = logger.init();
    logger.commit(&script, &Progress::Completed).unwrap();
    assert_eq!(logger.reopen().steps, vec![Step::Sync, Step::Open, Step::Reset]);
    assert_eq!(logger.flush().steps, vec![Step::Flush]);
}
