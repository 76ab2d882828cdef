use conmon_log::container_log::{ContainerLog, DriverKind, DriverSpec, LogDriver};
use conmon_log::error::{ConfigError, IoKind, LogError};
use conmon_log::pipe::Pipe;
use conmon_log::script::{Progress, Script, Step};
use serde_json::Value;

fn spec(kind: DriverKind, path: &str, max_size: u64) -> DriverSpec {
    DriverSpec { kind, path: path.as_bytes().to_vec(), max_size }
}

/// What a file that held `before` holds after the file operations of `script`.
fn contents(before: &[u8], script: &Script) -> Vec<u8> {
    let mut file = before.to_vec();
    for step in &script.steps {
        match step {
            Step::Open => file.clear(),
            Step::Append(bytes) => file.extend_from_slice(bytes),
            _ => {}
        }
    }
    file
}

fn completed(count: usize) -> Vec<Progress> {
    (0..count).map(|_| Progress::Completed).collect()
}

fn opened(specs: &Vec<DriverSpec>) -> ContainerLog {
    let mut log = ContainerLog::from(specs).unwrap();
    let scripts = log.init();
    log.commit(&scripts, &completed(scripts.len())).unwrap();
    log
}

#[test]
fn new_is_empty() {
    let mut log = ContainerLog::new();
    assert_eq!(log.len(), 0);
    assert!(log.init().is_empty());
    assert!(log.reopen().is_empty());
    assert!(log.write(Pipe::StdOut, b"x\n").is_empty());
    assert_eq!(log.commit(&vec![], &vec![]), Ok(()));
    assert_eq!(ContainerLog::default().len(), 0);
}

#[test]
fn from_makes_one_driver_for_each_description_in_order() {
    let specs = vec![
        spec(DriverKind::ContainerRuntimeInterface, "/logs/a.cri", 0),
        spec(DriverKind::Json, "/logs/b.json", 1024),
        spec(DriverKind::Json, "/logs/c.json", 0),
    ];
    let log = ContainerLog::from(&specs).unwrap();
    assert_eq!(log.len(), 3);
    let scripts = log.init();
    let paths: Vec<&str> = scripts.iter().map(|script| script.path.as_str()).collect();
    assert_eq!(paths, vec!["/logs/a.cri", "/logs/b.json", "/logs/c.json"]);
}

#[test]
fn from_of_no_description_makes_no_driver() {
    assert_eq!(ContainerLog::from(&vec![]).unwrap().len(), 0);
}

#[test]
fn from_refuses_an_unknown_type() {
    let specs = vec![spec(DriverKind::Json, "a", 0), spec(DriverKind::Unknown(9), "b", 0)];
    assert_eq!(ContainerLog::from(&specs).err(), Some(ConfigError::UnknownType(9)));
}

#[test]
fn from_refuses_a_malformed_path() {
    let specs = vec![spec(DriverKind::Json, "", 0)];
    assert_eq!(ContainerLog::from(&specs).err(), Some(ConfigError::MalformedPath));
    let specs = vec![DriverSpec {
        kind: DriverKind::ContainerRuntimeInterface,
        path: vec![b'a', 0xff, b'b'],
        max_size: 0,
    }];
    assert_eq!(ContainerLog::from(&specs).err(), Some(ConfigError::MalformedPath));
}

#[test]
fn from_fails_with_the_first_problem() {
    let specs = vec![
        spec(DriverKind::Json, "ok", 0),
        spec(DriverKind::Json, "", 0),
        spec(DriverKind::Unknown(3), "x", 0),
    ];
    assert_eq!(ContainerLog::from(&specs).err(), Some(ConfigError::MalformedPath));
    let specs = vec![spec(DriverKind::Unknown(3), "", 0), spec(DriverKind::Json, "", 0)];
    assert_eq!(ContainerLog::from(&specs).err(), Some(ConfigError::UnknownType(3)));
}

#[test]
fn driver_size_of_zero_means_no_limit() {
    match LogDriver::new(&spec(DriverKind::Json, "a", 0)).unwrap() {
        LogDriver::Json(logger) => assert_eq!(logger.max_log_size(), None),
        other => panic!("unexpected {:?}", other),
    }
    match LogDriver::new(&spec(DriverKind::Json, "a", 77)).unwrap() {
        LogDriver::Json(logger) => {
            assert_eq!(logger.max_log_size(), Some(77));
            assert_eq!(logger.path(), "a");
            assert_eq!(logger.bytes_written(), 0);
            assert!(!logger.is_open());
        }
        other => panic!("unexpected {:?}", other),
    }
    match LogDriver::new(&spec(DriverKind::ContainerRuntimeInterface, "b", 5)).unwrap() {
        LogDriver::ContainerRuntimeInterface(logger) => {
            assert_eq!(logger.max_log_size(), Some(5));
            assert_eq!(logger.path(), "b");
        }
        other => panic!("unexpected {:?}", other),
    }
}

#[test]
fn driver_path_is_decoded_as_utf8() {
    let path = "/logs/caf\u{e9}.json";
    match LogDriver::new(&spec(DriverKind::Json, path, 0)).unwrap() {
        LogDriver::Json(logger) => assert_eq!(logger.path(), path),
        other => panic!("unexpected {:?}", other),
    }
}

#[test]
fn init_asks_every_driver_to_open_its_file() {
    let log = ContainerLog::from(&vec![
        spec(DriverKind::Json, "a", 0),
        spec(DriverKind::ContainerRuntimeInterface, "b", 0),
    ])
    .unwrap();
    let scripts = log.init();
    assert_eq!(scripts.len(), 2);
    for script in &scripts {
        assert_eq!(script.steps, vec![Step::Open]);
        assert!(!script.uninitialized);
    }
}

#[test]
fn init_that_fails_for_one_driver_still_opens_the_others() {
    let mut log = ContainerLog::from(&vec![
        spec(DriverKind::Json, "a", 0),
        spec(DriverKind::Json, "b", 0),
        spec(DriverKind::Json, "c", 0),
    ])
    .unwrap();
    let scripts = log.init();
    let reports = vec![
        Progress::Completed,
        Progress::Failed { done: 0, kind: IoKind::Open, cause: "denied".to_string() },
        Progress::Completed,
    ];
    assert_eq!(
        log.commit(&scripts, &reports),
        Err(LogError::Io {
            path: "b".to_string(),
            kind: IoKind::Open,
            cause: "denied".to_string()
        })
    );
    let scripts = log.write(Pipe::StdOut, b"x\n");
    let ready: Vec<bool> = scripts.iter().map(|script| !script.uninitialized).collect();
    assert_eq!(ready, vec![true, false, true]);
}

#[test]
fn write_gives_every_driver_every_line() {
    let mut log = opened(&vec![
        spec(DriverKind::Json, "a", 0),
        spec(DriverKind::ContainerRuntimeInterface, "b", 0),
        spec(DriverKind::Json, "c", 0),
    ]);
    let scripts = log.write(Pipe::StdOut, b"one\ntwo\nthree\n");
    assert_eq!(scripts.len(), 3);
    assert_eq!(log.commit(&scripts, &completed(3)), Ok(()));

    for index in [0, 2] {
        let file = contents(b"", &scripts[index]);
        let text = String::from_utf8(file).unwrap();
        let messages: Vec<String> = text
            .lines()
            .map(|line| {
                let value: Value = serde_json::from_str(line).unwrap();
                assert_eq!(value["pipe"].as_str().unwrap(), "stdout");
                value["message"].as_str().unwrap().to_string()
            })
            .collect();
        assert_eq!(messages, vec!["one", "two", "three"]);
    }
    let text = String::from_utf8(contents(b"", &scripts[1])).unwrap();
    let lines: Vec<&str> = text.lines().collect();
    assert_eq!(lines.len(), 3);
    assert!(lines[0].ends_with(" stdout F one"));
    assert!(lines[1].ends_with(" stdout F two"));
    assert!(lines[2].ends_with(" stdout F three"));
}

#[test]
fn write_that_fails_for_one_driver_is_applied_to_the_others() {
    let mut log = ContainerLog::from(&vec![
        spec(DriverKind::Json, "a", 0),
        spec(DriverKind::Json, "b", 0),
        spec(DriverKind::Json, "c", 0),
    ])
    .unwrap();
    // The second driver is never opened.
    let scripts = log.init();
    let reports = vec![
        Progress::Completed,
        Progress::Failed { done: 0, kind: IoKind::Open, cause: "denied".to_string() },
        Progress::Completed,
    ];
    assert!(log.commit(&scripts, &reports).is_err());

    let scripts = log.write(Pipe::StdErr, b"kept\n");
    assert!(scripts[1].steps.iter().all(|step| matches!(step, Step::Account(_))));
    assert_eq!(log.commit(&scripts, &completed(3)), Err(LogError::Uninitialized));
    for index in [0, 2] {
        let text = String::from_utf8(contents(b"", &scripts[index])).unwrap();
        let value: Value = serde_json::from_str(text.trim_end()).unwrap();
        assert_eq!(value["message"].as_str().unwrap(), "kept");
        assert_eq!(value["pipe"].as_str().unwrap(), "stderr");
    }
}

#[test]
fn commit_fails_with_the_first_failure_in_the_drivers_order() {
    let mut log = opened(&vec![
        spec(DriverKind::Json, "a", 0),
        spec(DriverKind::Json, "b", 0),
        spec(DriverKind::Json, "c", 0),
    ]);
    let scripts = log.write(Pipe::StdOut, b"x\n");
    let reports = vec![
        Progress::Completed,
        Progress::Failed { done: 1, kind: IoKind::Write, cause: "first".to_string() },
        Progress::Failed { done: 1, kind: IoKind::Write, cause: "second".to_string() },
    ];
    assert_eq!(
        log.commit(&scripts, &reports),
        Err(LogError::Io {
            path: "b".to_string(),
            kind: IoKind::Write,
            cause: "first".to_string()
        })
    );
}

#[test]
fn commit_leaves_a_driver_without_a_report_as_it_is() {
    let mut log = ContainerLog::from(&vec![
        spec(DriverKind::Json, "a", 0),
        spec(DriverKind::Json, "b", 0),
    ])
    .unwrap();
    let scripts = log.init();
    assert_eq!(log.commit(&scripts, &completed(1)), Ok(()));
    let scripts = log.write(Pipe::StdOut, b"x\n");
    let ready: Vec<bool> = scripts.iter().map(|script| !script.uninitialized).collect();
    assert_eq!(ready, vec![true, false]);
}

#[test]
fn reopen_starts_every_file_over() {
    let mut log = opened(&vec![
        spec(DriverKind::Json, "a", 0),
        spec(DriverKind::ContainerRuntimeInterface, "b", 0),
    ]);
    let written = log.write(Pipe::StdOut, b"old\n");
    log.commit(&written, &completed(2)).unwrap();
    let scripts = log.reopen();
    for (script, before) in scripts.iter().zip(written.iter()) {
        assert_eq!(script.steps, vec![Step::Sync, Step::Open, Step::Reset]);
        let held = contents(b"", before);
        assert!(!held.is_empty());
        assert!(contents(&held, script).is_empty());
    }
    assert_eq!(log.commit(&scripts, &completed(2)), Ok(()));
}

#[test]
fn reopen_before_init_fails_for_every_driver() {
    let mut log = ContainerLog::from(&vec![spec(DriverKind::Json, "a", 0)]).unwrap();
    let scripts = log.reopen();
    assert!(scripts[0].steps.is_empty());
    assert_eq!(log.commit(&scripts, &completed(1)), Err(LogError::Uninitialized));
}

#[test]
fn drivers_rotate_independently() {
    let mut log = opened(&vec![
        spec(DriverKind::Json, "small", 1),
        spec(DriverKind::Json, "unlimited", 0),
    ]);
    let scripts = log.write(Pipe::StdOut, b"a\nb\n");
    let opens: Vec<usize> = scripts
        .iter()
        .map(|script| script.steps.iter().filter(|step| matches!(step, Step::Open)).count())
        .collect();
    assert_eq!(opens, vec![2, 0]);
    log.commit(&scripts, &completed(2)).unwrap();
    let small = String::from_utf8(contents(b"", &scripts[0])).unwrap();
    assert_eq!(small.lines().count(), 1);
    let unlimited = String::from_utf8(contents(b"", &scripts[1])).unwrap();
    assert_eq!(unlimited.lines().count(), 2);
}
