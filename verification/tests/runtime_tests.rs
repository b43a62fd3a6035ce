use onlycodex::runtime::{RuntimeLog, LOG_CAPACITY};

#[test]
fn log_keeps_the_newest_entries() {
    let mut log = RuntimeLog::new();
    for i in 0..(LOG_CAPACITY as i64 + 5) {
        log.info(format!("line {i}"), i);
    }
    assert_eq!(log.entries().len(), LOG_CAPACITY);
    assert_eq!(log.entries()[0].message, "line 5");
    assert_eq!(log.entries()[0].id, 6);
    assert_eq!(log.entries().last().unwrap().id, 1005);
    assert_eq!(log.errors(), 0);
}

#[test]
fn errors_are_counted() {
    let mut log = RuntimeLog::new();
    log.error("boom".into(), 1);
    log.log("WARN", "careful".into(), 2);
    assert_eq!(log.errors(), 1);
    assert_eq!(log.entries()[0].level, "ERROR");
    assert_eq!(log.entries()[1].level, "WARN");
    log.clear();
    assert!(log.entries().is_empty());
    log.info("again".into(), 3);
    assert_eq!(log.entries()[0].id, 3);
}

#[test]
fn upstream_lines_are_summarised() {
    let mut log = RuntimeLog::new();
    log.log_upstream(
        r#"{"event":"request.received","model":"codex-alias","message":"ok"}"#.into(),
        1,
    );
    log.log_upstream(r#"{"event":"upstream.failed","message":"timeout"}"#.into(), 2);
    log.log_upstream(r#"{"model":"m"}"#.into(), 3);
    log.log_upstream("plain text".into(), 4);
    let e = log.entries();
    assert_eq!(e[0].message, "request.received · codex-alias · ok");
    assert_eq!(e[0].level, "INFO");
    assert_eq!(e[1].message, "upstream.failed · timeout");
    assert_eq!(e[1].level, "ERROR");
    assert_eq!(e[2].message, "upstream · m");
    assert_eq!(e[3].message, "plain text");
    assert_eq!(log.requests(), 1);
    assert_eq!(log.errors(), 1);
}

#[test]
fn non_string_members_are_left_out() {
    let mut log = RuntimeLog::new();
    log.log_upstream(r#"{"event":"x","model":3}"#.into(), 1);
    log.log_upstream("42".into(), 2);
    assert_eq!(log.entries()[0].message, "x");
    assert_eq!(log.entries()[1].message, "upstream");
}
