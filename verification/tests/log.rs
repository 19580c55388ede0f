use verona_rt::log::{log, FlightRecorder};

#[test]
fn dump_flight_recorder_main() {
    let mut sink = FlightRecorder::new();
    sink.enable_logging();
    log(&mut sink, "Hello World\n");
    let v = format!("{} + {} == {}\n", 2, 3, 2 + 3);
    log(&mut sink, &v);
    assert_eq!(sink.len(), 2);
    assert_eq!(sink.tag(0), "Hello World\n");
    assert_eq!(sink.tag(1), "2 + 3 == 5\n");
}

#[test]
fn records_are_appended_in_order() {
    let mut sink = FlightRecorder::new();
    sink.enable_logging();
    sink.record("alloc", 16, 1);
    sink.record("dealloc", 16, 0);
    log(&mut sink, "TOP");
    assert_eq!(sink.len(), 3);
    assert_eq!(sink.tag(0), "alloc");
    assert_eq!(sink.tag(1), "dealloc");
    assert_eq!(sink.tag(2), "TOP");
}

#[test]
fn nothing_is_kept_until_logging_is_enabled() {
    let mut sink = FlightRecorder::new();
    log(&mut sink, "lost");
    sink.record("lost too", 16, 1);
    assert_eq!(sink.len(), 0);
    sink.enable_logging();
    log(&mut sink, "kept");
    assert_eq!(sink.len(), 1);
    assert_eq!(sink.tag(0), "kept");
}
