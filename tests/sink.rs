use log::Level;
use rtt_console::ring::{OutputFull, RingOutput};
use rtt_console::sink::LogSink;

#[test]
fn uninstalled_sink_drops_records() {
    let mut sink = LogSink::new();
    sink.log(Level::Error, b"lost");
    sink.flush();
    assert!(sink.read_output(100).is_empty());
    assert!(sink.enabled(Level::Trace));
}

#[test]
fn record_format_is_level_comma_message_newline() {
    let mut sink = LogSink::new();
    sink.install(RingOutput::new(128));
    sink.log(Level::Info, b"hello");
    sink.log(Level::Error, b"x");
    sink.log(Level::Warn, b"");
    sink.log(Level::Debug, b"d");
    sink.log(Level::Trace, b"t");
    assert_eq!(
        sink.read_output(128),
        b"INFO, hello\nERROR, x\nWARN, \nDEBUG, d\nTRACE, t\n".to_vec()
    );
}

#[test]
fn record_filling_the_buffer_exactly_is_written() {
    let mut sink = LogSink::new();
    sink.install(RingOutput::new(12));
    sink.log(Level::Info, b"hello");
    assert_eq!(sink.read_output(100), b"INFO, hello\n".to_vec());
    sink.log(Level::Error, b"hello");
    assert!(sink.read_output(100).is_empty());
}

#[test]
fn installed_sink_writes_whole_records() {
    let mut sink = LogSink::new();
    sink.install(RingOutput::new(64));
    sink.log(Level::Info, b"hello");
    sink.log(Level::Warn, b"low battery");
    assert_eq!(sink.read_output(64), b"INFO, hello\nWARN, low battery\n".to_vec());
}

#[test]
fn record_that_does_not_fit_is_dropped_whole() {
    let mut sink = LogSink::new();
    sink.install(RingOutput::new(20));
    sink.log(Level::Info, b"abc");
    sink.log(Level::Info, b"far too long");
    sink.log(Level::Info, b"d");
    assert_eq!(sink.read_output(12), b"INFO, abc\nIN".to_vec());
    assert_eq!(sink.read_output(20), b"FO, d\n".to_vec());
}

#[test]
fn interrupt_and_thread_records_interleave_only_whole() {
    let mut sink = LogSink::new();
    sink.install(RingOutput::new(256));
    sink.log(Level::Info, b"main: start");
    // an interrupt taken between two records of the main context
    sink.log(Level::Debug, b"irq: tick");
    sink.log(Level::Info, b"main: done");
    let out = sink.read_output(256);
    assert_eq!(out, b"INFO, main: start\nDEBUG, irq: tick\nINFO, main: done\n".to_vec());
}

#[test]
fn ring_wraps_around() {
    let mut ring = RingOutput::new(8);
    assert_eq!(ring.write(b"abcdef"), Ok(()));
    assert_eq!(ring.read(4), b"abcd".to_vec());
    assert_eq!(ring.write(b"ghijkl"), Ok(()));
    assert_eq!(ring.pending_len(), 8);
    assert_eq!(ring.write(b"m"), Err(OutputFull));
    assert_eq!(ring.read(100), b"efghijkl".to_vec());
    ring.push_byte(b'z');
    assert_eq!(ring.read(1), b"z".to_vec());
    assert_eq!(ring.capacity(), 8);
    assert_eq!(ring.pending_len(), 0);
}
