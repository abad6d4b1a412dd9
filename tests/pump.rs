use rtt_console::pump::{PumpError, StreamPump, READ_BUFFER_LEN};

#[test]
fn reads_of_varying_sizes_are_forwarded_exactly() {
    let mut pump = StreamPump::new();
    let mut out: Vec<u8> = Vec::new();
    let mut writes: Vec<usize> = Vec::new();
    let mut expected: Vec<u8> = Vec::new();
    let mut buf = [0u8; READ_BUFFER_LEN];
    for (k, &count) in [0usize, 37, 1024].iter().enumerate() {
        for (i, b) in buf.iter_mut().enumerate() {
            *b = (i * 7 + k * 13) as u8;
        }
        expected.extend_from_slice(&buf[..count]);
        let chunk = pump.on_read(&buf, Some(count)).unwrap();
        assert_eq!(chunk, &buf[..count]);
        writes.push(chunk.len());
        out.extend_from_slice(chunk);
        assert_eq!(pump.on_write(true), Ok(()));
    }
    assert_eq!(writes, vec![0, 37, 1024]);
    assert_eq!(out, expected);
    assert!(!pump.is_stopped());
}

#[test]
fn failed_read_stops_with_read_error() {
    let mut pump = StreamPump::new();
    let buf = [1u8; 8];
    assert_eq!(pump.on_read(&buf, Some(8)).unwrap(), &buf[..]);
    assert_eq!(pump.on_read(&buf, None), Err(PumpError::ReadFailed));
    assert!(pump.is_stopped());
}

#[test]
fn failed_write_stops_with_write_error() {
    let mut pump = StreamPump::new();
    let buf = [2u8; 4];
    assert_eq!(pump.on_read(&buf, Some(3)).unwrap(), &[2u8, 2, 2][..]);
    assert_eq!(pump.on_write(false), Err(PumpError::WriteFailed));
    assert!(pump.is_stopped());
}
