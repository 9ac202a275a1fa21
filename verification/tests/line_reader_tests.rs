use httpcore::find_crlf_in_bytes;
use httpcore::read_until_crlf::read_until_crlf_step;

/// Drives the step function over `stream` cut into `chunk`-sized fills
/// until a line completes, the way a buffered reader would.
fn read_line_chunked(stream: &[u8], chunk: usize) -> (Vec<u8>, bool) {
    let mut buf = Vec::new();
    let mut pos = 0;
    while pos < stream.len() {
        let end = (pos + chunk).min(stream.len());
        let (done, used) = read_until_crlf_step(&mut buf, &stream[pos..end]);
        pos += used;
        if done {
            return (buf, true);
        }
    }
    (buf, false)
}

#[test]
fn find_crlf_basics() {
    assert_eq!(find_crlf_in_bytes(b""), None);
    assert_eq!(find_crlf_in_bytes(b"\r"), None);
    assert_eq!(find_crlf_in_bytes(b"\r\n"), Some(0));
    assert_eq!(find_crlf_in_bytes(b"ab\r\ncd\r\n"), Some(2));
    assert_eq!(find_crlf_in_bytes(b"a\rb\nc"), None);
}

#[test]
fn chunking_does_not_change_the_line() {
    let stream = b"GET /hello HTTP/1.1\r\ntrailing bytes";
    let (whole, done_whole) = read_line_chunked(stream, stream.len());
    assert!(done_whole);
    assert_eq!(whole, b"GET /hello HTTP/1.1\r\n".to_vec());
    for chunk in 1..=stream.len() {
        let (line, done) = read_line_chunked(stream, chunk);
        assert!(done);
        assert_eq!(line, whole);
    }
}

#[test]
fn terminator_split_across_fills() {
    let mut buf = Vec::new();
    let (done, used) = read_until_crlf_step(&mut buf, b"line\r");
    assert!(!done);
    assert_eq!(used, 5);
    let (done, used) = read_until_crlf_step(&mut buf, b"\nmore");
    assert!(done);
    assert_eq!(used, 1);
    assert_eq!(buf, b"line\r\n".to_vec());
}

#[test]
fn lone_cr_does_not_terminate() {
    let (line, done) = read_line_chunked(b"a\rb", 1);
    assert!(!done);
    assert_eq!(line, b"a\rb".to_vec());
}

#[test]
fn step_stops_at_first_terminator() {
    let mut buf = Vec::new();
    let (done, used) = read_until_crlf_step(&mut buf, b"one\r\ntwo\r\n");
    assert!(done);
    assert_eq!(used, 5);
    assert_eq!(buf, b"one\r\n".to_vec());
}
