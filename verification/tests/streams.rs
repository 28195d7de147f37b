use spawn::stream::log_message;
use spawn::{HandleError, Progress, Stream};

fn line(text: &str) -> Progress<Option<String>> {
    Progress::Ready(Some(text.to_owned()))
}

#[test]
fn lines_come_out_as_they_went_in() {
    let mut stream = Stream::new(3);
    assert_eq!(stream.fd(), 3);
    assert_eq!(stream.read_line(), Progress::Pending);
    stream.feed(b"one\ntw");
    assert_eq!(stream.read_line(), line("one\n"));
    assert_eq!(stream.read_line(), Progress::Pending);
    stream.feed(b"o\n\nlast");
    assert_eq!(stream.read_line(), line("two\n"));
    assert_eq!(stream.read_line(), line("\n"));
    assert_eq!(stream.read_line(), Progress::Pending);
    stream.finish();
    assert_eq!(stream.read_line(), line("last"));
    assert_eq!(stream.read_line(), Progress::Ready(None));
}

/// Reads bytes that are there.
fn bytes(stream: &mut Stream, count: Option<usize>) -> Vec<u8> {
    match stream.read_bytes(count) {
        Progress::Ready(bytes) => bytes.unwrap(),
        Progress::Pending => panic!("the bytes are there"),
    }
}

#[test]
fn bytes_are_read_exactly() {
    let mut stream = Stream::new(3);
    stream.feed(b"abcdef");
    assert_eq!(bytes(&mut stream, Some(0)), b"");
    assert_eq!(bytes(&mut stream, Some(2)), b"ab");
    assert_eq!(bytes(&mut stream, Some(4)), b"cdef");
    assert!(matches!(stream.read_bytes(None), Progress::Pending));
    stream.feed(b"gh");
    assert!(matches!(stream.read_bytes(Some(3)), Progress::Pending));
    assert_eq!(bytes(&mut stream, None), b"gh");
}

#[test]
fn too_few_bytes_are_an_error() {
    let mut stream = Stream::new(3);
    stream.feed(b"ij");
    stream.finish();
    let short = stream.read_bytes(Some(3));
    assert!(matches!(short, Progress::Ready(Err(HandleError::Child))));
    assert_eq!(bytes(&mut stream, Some(2)), b"ij");
    assert!(matches!(stream.read_bytes(Some(1)), Progress::Ready(Err(HandleError::Child))));
    assert_eq!(bytes(&mut stream, Some(0)), b"");
    assert!(matches!(stream.read_bytes(None), Progress::Pending));
}

#[test]
fn what_was_read_is_gone() {
    let mut stream = Stream::new(3);
    stream.feed(b"first\nsecond\nthird");
    assert_eq!(stream.read_line(), line("first\n"));
    assert_eq!(stream.read_all(), "second\nthird");
    assert_eq!(stream.read_all(), "");
}

#[test]
fn every_byte_is_read_once() {
    let mut stream = Stream::new(3);
    let mut read = String::new();
    stream.feed(b"one\ntwo");
    if let Progress::Ready(Some(text)) = stream.read_line() {
        read.push_str(&text);
    }
    stream.feed(b" three\nfour");
    read.push_str(&String::from_utf8_lossy(&bytes(&mut stream, Some(5))));
    assert!(matches!(stream.read_bytes(Some(100)), Progress::Pending));
    stream.feed(b" five");
    stream.finish();
    if let Progress::Ready(Some(text)) = stream.read_line() {
        read.push_str(&text);
    }
    read.push_str(&stream.read_all());
    assert_eq!(read, "one\ntwo three\nfour five");
}

#[test]
fn bytes_that_are_no_text_are_replaced() {
    let mut stream = Stream::new(3);
    stream.feed(&[b'a', 0xff, b'b', b'\n']);
    assert_eq!(stream.read_line(), line("a\u{fffd}b\n"));
    stream.feed("\u{e9}\u{1f980}".as_bytes());
    assert_eq!(stream.read_all(), "\u{e9}\u{1f980}");
}

#[test]
fn lines_of_text_are_the_text() {
    let text = "\u{e9}n\n\n\u{1f980}\nlast \u{20ac}";
    let mut stream = Stream::new(3);
    stream.feed(text.as_bytes());
    stream.finish();
    let mut lines: Vec<String> = Vec::new();
    while let Progress::Ready(Some(line)) = stream.read_line() {
        lines.push(line);
    }
    assert_eq!(lines, ["\u{e9}n\n", "\n", "\u{1f980}\n", "last \u{20ac}"]);
    assert_eq!(lines.concat(), text);
    assert_eq!(stream.read_line(), Progress::Ready(None));
}

#[test]
fn lines_of_other_bytes_add_up() {
    let parts: [&[u8]; 4] = [b"\xe2\n", b"a\xff\xf0\x9f\n", b"\x80\n", b"\xf0\x90\x80W"];
    let all = parts.concat();
    let mut stream = Stream::new(3);
    stream.feed(&all);
    stream.finish();
    let mut lines: Vec<String> = Vec::new();
    while let Progress::Ready(Some(line)) = stream.read_line() {
        lines.push(line);
    }
    assert_eq!(lines.len(), 4);
    assert_eq!(lines[0], "\u{fffd}\n");
    assert_eq!(lines.concat(), String::from_utf8_lossy(&all));
}

#[test]
fn failed_worker_is_reported_once() {
    let mut stream = Stream::new(3);
    stream.feed(b"rest");
    assert!(stream.is_working());
    assert!(matches!(stream.read_blocking(false), Err(HandleError::Child)));
    assert!(!stream.is_working());
    assert_eq!(stream.read_blocking(false).unwrap(), "rest");
    assert!(stream.wait(false).is_ok());
}

#[test]
fn logged_lines_carry_the_name() {
    assert_eq!(log_message("bash", "Hello\n"), "bash: Hello\n");
}
