use max_lines::{LineSource, MaxLines, MaxLinesIterator, TextSource};
use std::io::{BufRead, BufReader, Error, ErrorKind};

/// A buffered reader of std as a line source.
struct Buffered<B: BufRead>(B);

impl<B: BufRead> LineSource for Buffered<B> {
    fn read_line_into(&mut self, buf: &mut String) -> std::io::Result<usize> {
        self.0.read_line(buf)
    }
}

/// A source that fails on the reads whose numbers, counted from one, are in
/// `failing`, and reads from `inner` on every other read.
struct Faulty {
    inner: TextSource,
    reads: usize,
    failing: Vec<usize>,
}

impl Faulty {
    fn new(text: &str, failing: Vec<usize>) -> Faulty {
        Faulty { inner: TextSource::new(String::from(text)), reads: 0, failing }
    }
}

impl LineSource for Faulty {
    fn read_line_into(&mut self, buf: &mut String) -> std::io::Result<usize> {
        self.reads += 1;
        if self.failing.contains(&self.reads) {
            buf.push_str("gar");
            return Err(Error::new(ErrorKind::Interrupted, format!("read {} failed", self.reads)));
        }
        self.inner.read_line_into(buf)
    }
}

/// A source that fails on every read.
#[derive(Debug)]
struct Broken;

impl LineSource for Broken {
    fn read_line_into(&mut self, _buf: &mut String) -> std::io::Result<usize> {
        Err(Error::new(ErrorKind::BrokenPipe, "broken"))
    }
}

fn text_reader(text: &str, max_lines: usize) -> MaxLines<TextSource> {
    TextSource::new(String::from(text)).max_lines(max_lines)
}

fn texts(batch: Vec<std::io::Result<String>>) -> Vec<String> {
    batch.into_iter().map(|line| line.unwrap()).collect()
}

fn ten_lines() -> String {
    let mut text = String::new();
    for i in 0..10 {
        text.push_str(&format!("line {}\n", i));
    }
    text
}

#[test]
fn single_reads_lines_ending_in_line_feed() {
    let mut reader = text_reader("a\nb\nc\n", 1);
    assert_eq!(reader.single().unwrap().unwrap(), "a");
    assert_eq!(reader.single().unwrap().unwrap(), "b");
    assert_eq!(reader.single().unwrap().unwrap(), "c");
    assert!(reader.single().is_none());
}

#[test]
fn single_reads_lines_ending_in_carriage_return_line_feed() {
    let mut reader = text_reader("a\r\nb\r\n", 1);
    assert_eq!(reader.single().unwrap().unwrap(), "a");
    assert_eq!(reader.single().unwrap().unwrap(), "b");
    assert!(reader.single().is_none());
}

#[test]
fn single_reads_the_unterminated_last_line() {
    let mut reader = text_reader("a\nb", 1);
    assert_eq!(reader.single().unwrap().unwrap(), "a");
    assert_eq!(reader.single().unwrap().unwrap(), "b");
    assert!(reader.single().is_none());
}

#[test]
fn single_keeps_a_carriage_return_at_the_end_of_the_stream() {
    let mut reader = text_reader("a\r\nb\r", 1);
    assert_eq!(reader.single().unwrap().unwrap(), "a");
    assert_eq!(reader.single().unwrap().unwrap(), "b\r");
    assert!(reader.single().is_none());
}

#[test]
fn single_reads_blank_lines() {
    let mut reader = text_reader("\n\r\n\nx\n", 1);
    assert_eq!(reader.single().unwrap().unwrap(), "");
    assert_eq!(reader.single().unwrap().unwrap(), "");
    assert_eq!(reader.single().unwrap().unwrap(), "");
    assert_eq!(reader.single().unwrap().unwrap(), "x");
    assert!(reader.single().is_none());
}

#[test]
fn single_keeps_what_is_inside_a_line() {
    let mut reader = text_reader("a\0b\rc \t\n \u{4e16}\u{754c}\r\r\n", 1);
    assert_eq!(reader.single().unwrap().unwrap(), "a\0b\rc \t");
    assert_eq!(reader.single().unwrap().unwrap(), " \u{4e16}\u{754c}\r");
    assert!(reader.single().is_none());
}

#[test]
fn single_on_an_empty_stream_is_the_end() {
    let mut reader = text_reader("", 3);
    assert!(reader.single().is_none());
    assert!(reader.single().is_none());
}

#[test]
fn single_reports_the_end_again_and_again() {
    let mut reader = text_reader("a\n", 3);
    assert_eq!(reader.single().unwrap().unwrap(), "a");
    for _ in 0..5 {
        assert!(reader.single().is_none());
    }
}

#[test]
fn batch_on_an_empty_stream_is_none() {
    for max_lines in [1, 2, 7, 1000, usize::MAX] {
        let mut reader = text_reader("", max_lines);
        assert!(reader.next().is_none());
        assert!(reader.next().is_none());
    }
}

#[test]
fn batches_of_four_from_ten_lines() {
    let mut reader = TextSource::new(ten_lines()).max_lines(4);
    let first = texts(reader.next().unwrap());
    assert_eq!(first, vec!["line 0", "line 1", "line 2", "line 3"]);
    let second = texts(reader.next().unwrap());
    assert_eq!(second, vec!["line 4", "line 5", "line 6", "line 7"]);
    let third = texts(reader.next().unwrap());
    assert_eq!(third, vec!["line 8", "line 9"]);
    assert!(reader.next().is_none());
    assert!(reader.next().is_none());
}

#[test]
fn batches_put_together_are_the_lines() {
    let text = "one\ntwo\r\n\nfour\n\u{4e16}\u{754c}\r\nsix\nseven";
    let expected = vec!["one", "two", "", "four", "\u{4e16}\u{754c}", "six", "seven"];
    for max_lines in 1..10 {
        let mut reader = text_reader(text, max_lines);
        let mut all: Vec<String> = Vec::new();
        let mut sizes: Vec<usize> = Vec::new();
        while let Some(batch) = reader.next() {
            sizes.push(batch.len());
            all.extend(texts(batch));
        }
        assert_eq!(all, expected);
        let full = expected.len() / max_lines;
        let partial = expected.len() % max_lines;
        let mut wanted = vec![max_lines; full];
        if partial > 0 {
            wanted.push(partial);
        }
        assert_eq!(sizes, wanted);
    }
}

#[test]
fn batch_of_exactly_the_limit_is_followed_by_none() {
    let mut reader = text_reader("a\nb\n", 2);
    assert_eq!(texts(reader.next().unwrap()), vec!["a", "b"]);
    assert!(reader.next().is_none());
}

#[test]
fn batch_larger_than_the_stream_holds_all_lines() {
    let mut reader = text_reader("a\nb\nc", usize::MAX);
    assert_eq!(texts(reader.next().unwrap()), vec!["a", "b", "c"]);
    assert!(reader.next().is_none());
}

#[test]
fn batch_with_limit_zero_is_none_and_reads_nothing() {
    let mut reader = text_reader("a\nb\n", 0);
    assert!(reader.next().is_none());
    assert!(reader.next().is_none());
    assert_eq!(reader.single().unwrap().unwrap(), "a");
    assert!(reader.next().is_none());
    assert_eq!(reader.single().unwrap().unwrap(), "b");
    assert!(reader.single().is_none());
}

#[test]
fn single_and_batch_share_the_stream() {
    let mut reader = text_reader("a\nb\nc\nd\n", 2);
    assert_eq!(reader.single().unwrap().unwrap(), "a");
    assert_eq!(texts(reader.next().unwrap()), vec!["b", "c"]);
    assert_eq!(reader.single().unwrap().unwrap(), "d");
    assert!(reader.next().is_none());
}

#[test]
fn failure_on_the_third_read_stands_third_in_the_batch() {
    let mut reader = Faulty::new("a\nb\nc\nd\n", vec![3]).max_lines(5);
    let batch = reader.next().unwrap();
    assert_eq!(batch.len(), 5);
    assert_eq!(batch[0].as_ref().unwrap(), "a");
    assert_eq!(batch[1].as_ref().unwrap(), "b");
    let failure = batch[2].as_ref().unwrap_err();
    assert_eq!(failure.kind(), ErrorKind::Interrupted);
    assert_eq!(failure.to_string(), "read 3 failed");
    assert_eq!(batch[3].as_ref().unwrap(), "c");
    assert_eq!(batch[4].as_ref().unwrap(), "d");
    assert!(reader.next().is_none());
}

#[test]
fn failure_on_the_third_read_stands_first_in_the_second_batch() {
    let mut reader = Faulty::new("a\nb\nc\nd\n", vec![3]).max_lines(2);
    assert_eq!(texts(reader.next().unwrap()), vec!["a", "b"]);
    let second = reader.next().unwrap();
    assert_eq!(second.len(), 2);
    assert_eq!(second[0].as_ref().unwrap_err().kind(), ErrorKind::Interrupted);
    assert_eq!(second[1].as_ref().unwrap(), "c");
    assert_eq!(texts(reader.next().unwrap()), vec!["d"]);
    assert!(reader.next().is_none());
}

#[test]
fn failure_does_not_end_single_reads() {
    let mut reader = Faulty::new("a\nb\n", vec![1, 3]).max_lines(1);
    assert_eq!(reader.single().unwrap().unwrap_err().to_string(), "read 1 failed");
    assert_eq!(reader.single().unwrap().unwrap(), "a");
    assert_eq!(reader.single().unwrap().unwrap_err().to_string(), "read 3 failed");
    assert_eq!(reader.single().unwrap().unwrap(), "b");
    assert!(reader.single().is_none());
}

#[test]
fn failure_alone_makes_a_batch() {
    let mut reader = Faulty::new("", vec![1]).max_lines(3);
    let batch = reader.next().unwrap();
    assert_eq!(batch.len(), 1);
    assert!(batch[0].is_err());
    assert!(reader.next().is_none());
}

#[test]
fn broken_source_fills_every_batch_with_failures() {
    let mut reader = Broken.max_lines(3);
    for _ in 0..4 {
        let batch = reader.next().unwrap();
        assert_eq!(batch.len(), 3);
        assert!(batch.iter().all(|line| line.as_ref().unwrap_err().kind() == ErrorKind::BrokenPipe));
    }
}

#[test]
fn buffered_reader_gives_the_same_batches() {
    let text = "one\ntwo\r\n\nfour\nfive";
    let mut buffered = Buffered(BufReader::with_capacity(3, text.as_bytes())).max_lines(2);
    let mut in_memory = text_reader(text, 2);
    loop {
        let theirs = buffered.next();
        let ours = in_memory.next();
        assert_eq!(theirs.is_some(), ours.is_some());
        match (theirs, ours) {
            (Some(theirs), Some(ours)) => assert_eq!(texts(theirs), texts(ours)),
            _ => break,
        }
    }
}

#[test]
fn buffered_reader_reports_text_that_is_not_utf8() {
    let bytes: &[u8] = b"ok\n\xff\xfe\nafter\n";
    let mut reader = Buffered(bytes).max_lines(3);
    let batch = reader.next().unwrap();
    assert_eq!(batch.len(), 3);
    assert_eq!(batch[0].as_ref().unwrap(), "ok");
    assert_eq!(batch[1].as_ref().unwrap_err().kind(), ErrorKind::InvalidData);
    assert_eq!(batch[2].as_ref().unwrap(), "after");
    assert!(reader.next().is_none());
}

#[test]
fn reader_can_be_shown() {
    let shown = format!("{:?}", Broken.max_lines(3));
    assert!(shown.contains("MaxLines"));
    assert!(shown.contains("Broken"));
    assert!(shown.contains('3'));
}
