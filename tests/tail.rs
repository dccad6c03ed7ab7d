use tailed_file::buffer::{TailBuffer, DEFAULT_CAPACITY};
use tailed_file::masking::{handle_ebadf, masked_count};
use tailed_file::scanner::ScanStep;
use tailed_file::text::{append_to_string, AppendError};

/// Bytes written to the followed stream that no read has taken yet.
struct Stream {
    pending: Vec<u8>,
}

impl Stream {
    fn new() -> Self {
        Stream { pending: Vec::new() }
    }

    fn write(&mut self, bytes: &[u8]) {
        self.pending.extend_from_slice(bytes);
    }

    /// One underlying read of at most `cap` bytes.
    fn read_chunk(&mut self, cap: usize) -> Vec<u8> {
        let n = self.pending.len().min(cap);
        self.pending.drain(..n).collect()
    }
}

fn fill(b: &mut TailBuffer, s: &mut Stream) {
    if b.needs_fill() {
        let chunk = s.read_chunk(b.window_capacity());
        b.refill(chunk);
    }
}

fn read_until(b: &mut TailBuffer, s: &mut Stream, delim: u8, out: &mut Vec<u8>) -> usize {
    let mut read = 0;
    loop {
        fill(b, s);
        match b.scan_step(delim, out, read) {
            ScanStep::Again(t) => read = t,
            ScanStep::Finished(t) => return t,
        }
    }
}

fn read_line(b: &mut TailBuffer, s: &mut Stream, out: &mut String) -> Result<usize, AppendError<()>> {
    let mut bytes = Vec::new();
    let n = read_until(b, s, b'\n', &mut bytes);
    append_to_string(out, &bytes, Ok(n))
}

#[test]
fn read_line_follows_writes() {
    let mut b = TailBuffer::new(DEFAULT_CAPACITY);
    let mut s = Stream::new();
    s.write(b"foo\n");
    let mut line = String::new();
    assert!(matches!(read_line(&mut b, &mut s, &mut line), Ok(4)));
    assert_eq!(line, "foo\n");

    let mut again = String::new();
    assert!(matches!(read_line(&mut b, &mut s, &mut again), Ok(0)));
    assert_eq!(again, "");

    s.write(b"bar");
    let mut partial = String::new();
    assert!(matches!(read_line(&mut b, &mut s, &mut partial), Ok(3)));
    assert!(!partial.ends_with('\n'));
    s.write(b"\n");
    assert!(matches!(read_line(&mut b, &mut s, &mut partial), Ok(1)));
    assert_eq!(partial, "bar\n");
}

#[test]
fn fresh_handle_does_not_replay_old_data() {
    // Seeking to the end leaves the old bytes outside the stream the buffer sees.
    let mut b = TailBuffer::new(DEFAULT_CAPACITY);
    let mut s = Stream::new();
    let mut out = Vec::new();
    assert_eq!(read_until(&mut b, &mut s, b'\n', &mut out), 0);
    assert!(out.is_empty());
    s.write(b"new\n");
    assert_eq!(read_until(&mut b, &mut s, b'\n', &mut out), 4);
    assert_eq!(out, b"new\n");
}

#[test]
fn no_data_loss_across_interleaved_writes() {
    let mut b = TailBuffer::new(4);
    let mut s = Stream::new();
    let mut all = Vec::new();
    let writes: [&[u8]; 5] = [b"ab", b"c\nde", b"", b"fghij\nk", b"\n\n"];
    for w in writes.iter() {
        s.write(w);
        loop {
            let mut rec = Vec::new();
            let n = read_until(&mut b, &mut s, b'\n', &mut rec);
            assert_eq!(n, rec.len());
            all.extend_from_slice(&rec);
            if n == 0 {
                break;
            }
        }
    }
    assert_eq!(all, b"abc\ndefghij\nk\n\n");
}

#[test]
fn records_end_at_the_delimiter() {
    let mut b = TailBuffer::new(DEFAULT_CAPACITY);
    let mut s = Stream::new();
    s.write(b"one;two;three");
    let mut r = Vec::new();
    assert_eq!(read_until(&mut b, &mut s, b';', &mut r), 4);
    assert_eq!(r, b"one;");
    r.clear();
    assert_eq!(read_until(&mut b, &mut s, b';', &mut r), 4);
    assert_eq!(r, b"two;");
    r.clear();
    assert_eq!(read_until(&mut b, &mut s, b';', &mut r), 5);
    assert_eq!(r, b"three");
}

#[test]
fn record_longer_than_the_window() {
    let mut b = TailBuffer::new(3);
    let mut s = Stream::new();
    s.write(b"abcdefg\nh");
    let mut r = Vec::new();
    assert_eq!(read_until(&mut b, &mut s, b'\n', &mut r), 8);
    assert_eq!(r, b"abcdefg\n");
    assert_eq!(b.available(), 1);
}

#[test]
fn scan_step_on_empty_window_finishes_without_moving() {
    let mut b = TailBuffer::new(8);
    let mut out = vec![7u8];
    assert_eq!(b.scan_step(b'\n', &mut out, 1), ScanStep::Finished(1));
    assert_eq!(out, vec![7u8]);
    assert!(b.needs_fill());
}

#[test]
fn scan_step_without_delimiter_asks_for_more() {
    let mut b = TailBuffer::new(8);
    b.refill(b"xyz".to_vec());
    let mut out = Vec::new();
    assert_eq!(b.scan_step(b'\n', &mut out, 0), ScanStep::Again(3));
    assert_eq!(out, b"xyz");
    assert!(b.needs_fill());
}

#[test]
fn scan_step_stops_at_first_delimiter() {
    let mut b = TailBuffer::new(8);
    b.refill(b"a\nb\nc".to_vec());
    let mut out = Vec::new();
    assert_eq!(b.scan_step(b'\n', &mut out, 0), ScanStep::Finished(2));
    assert_eq!(out, b"a\n");
    assert_eq!(b.window(), b"b\nc");
}

#[test]
fn scan_step_counts_earlier_steps() {
    let mut b = TailBuffer::new(8);
    b.refill(b"\nrest".to_vec());
    let mut out = b"abc".to_vec();
    assert_eq!(b.scan_step(b'\n', &mut out, 3), ScanStep::Finished(4));
    assert_eq!(out, b"abc\n");
}

#[test]
fn consume_clamps_to_the_window() {
    let mut b = TailBuffer::new(8);
    b.refill(b"hello".to_vec());
    b.consume(2);
    assert_eq!(b.window(), b"llo");
    assert_eq!(b.available(), 3);
    b.consume(100);
    assert_eq!(b.available(), 0);
    assert!(b.needs_fill());
}

#[test]
fn drain_moves_at_most_the_request() {
    let mut b = TailBuffer::new(8);
    b.refill(b"abcdef".to_vec());
    let mut out = b"_".to_vec();
    assert_eq!(b.drain_into(&mut out, 4), 4);
    assert_eq!(out, b"_abcd");
    assert_eq!(b.drain_into(&mut out, 10), 2);
    assert_eq!(out, b"_abcdef");
    assert_eq!(b.drain_into(&mut out, 10), 0);
}

#[test]
fn large_reads_bypass_an_empty_window() {
    let mut b = TailBuffer::new(8);
    assert_eq!(b.window_capacity(), 8);
    assert!(b.reads_directly(8));
    assert!(b.reads_directly(100));
    assert!(!b.reads_directly(7));
    b.refill(b"x".to_vec());
    assert!(!b.reads_directly(100));
}

#[test]
fn faults_are_masked_as_empty_reads() {
    let failed: Result<usize, &str> = Err("bad descriptor");
    assert_eq!(handle_ebadf(failed, 0), Ok(0));
    assert_eq!(handle_ebadf::<usize, &str>(Ok(5), 0), Ok(5));
    assert_eq!(masked_count::<&str>(Err("gone")), 0);
    assert_eq!(masked_count::<&str>(Ok(12)), 12);
}

#[test]
fn valid_text_is_appended() {
    let mut s = String::from("ab");
    let r = append_to_string::<()>(&mut s, "cé\n".as_bytes(), Ok(4));
    assert!(matches!(r, Ok(4)));
    assert_eq!(s, "abcé\n");
}

#[test]
fn invalid_text_is_rolled_back() {
    let mut s = String::from("ok");
    let r = append_to_string::<()>(&mut s, &[b'x', 0xff, b'\n'], Ok(3));
    assert!(matches!(r, Err(AppendError::InvalidData)));
    assert_eq!(s, "ok");
}

#[test]
fn read_error_is_passed_on_unless_text_is_bad() {
    let mut s = String::new();
    let r = append_to_string(&mut s, b"fine", Err("broken"));
    assert!(matches!(r, Err(AppendError::Read("broken"))));
    assert_eq!(s, "fine");
    let mut t = String::from("z");
    let r = append_to_string(&mut t, &[0xc3], Err("broken"));
    assert!(matches!(r, Err(AppendError::InvalidData)));
    assert_eq!(t, "z");
}

#[test]
fn utf8_atomicity_after_good_appends() {
    let mut b = TailBuffer::new(DEFAULT_CAPACITY);
    let mut s = Stream::new();
    let mut text = String::new();
    s.write("α\nβ\n".as_bytes());
    s.write(&[0xe2, 0x28, 0xa1, b'\n']);
    assert!(matches!(read_line(&mut b, &mut s, &mut text), Ok(3)));
    assert!(matches!(read_line(&mut b, &mut s, &mut text), Ok(3)));
    assert!(matches!(read_line(&mut b, &mut s, &mut text), Err(AppendError::InvalidData)));
    assert_eq!(text, "α\nβ\n");
}

#[test]
fn sessions_take_disjoint_ranges() {
    let mut b = TailBuffer::new(DEFAULT_CAPACITY);
    let mut s = Stream::new();
    s.write(b"l1\nl2\n");
    let mut first = Vec::new();
    let mut second = Vec::new();
    read_until(&mut b, &mut s, b'\n', &mut first);
    read_until(&mut b, &mut s, b'\n', &mut second);
    assert_eq!(first, b"l1\n");
    assert_eq!(second, b"l2\n");
}

#[test]
fn empty_append_keeps_text() {
    let mut s = String::from("kept");
    assert!(matches!(append_to_string::<()>(&mut s, &[], Ok(0)), Ok(0)));
    assert_eq!(s, "kept");
}
