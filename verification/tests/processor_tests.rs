use head::config::Count;
use head::processor::{ByteProcessor, HeadStream, LineProcessor, Processor};

/// Drive a pass over `input` the way the program does, reading at most
/// `chunk` bytes at a time and stopping once the output is complete.
fn drive(mut stream: HeadStream, input: &[u8], chunk: usize) -> Vec<u8> {
    let mut out = Vec::new();
    let mut pos = 0;
    while !stream.is_done() && pos < input.len() {
        let want = stream.read_limit(chunk).min(input.len() - pos);
        assert!(want > 0);
        out.extend(stream.feed(&input[pos..pos + want]));
        pos += want;
    }
    out
}

/// The output in one read, checked against every small chunk size.
fn run(processor: Processor, input: &[u8]) -> Vec<u8> {
    let whole = drive(processor.start(), input, 8_192);
    for chunk in 1..=5 {
        assert_eq!(drive(processor.start(), input, chunk), whole, "chunk size {chunk}");
    }
    whole
}

fn run_line(count: Count, delimiter: u8, input: &[u8]) -> Vec<u8> {
    run(Processor::Lines(LineProcessor::new(count, delimiter)), input)
}

fn run_byte(count: Count, input: &[u8]) -> Vec<u8> {
    run(Processor::Bytes(ByteProcessor::new(count)), input)
}

// ── first_n_lines ───────────────────────────────────────────────────────────

#[test]
fn first_n_lines_basic() {
    let input = b"alpha\nbeta\ngamma\n";
    assert_eq!(run_line(Count::First(2), b'\n', input), b"alpha\nbeta\n");
}

#[test]
fn first_n_lines_zero() {
    assert_eq!(run_line(Count::First(0), b'\n', b"hello\n"), b"");
}

#[test]
fn first_n_lines_more_than_exist() {
    let input = b"a\nb\n";
    assert_eq!(run_line(Count::First(10), b'\n', input), b"a\nb\n");
}

#[test]
fn first_n_lines_no_trailing_newline() {
    // The last "line" without a trailing delimiter still counts.
    let input = b"a\nb\nc";
    assert_eq!(run_line(Count::First(2), b'\n', input), b"a\nb\n");
    assert_eq!(run_line(Count::First(3), b'\n', input), b"a\nb\nc");
}

#[test]
fn first_n_lines_nul_delimiter() {
    let input = b"a\0b\0c\0";
    assert_eq!(run_line(Count::First(2), b'\0', input), b"a\0b\0");
}

// ── all_but_last_n_lines ────────────────────────────────────────────────────

#[test]
fn all_but_last_n_lines_basic() {
    let input = b"a\nb\nc\nd\ne\n";
    assert_eq!(run_line(Count::AllButLast(2), b'\n', input), b"a\nb\nc\n");
}

#[test]
fn all_but_last_n_lines_zero() {
    let input = b"a\nb\n";
    assert_eq!(run_line(Count::AllButLast(0), b'\n', input), b"a\nb\n");
}

#[test]
fn all_but_last_n_exceeds_line_count() {
    // Asking to skip more lines than exist → empty output.
    let input = b"a\nb\nc\n";
    assert_eq!(run_line(Count::AllButLast(10), b'\n', input), b"");
}

#[test]
fn all_but_last_n_lines_exact() {
    let input = b"a\nb\nc\n";
    assert_eq!(run_line(Count::AllButLast(3), b'\n', input), b"");
    assert_eq!(run_line(Count::AllButLast(2), b'\n', input), b"a\n");
    assert_eq!(run_line(Count::AllButLast(1), b'\n', input), b"a\nb\n");
}

// ── first_n_bytes ───────────────────────────────────────────────────────────

#[test]
fn first_n_bytes_basic() {
    assert_eq!(run_byte(Count::First(3), b"hello"), b"hel");
}

#[test]
fn first_n_bytes_zero() {
    assert_eq!(run_byte(Count::First(0), b"hello"), b"");
}

#[test]
fn first_n_bytes_more_than_exist() {
    assert_eq!(run_byte(Count::First(100), b"hello"), b"hello");
}

// ── all_but_last_n_bytes ────────────────────────────────────────────────────

#[test]
fn all_but_last_n_bytes_basic() {
    assert_eq!(run_byte(Count::AllButLast(3), b"hello"), b"he");
}

#[test]
fn all_but_last_n_bytes_zero() {
    assert_eq!(run_byte(Count::AllButLast(0), b"hello"), b"hello");
}

#[test]
fn all_but_last_n_bytes_exceeds() {
    assert_eq!(run_byte(Count::AllButLast(10), b"hi"), b"");
}

#[test]
fn all_but_last_n_bytes_exact() {
    assert_eq!(run_byte(Count::AllButLast(5), b"hello"), b"");
    assert_eq!(run_byte(Count::AllButLast(3), b"hello"), b"he");
    assert_eq!(run_byte(Count::AllButLast(1), b"hello"), b"hell");
}

// ── Further cases ───────────────────────────────────────────────────────────

#[test]
fn all_but_last_lines_unterminated_last_line() {
    // The unterminated tail is a record of its own and is the one left out.
    let input = b"a\nb\nc";
    assert_eq!(run_line(Count::AllButLast(1), b'\n', input), b"a\nb\n");
    assert_eq!(run_line(Count::AllButLast(0), b'\n', input), b"a\nb\nc");
    assert_eq!(run_line(Count::AllButLast(3), b'\n', input), b"");
}

#[test]
fn all_but_last_lines_nul_delimiter_and_empty_records() {
    let input = b"\n\nx\0y\0\0";
    assert_eq!(run_line(Count::AllButLast(1), b'\0', input), b"\n\nx\0y\0");
    assert_eq!(run_line(Count::AllButLast(2), b'\0', input), b"\n\nx\0");
    assert_eq!(run_line(Count::First(1), b'\0', input), b"\n\nx\0");
}

#[test]
fn empty_input_gives_nothing() {
    for count in [Count::First(0), Count::First(5), Count::AllButLast(0), Count::AllButLast(5)] {
        assert_eq!(run_line(count, b'\n', b""), b"");
        assert_eq!(run_byte(count, b""), b"");
    }
}

#[test]
fn first_lines_stop_reading_once_complete() {
    let mut stream = LineProcessor::new(Count::First(1), b'\n').start();
    assert!(!stream.is_done());
    assert_eq!(stream.feed(b"ab"), b"ab");
    assert!(!stream.is_done());
    assert_eq!(stream.feed(b"c\nde\n"), b"c\n");
    assert!(stream.is_done());
    assert_eq!(stream.feed(b"more\n"), b"");
}

#[test]
fn zero_counts_are_done_before_reading() {
    assert!(LineProcessor::new(Count::First(0), b'\n').start().is_done());
    assert!(ByteProcessor::new(Count::First(0)).start().is_done());
    assert!(!LineProcessor::new(Count::AllButLast(0), b'\n').start().is_done());
    assert!(!ByteProcessor::new(Count::AllButLast(0)).start().is_done());
}

#[test]
fn read_limit_follows_the_bytes_left() {
    let mut stream = ByteProcessor::new(Count::First(10)).start();
    assert_eq!(stream.read_limit(4), 4);
    assert_eq!(stream.feed(b"abcdefg"), b"abcdefg");
    assert_eq!(stream.read_limit(4), 3);
    assert_eq!(stream.feed(b"hijk"), b"hij");
    assert_eq!(stream.read_limit(4), 0);
    assert!(stream.is_done());
    let lines = LineProcessor::new(Count::First(10), b'\n').start();
    assert_eq!(lines.read_limit(4), 4);
    let held = ByteProcessor::new(Count::AllButLast(1)).start();
    assert_eq!(held.read_limit(7), 7);
}

#[test]
fn held_back_output_grows_with_input() {
    let mut stream = LineProcessor::new(Count::AllButLast(1), b'\n').start();
    assert_eq!(stream.feed(b"a\n"), b"");
    assert_eq!(stream.feed(b"b"), b"a\n");
    assert_eq!(stream.feed(b"\n"), b"");
    assert_eq!(stream.feed(b"c"), b"b\n");
    assert_eq!(stream.feed(b"\nd\ne"), b"c\nd\n");
    let mut bytes = ByteProcessor::new(Count::AllButLast(2)).start();
    assert_eq!(bytes.feed(b"x"), b"");
    assert_eq!(bytes.feed(b"yz"), b"x");
    assert_eq!(bytes.feed(b"uvw"), b"yzu");
}

#[test]
fn large_inputs_agree_with_a_plain_computation() {
    let mut input = Vec::new();
    for i in 0..500u32 {
        input.extend(format!("line {i}\n").into_bytes());
    }
    input.extend(b"tail");
    let lines: Vec<&[u8]> = input.split_inclusive(|b| *b == b'\n').collect();
    for n in [0usize, 1, 7, 499, 500, 501, 1000] {
        let first: Vec<u8> = lines.iter().take(n).flat_map(|l| l.to_vec()).collect();
        assert_eq!(run_line(Count::First(n as u64), b'\n', &input), first);
        let keep = lines.len().saturating_sub(n);
        let rest: Vec<u8> = lines.iter().take(keep).flat_map(|l| l.to_vec()).collect();
        assert_eq!(run_line(Count::AllButLast(n as u64), b'\n', &input), rest);
        let bytes_first = input[..n.min(input.len())].to_vec();
        assert_eq!(run_byte(Count::First(n as u64), &input), bytes_first);
        let bytes_rest = input[..input.len().saturating_sub(n)].to_vec();
        assert_eq!(run_byte(Count::AllButLast(n as u64), &input), bytes_rest);
    }
}

#[test]
fn huge_counts() {
    assert_eq!(run_line(Count::First(u64::MAX), b'\n', b"a\nb"), b"a\nb");
    assert_eq!(run_line(Count::AllButLast(u64::MAX), b'\n', b"a\nb"), b"");
    assert_eq!(run_byte(Count::First(u64::MAX), b"ab"), b"ab");
    assert_eq!(run_byte(Count::AllButLast(u64::MAX), b"ab"), b"");
}

#[test]
fn held_back_never_exceeds_the_count() {
    // After each chunk the released bytes plus what is held back make up the
    // input read so far; here the released part is checked chunk by chunk.
    let mut stream = LineProcessor::new(Count::AllButLast(2), b'\n').start();
    let mut released = Vec::new();
    let input = b"1\n2\n3\n4\n5\n";
    for (i, b) in input.iter().enumerate() {
        released.extend(stream.feed(&[*b]));
        let read = &input[..=i];
        let records = read.split_inclusive(|c| *c == b'\n').count();
        let expected_held = records.min(2);
        let held = &read[released.len()..];
        assert_eq!(held.split_inclusive(|c| *c == b'\n').count(), expected_held);
    }
    assert_eq!(released, b"1\n2\n3\n");
}
