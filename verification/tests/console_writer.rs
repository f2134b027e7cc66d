use uefi_logger::output::{Console, Output, WriteError};
use uefi_logger::staging::{Capacity, Staging, BUF_SIZE};
use uefi_logger::ucs2::{to_unit, CARRIAGE_RETURN, LINE_FEED, TERMINATOR};
use uefi_logger::writer::OutputWriter;

/// A console that keeps every string it is handed and rejects the calls
/// whose number, counted from zero, is listed in `reject`.
struct Recorder {
    seen: Vec<Vec<u16>>,
    reject: Vec<usize>,
}

impl Recorder {
    fn accepting() -> Recorder {
        Recorder { seen: Vec::new(), reject: Vec::new() }
    }

    fn rejecting(calls: &[usize]) -> Recorder {
        Recorder { seen: Vec::new(), reject: calls.to_vec() }
    }
}

impl Output for Recorder {
    type Error = u32;

    fn output_string(&mut self, units: &[u16]) -> Result<(), u32> {
        let call = self.seen.len();
        self.seen.push(units.to_vec());
        if self.reject.contains(&call) {
            Err(0x8000_0007)
        } else {
            Ok(())
        }
    }
}

fn units(text: &str) -> Vec<u16> {
    text.chars().map(|c| c as u32 as u16).collect()
}

fn terminated(text: &str) -> Vec<u16> {
    let mut string = units(text);
    string.push(0);
    string
}

fn write_with(capacity: usize, device: Recorder, text: &str) -> (Result<(), WriteError>, Recorder) {
    let capacity = Capacity::new(capacity).unwrap();
    let mut writer = OutputWriter::with_capacity(device, capacity);
    let result = writer.write_str(text);
    (result, writer.into_output())
}

#[test]
fn constants_have_their_values() {
    assert_eq!(BUF_SIZE, 128);
    assert_eq!(TERMINATOR, 0);
    assert_eq!(CARRIAGE_RETURN, 13);
    assert_eq!(LINE_FEED, 10);
}

#[test]
fn capacity_accepts_one_to_buf_size() {
    assert!(Capacity::new(0).is_none());
    assert_eq!(Capacity::new(1).unwrap().get(), 1);
    assert_eq!(Capacity::new(4).unwrap().get(), 4);
    assert_eq!(Capacity::new(128).unwrap().get(), 128);
    assert!(Capacity::new(129).is_none());
    assert!(Capacity::new(usize::MAX).is_none());
    assert_eq!(Capacity::full().get(), 128);
}

#[test]
fn short_text_is_written_in_one_string() {
    let mut writer = OutputWriter::new(Recorder::accepting());
    assert_eq!(writer.write_str("hi"), Ok(()));
    let device = writer.into_output();
    assert_eq!(device.seen, vec![vec![104, 105, 0]]);
}

#[test]
fn short_text_with_newline_is_written_in_one_string() {
    let (result, device) = write_with(4, Recorder::accepting(), "a\n");
    assert_eq!(result, Ok(()));
    assert_eq!(device.seen, vec![vec![97, 13, 10, 0]]);
}

#[test]
fn short_text_one_below_capacity() {
    let text = "x".repeat(127);
    let mut writer = OutputWriter::new(Recorder::accepting());
    assert_eq!(writer.write_str(&text), Ok(()));
    let device = writer.into_output();
    assert_eq!(device.seen.len(), 1);
    assert_eq!(device.seen[0], terminated(&text));
}

#[test]
fn few_values_with_newlines_can_take_two_strings() {
    let (result, device) = write_with(4, Recorder::accepting(), "a\n\n");
    assert_eq!(result, Ok(()));
    assert_eq!(device.seen, vec![vec![97, 13, 10, 13, 0], vec![10, 0]]);
}

#[test]
fn exact_multiple_ends_with_a_terminator_alone() {
    let (result, device) = write_with(4, Recorder::accepting(), "abcd");
    assert_eq!(result, Ok(()));
    assert_eq!(device.seen, vec![vec![97, 98, 99, 100, 0], vec![0]]);
}

#[test]
fn exact_multiple_of_two_capacities() {
    let (result, device) = write_with(4, Recorder::accepting(), "abcdefgh");
    assert_eq!(result, Ok(()));
    assert_eq!(device.seen.len(), 8 / 4 + 1);
    assert_eq!(
        device.seen,
        vec![vec![97, 98, 99, 100, 0], vec![101, 102, 103, 104, 0], vec![0]]
    );
}

#[test]
fn exact_multiple_counts_expanded_newlines() {
    let (result, device) = write_with(4, Recorder::accepting(), "a\nb");
    assert_eq!(result, Ok(()));
    assert_eq!(device.seen, vec![vec![97, 13, 10, 98, 0], vec![0]]);
}

#[test]
fn full_capacity_text_takes_two_strings() {
    let text = "y".repeat(128);
    let mut writer = OutputWriter::new(Recorder::accepting());
    assert_eq!(writer.write_str(&text), Ok(()));
    let device = writer.into_output();
    assert_eq!(device.seen.len(), 2);
    assert_eq!(device.seen[0], terminated(&text));
    assert_eq!(device.seen[0].len(), 129);
    assert_eq!(device.seen[1], vec![0]);
}

#[test]
fn one_above_full_capacity() {
    let text = "z".repeat(129);
    let mut writer = OutputWriter::new(Recorder::accepting());
    assert_eq!(writer.write_str(&text), Ok(()));
    let device = writer.into_output();
    assert_eq!(device.seen.len(), 2);
    assert_eq!(device.seen[0], terminated(&"z".repeat(128)));
    assert_eq!(device.seen[1], vec![122, 0]);
}

#[test]
fn newline_becomes_carriage_return_line_feed() {
    let mut writer = OutputWriter::new(Recorder::accepting());
    assert_eq!(writer.write_str("one\ntwo\n"), Ok(()));
    let device = writer.into_output();
    assert_eq!(
        device.seen,
        vec![vec![111, 110, 101, 13, 10, 116, 119, 111, 13, 10, 0]]
    );
}

#[test]
fn carriage_return_alone_is_kept_as_it_is() {
    let mut writer = OutputWriter::new(Recorder::accepting());
    assert_eq!(writer.write_str("a\rb"), Ok(()));
    let device = writer.into_output();
    assert_eq!(device.seen, vec![vec![97, 13, 98, 0]]);
}

#[test]
fn every_line_feed_gets_a_carriage_return() {
    let mut writer = OutputWriter::new(Recorder::accepting());
    assert_eq!(writer.write_str("\r\n"), Ok(()));
    let device = writer.into_output();
    assert_eq!(device.seen, vec![vec![13, 13, 10, 0]]);
}

#[test]
fn newline_pair_can_be_split_between_strings() {
    let (result, device) = write_with(4, Recorder::accepting(), "abc\nd");
    assert_eq!(result, Ok(()));
    assert_eq!(device.seen, vec![vec![97, 98, 99, 13, 0], vec![10, 100, 0]]);
}

#[test]
fn strings_rejoin_to_the_stream() {
    let text = "first line\nsecond line\nthird";
    let (result, device) = write_with(7, Recorder::accepting(), text);
    assert_eq!(result, Ok(()));
    let mut joined: Vec<u16> = Vec::new();
    for string in &device.seen {
        assert_eq!(string.last(), Some(&0));
        assert!(string.len() <= 8);
        joined.extend_from_slice(&string[..string.len() - 1]);
    }
    assert_eq!(joined, units("first line\r\nsecond line\r\nthird"));
    assert_eq!(device.seen.len(), joined.len() / 7 + 1);
}

#[test]
fn empty_text_is_written_as_a_terminator() {
    let mut writer = OutputWriter::new(Recorder::accepting());
    assert_eq!(writer.write_str(""), Ok(()));
    let device = writer.into_output();
    assert_eq!(device.seen, vec![vec![0]]);
}

#[test]
fn empty_text_rejected() {
    let mut writer = OutputWriter::new(Recorder::rejecting(&[0]));
    assert_eq!(writer.write_str(""), Err(WriteError));
    let device = writer.into_output();
    assert_eq!(device.seen, vec![vec![0]]);
}

#[test]
fn capacity_four_boundary() {
    let (result, device) = write_with(4, Recorder::accepting(), "ab\ncd");
    assert_eq!(result, Ok(()));
    assert_eq!(device.seen, vec![vec![97, 98, 13, 10, 0], vec![99, 100, 0]]);
}

#[test]
fn rejected_first_string_ends_the_write() {
    let (result, device) = write_with(4, Recorder::rejecting(&[0]), "ab\ncd");
    assert_eq!(result, Err(WriteError));
    assert_eq!(device.seen, vec![vec![97, 98, 13, 10, 0]]);
}

#[test]
fn rejected_last_string_is_reported() {
    let (result, device) = write_with(4, Recorder::rejecting(&[1]), "ab\ncd");
    assert_eq!(result, Err(WriteError));
    assert_eq!(device.seen, vec![vec![97, 98, 13, 10, 0], vec![99, 100, 0]]);
}

#[test]
fn rejected_middle_string_ends_the_write() {
    let (result, device) = write_with(2, Recorder::rejecting(&[1]), "abcdefg");
    assert_eq!(result, Err(WriteError));
    assert_eq!(device.seen, vec![vec![97, 98, 0], vec![99, 100, 0]]);
}

#[test]
fn rejection_between_the_units_of_a_newline() {
    let (result, device) = write_with(1, Recorder::rejecting(&[1]), "a\nb");
    assert_eq!(result, Err(WriteError));
    assert_eq!(device.seen, vec![vec![97, 0], vec![13, 0]]);
}

#[test]
fn capacity_one_flushes_every_unit() {
    let (result, device) = write_with(1, Recorder::accepting(), "a\n");
    assert_eq!(result, Ok(()));
    assert_eq!(device.seen, vec![vec![97, 0], vec![13, 0], vec![10, 0], vec![0]]);
}

#[test]
fn scalar_above_sixteen_bits_is_truncated() {
    assert_eq!(to_unit('\u{1F600}'), 0xF600);
    assert_eq!(to_unit('\u{1F600}'), (0x1F600u32 & 0xFFFF) as u16);
    assert_eq!(to_unit('\u{10FFFF}'), 0xFFFF);
    assert_eq!(to_unit('\u{10000}'), 0);
    let mut writer = OutputWriter::new(Recorder::accepting());
    assert_eq!(writer.write_str("a\u{1F600}b"), Ok(()));
    let device = writer.into_output();
    assert_eq!(device.seen, vec![vec![97, 0xF600, 98, 0]]);
}

#[test]
fn scalar_within_sixteen_bits_keeps_its_value() {
    assert_eq!(to_unit('\0'), 0);
    assert_eq!(to_unit('A'), 0x41);
    assert_eq!(to_unit('\r'), 13);
    assert_eq!(to_unit('\n'), 10);
    assert_eq!(to_unit('\u{00E9}'), 0x00E9);
    assert_eq!(to_unit('\u{20AC}'), 0x20AC);
    assert_eq!(to_unit('\u{FFFF}'), 0xFFFF);
}

#[test]
fn writes_follow_one_another() {
    let capacity = Capacity::new(4).unwrap();
    let mut writer = OutputWriter::with_capacity(Recorder::accepting(), capacity);
    assert_eq!(writer.write_str("abc"), Ok(()));
    assert_eq!(writer.write_str("defgh"), Ok(()));
    let device = writer.into_output();
    assert_eq!(
        device.seen,
        vec![vec![97, 98, 99, 0], vec![100, 101, 102, 103, 0], vec![104, 0]]
    );
}

#[test]
fn write_after_a_rejected_write_starts_afresh() {
    let capacity = Capacity::new(4).unwrap();
    let mut writer = OutputWriter::with_capacity(Recorder::rejecting(&[0]), capacity);
    assert_eq!(writer.write_str("abcdef"), Err(WriteError));
    assert_eq!(writer.write_str("xy"), Ok(()));
    let device = writer.into_output();
    assert_eq!(device.seen, vec![vec![97, 98, 99, 100, 0], vec![120, 121, 0]]);
}

#[test]
fn new_writer_has_made_no_call() {
    let writer = OutputWriter::new(Recorder::accepting());
    let device = writer.into_output();
    assert!(device.seen.is_empty());
}

#[test]
fn staging_appends_then_flushes() {
    let mut console = Console::new(Recorder::accepting());
    let mut staging = Staging::new(Capacity::new(3).unwrap());
    assert_eq!(staging.append(&mut console, 'a'), Ok(()));
    assert_eq!(staging.append(&mut console, 'b'), Ok(()));
    assert_eq!(staging.append(&mut console, 'c'), Ok(()));
    assert_eq!(staging.append(&mut console, 'd'), Ok(()));
    assert_eq!(staging.flush(&mut console), Ok(()));
    assert_eq!(staging.flush(&mut console), Ok(()));
    let device = console.into_device();
    assert_eq!(device.seen, vec![vec![97, 98, 99, 0], vec![100, 0], vec![0]]);
}

#[test]
fn staging_append_reports_a_rejected_flush() {
    let mut console = Console::new(Recorder::rejecting(&[0]));
    let mut staging = Staging::new(Capacity::new(2).unwrap());
    assert_eq!(staging.append(&mut console, 'a'), Ok(()));
    assert_eq!(staging.append(&mut console, '\n'), Err(WriteError));
    assert_eq!(staging.flush(&mut console), Ok(()));
    let device = console.into_device();
    assert_eq!(device.seen, vec![vec![97, 13, 0], vec![0]]);
}

#[test]
fn staging_flush_reports_rejection_and_empties() {
    let mut console = Console::new(Recorder::rejecting(&[0]));
    let mut staging = Staging::new(Capacity::full());
    assert_eq!(staging.append(&mut console, 'q'), Ok(()));
    assert_eq!(staging.flush(&mut console), Err(WriteError));
    assert_eq!(staging.append(&mut console, 'r'), Ok(()));
    assert_eq!(staging.flush(&mut console), Ok(()));
    let device = console.into_device();
    assert_eq!(device.seen, vec![vec![113, 0], vec![114, 0]]);
}

#[test]
fn console_hands_strings_through() {
    let mut console = Console::new(Recorder::rejecting(&[1]));
    assert_eq!(console.output_string(&[72, 105, 0]), Ok(()));
    assert_eq!(console.output_string(&[0]), Err(0x8000_0007));
    let device = console.into_device();
    assert_eq!(device.seen, vec![vec![72, 105, 0], vec![0]]);
}
