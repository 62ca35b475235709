use rat::reader::{LineFramer, ReadFault, ReadOutcome, ReaderEvent};
use std::io::BufRead;

fn text(line: &str) -> ReaderEvent {
    ReaderEvent::Line(line.to_string())
}

#[test]
fn a_chunk_gives_one_event_for_each_line_it_ends() {
    let mut framer = LineFramer::new();
    assert_eq!(framer.feed(b"x1\nx2\n"), vec![text("x1"), text("x2")]);
    assert_eq!(framer.finish(), None);
}

#[test]
fn a_line_that_is_not_ended_waits_for_the_next_chunk() {
    let mut framer = LineFramer::new();
    assert_eq!(framer.feed(b"tem"), Vec::new());
    assert_eq!(framer.feed(b"p=2"), Vec::new());
    assert_eq!(framer.feed(b"1\nhum"), vec![text("temp=21")]);
    assert_eq!(framer.feed(b"=40\n"), vec![text("hum=40")]);
    assert_eq!(framer.finish(), None);
}

#[test]
fn a_carriage_return_before_the_line_feed_is_no_part_of_the_line() {
    let mut framer = LineFramer::new();
    assert_eq!(framer.feed(b"x1\r\nx2\n"), vec![text("x1"), text("x2")]);
    assert_eq!(framer.feed(b"a\r"), Vec::new());
    assert_eq!(framer.feed(b"\nb\r\r\n"), vec![text("a"), text("b\r")]);
    assert_eq!(framer.feed(b"c\rd\n"), vec![text("c\rd")]);
}

#[test]
fn empty_lines_are_lines() {
    let mut framer = LineFramer::new();
    assert_eq!(framer.feed(b"\n\r\n\nx\n"), vec![text(""), text(""), text(""), text("x")]);
}

#[test]
fn an_empty_chunk_changes_nothing() {
    let mut framer = LineFramer::new();
    assert_eq!(framer.feed(b""), Vec::new());
    assert_eq!(framer.feed(b"ab"), Vec::new());
    assert_eq!(framer.feed(b""), Vec::new());
    assert_eq!(framer.feed(b"\n"), vec![text("ab")]);
}

#[test]
fn a_line_that_is_no_text_is_marked_and_the_next_one_is_read() {
    let mut framer = LineFramer::new();
    assert_eq!(
        framer.feed(b"ok\n\xff\xfe\nnext\n"),
        vec![text("ok"), ReaderEvent::Undecodable, text("next")]
    );
    assert_eq!(framer.feed(b"\xc3\n\xc3\xa9\n"), vec![ReaderEvent::Undecodable, text("é")]);
    assert_eq!(framer.feed(b"\xed\xa0\x80\n"), vec![ReaderEvent::Undecodable]);
    assert_eq!(framer.feed(b"\xc0\xaf\n"), vec![ReaderEvent::Undecodable]);
}

#[test]
fn text_of_several_bytes_a_character_is_decoded() {
    let mut framer = LineFramer::new();
    assert_eq!(framer.feed("21 °C\nпорт\n".as_bytes()), vec![text("21 °C"), text("порт")]);
    let bytes = "温度".as_bytes();
    assert_eq!(framer.feed(&bytes[..2]), Vec::new());
    assert_eq!(framer.feed(&bytes[2..]), Vec::new());
    assert_eq!(framer.feed(b"\n"), vec![text("温度")]);
}

#[test]
fn what_is_left_at_the_end_of_input_is_a_last_line() {
    let mut framer = LineFramer::new();
    assert_eq!(framer.feed(b"x1\nrest"), vec![text("x1")]);
    assert_eq!(framer.finish(), Some(text("rest")));

    let mut framer = LineFramer::new();
    assert_eq!(framer.feed(b"rest\r"), Vec::new());
    assert_eq!(framer.finish(), Some(text("rest\r")));

    let mut framer = LineFramer::new();
    assert_eq!(framer.feed(b"\xff"), Vec::new());
    assert_eq!(framer.finish(), Some(ReaderEvent::Undecodable));

    assert_eq!(LineFramer::new().finish(), None);
}

#[test]
fn the_lines_do_not_depend_on_where_the_stream_is_cut() {
    let stream: &[u8] = b"alpha\r\nbeta\n\ngamma,1,2\r\n\xffbad\ndelta";
    let mut whole = LineFramer::new();
    let mut expected = whole.feed(stream);
    expected.extend(whole.finish());
    for cut in 0..=stream.len() {
        let mut framer = LineFramer::new();
        let mut events = framer.feed(&stream[..cut]);
        events.extend(framer.feed(&stream[cut..]));
        events.extend(framer.finish());
        assert_eq!(events, expected);
    }
    let mut framer = LineFramer::new();
    let mut events = Vec::new();
    for byte in stream {
        events.extend(framer.feed(&[*byte]));
    }
    events.extend(framer.finish());
    assert_eq!(events, expected);
    assert_eq!(
        expected,
        vec![
            text("alpha"),
            text("beta"),
            text(""),
            text("gamma,1,2"),
            ReaderEvent::Undecodable,
            text("delta"),
        ]
    );
}

#[test]
fn the_lines_are_those_of_the_standard_line_reader() {
    let streams: [&[u8]; 6] = [
        b"",
        b"\n",
        b"a\nb",
        b"a\r\nb\r\n",
        b"one\r\n\r\ntwo\rthree\n\nlast\r",
        "x1\nüber\n°\n".as_bytes(),
    ];
    for stream in streams {
        let mut framer = LineFramer::new();
        let mut events = framer.feed(stream);
        events.extend(framer.finish());
        let mut expected = Vec::new();
        for line in std::io::BufReader::new(stream).lines() {
            expected.push(text(&line.unwrap()));
        }
        assert_eq!(events, expected);
    }
}

#[test]
fn a_read_that_only_had_to_wait_is_not_a_failure() {
    assert_eq!(ReadOutcome::of_fault(ReadFault::TimedOut), ReadOutcome::NotReady);
    assert_eq!(ReadOutcome::of_fault(ReadFault::WouldBlock), ReadOutcome::NotReady);
    assert_eq!(ReadOutcome::of_fault(ReadFault::Interrupted), ReadOutcome::NotReady);
    assert_eq!(ReadOutcome::of_fault(ReadFault::Other), ReadOutcome::Failed);
}
