use rat::channel::{FanIn, Received};
use rat::record::CapturedLine;

fn line(source: &str, text: &str) -> CapturedLine {
    CapturedLine::new(source.to_string(), text.to_string())
}

#[test]
fn a_new_channel_is_empty_and_has_its_maker_s_handle() {
    let mut channel = FanIn::new();
    assert_eq!(channel.producer_count(), 1);
    assert_eq!(channel.pending_len(), 0);
    assert_eq!(channel.receive(), Received::Empty);
}

#[test]
fn lines_come_out_in_the_order_in_which_they_went_in() {
    let mut channel = FanIn::new();
    channel.add_producer();
    channel.add_producer();
    assert!(channel.send(line("A", "x1")));
    assert!(channel.send(line("B", "y1")));
    assert!(channel.send(line("A", "x2")));
    assert_eq!(channel.pending_len(), 3);
    assert_eq!(channel.receive(), Received::Line(line("A", "x1")));
    assert_eq!(channel.receive(), Received::Line(line("B", "y1")));
    assert_eq!(channel.receive(), Received::Line(line("A", "x2")));
    assert_eq!(channel.receive(), Received::Empty);
    assert_eq!(channel.pending_len(), 0);
}

#[test]
fn the_stream_ends_when_the_last_handle_is_closed() {
    let mut channel = FanIn::new();
    channel.add_producer();
    assert_eq!(channel.producer_count(), 2);
    channel.drop_producer();
    assert_eq!(channel.receive(), Received::Empty);
    channel.drop_producer();
    assert_eq!(channel.producer_count(), 0);
    assert_eq!(channel.receive(), Received::Closed);
    assert_eq!(channel.receive(), Received::Closed);
}

#[test]
fn what_is_queued_is_still_handed_out_after_the_last_handle_is_closed() {
    let mut channel = FanIn::new();
    assert!(channel.send(line("A", "x1")));
    assert!(channel.send(line("A", "x2")));
    channel.drop_producer();
    assert_eq!(channel.receive(), Received::Line(line("A", "x1")));
    assert_eq!(channel.receive(), Received::Line(line("A", "x2")));
    assert_eq!(channel.receive(), Received::Closed);
}

#[test]
fn a_channel_without_producers_takes_no_line() {
    let mut channel = FanIn::new();
    channel.drop_producer();
    assert!(!channel.send(line("A", "late")));
    assert_eq!(channel.pending_len(), 0);
    assert_eq!(channel.receive(), Received::Closed);
}

#[test]
fn closing_a_handle_that_is_not_open_changes_nothing() {
    let mut channel = FanIn::new();
    channel.drop_producer();
    channel.drop_producer();
    assert_eq!(channel.producer_count(), 0);
    channel.add_producer();
    assert_eq!(channel.producer_count(), 1);
    assert!(channel.send(line("A", "x")));
}
