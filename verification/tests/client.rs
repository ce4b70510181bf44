use bytes::BytesMut;
use rustler_live_view_toy_engine::constants::MESSAGE_DELIMITER;
use rustler_live_view_toy_engine::types::client::Client;
use rustler_live_view_toy_engine::types::client::MessagePoll;

fn client_with_input(input: &[u8]) -> Client<()> {
    let mut client = Client::new(());
    client.rd.extend_from_slice(input);
    client
}

#[test]
fn new_client_has_empty_buffers() {
    let client = Client::new(7u32);
    assert_eq!(client.socket, 7u32);
    assert!(client.rd.is_empty());
    assert!(client.wr.is_empty());
}

#[test]
fn delimiter_is_a_newline() {
    assert_eq!(MESSAGE_DELIMITER, b'\n');
}

#[test]
fn buffer_appends_in_order() {
    let mut client = Client::new(());
    client.buffer(b"hello ");
    client.buffer(b"world");
    assert_eq!(&client.wr[..], b"hello world");
    assert!(client.rd.is_empty());
}

#[test]
fn buffer_empty_message_changes_nothing() {
    let mut client = Client::new(());
    client.buffer(b"abc");
    client.buffer(b"");
    assert_eq!(&client.wr[..], b"abc");
}

#[test]
fn consume_written_drops_the_written_prefix() {
    let mut client = Client::new(());
    client.buffer(b"abcdef");
    client.consume_written(2);
    assert_eq!(&client.wr[..], b"cdef");
    client.consume_written(4);
    assert!(client.wr.is_empty());
}

#[test]
fn consume_written_zero_keeps_everything() {
    let mut client = Client::new(());
    client.buffer(b"xyz");
    client.consume_written(0);
    assert_eq!(&client.wr[..], b"xyz");
}

#[test]
fn next_message_splits_at_first_delimiter() {
    let mut client = client_with_input(b"left\nright\nrest");
    let first = client.next_message().expect("a complete message");
    assert_eq!(&first[..], b"left");
    assert_eq!(&client.rd[..], b"right\nrest");
    let second = client.next_message().expect("a second message");
    assert_eq!(&second[..], b"right");
    assert_eq!(&client.rd[..], b"rest");
    assert!(client.next_message().is_none());
    assert_eq!(&client.rd[..], b"rest");
}

#[test]
fn next_message_without_delimiter_leaves_buffer() {
    let mut client = client_with_input(b"partial");
    assert!(client.next_message().is_none());
    assert_eq!(&client.rd[..], b"partial");
}

#[test]
fn next_message_on_empty_buffer() {
    let mut client = client_with_input(b"");
    assert!(client.next_message().is_none());
    assert!(client.rd.is_empty());
}

#[test]
fn next_message_empty_message() {
    let mut client = client_with_input(b"\n\nx");
    let first = client.next_message().expect("an empty message");
    assert!(first.is_empty());
    let second = client.next_message().expect("another empty message");
    assert!(second.is_empty());
    assert_eq!(&client.rd[..], b"x");
}

#[test]
fn next_message_keeps_write_buffer() {
    let mut client = client_with_input(b"id\n");
    client.buffer(b"out");
    let message = client.next_message().expect("a message");
    assert_eq!(&message[..], b"id");
    assert_eq!(&client.wr[..], b"out");
    assert!(client.rd.is_empty());
}

#[test]
fn poll_message_yields_message_even_when_closed() {
    let mut client = client_with_input(b"w\n");
    match client.poll_message(true) {
        MessagePoll::Ready(Some(m)) => assert_eq!(&m[..], b"w"),
        _ => panic!("expected a message"),
    }
    match client.poll_message(true) {
        MessagePoll::Ready(None) => {}
        _ => panic!("expected the end of the stream"),
    }
}

#[test]
fn poll_message_not_ready_while_open() {
    let mut client = client_with_input(b"half");
    match client.poll_message(false) {
        MessagePoll::NotReady => {}
        _ => panic!("expected nothing yet"),
    }
    assert_eq!(&client.rd[..], b"half");
}

#[test]
fn poll_message_closed_with_partial_data_ends_stream() {
    let mut client = client_with_input(b"half");
    match client.poll_message(true) {
        MessagePoll::Ready(None) => {}
        _ => panic!("expected the end of the stream"),
    }
    assert_eq!(&client.rd[..], b"half");
}

#[test]
fn framing_round_trip() {
    let messages: Vec<&[u8]> = vec![b"one", b"", b"three three", b"4"];
    let mut input = BytesMut::new();
    for m in &messages {
        input.extend_from_slice(m);
        input.extend_from_slice(&[MESSAGE_DELIMITER]);
    }
    let mut client = client_with_input(&input);
    for m in &messages {
        let got = client.next_message().expect("a message");
        assert_eq!(&got[..], *m);
    }
    assert!(client.next_message().is_none());
    assert!(client.rd.is_empty());
}

#[test]
fn buffer_lengths_follow_contents() {
    let mut client = client_with_input(b"ab\ncd");
    assert_eq!(client.read_len(), 5);
    assert_eq!(client.write_len(), 0);
    client.buffer(b"xyz");
    assert_eq!(client.write_len(), 3);
    client.next_message();
    assert_eq!(client.read_len(), 2);
    client.consume_written(1);
    assert_eq!(client.write_len(), 2);
}
