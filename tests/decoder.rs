use sse_stream::{Decoder, Error, Event};

fn decode_all(chunks: &[&[u8]]) -> (Vec<Event>, Result<(), Error>) {
    let mut d = Decoder::new();
    let mut events = Vec::new();
    for c in chunks {
        events.extend(d.feed(c));
    }
    (events, d.finish())
}

#[test]
fn data_lines_join_with_line_feed() {
    let (events, end) = decode_all(&[b"data: foo\ndata: bar\n\n"]);
    assert_eq!(events.len(), 1);
    assert_eq!(events[0].data, "foo\nbar");
    assert_eq!(events[0].event_type, "message");
    assert_eq!(events[0].id, None);
    assert_eq!(events[0].retry, None);
    assert!(end.is_ok());
}

#[test]
fn every_chunking_gives_the_same_events() {
    let stream: &[u8] = "event: greet\r\ndata: h\u{e9}llo \u{1f600}\r\nid: 7\r\n\r\n: note\rdata:x\rretry: 1500\r\r"
        .as_bytes();
    let (whole, whole_end) = decode_all(&[stream]);
    assert_eq!(whole.len(), 2);
    assert_eq!(whole[0].event_type, "greet");
    assert_eq!(whole[0].data, "h\u{e9}llo \u{1f600}");
    assert_eq!(whole[0].id, Some("7".to_string()));
    assert_eq!(whole[1].data, "x");
    assert_eq!(whole[1].retry, Some(1500));
    assert!(whole_end.is_ok());
    for cut in 0..=stream.len() {
        let (events, end) = decode_all(&[&stream[..cut], &stream[cut..]]);
        assert_eq!(events.len(), whole.len());
        for (a, b) in events.iter().zip(whole.iter()) {
            assert_eq!(a.event_type, b.event_type);
            assert_eq!(a.data, b.data);
            assert_eq!(a.id, b.id);
            assert_eq!(a.retry, b.retry);
        }
        assert!(end.is_ok());
    }
    let single: Vec<&[u8]> = stream.chunks(1).collect();
    let (events, _) = decode_all(&single);
    assert_eq!(events.len(), 2);
    assert_eq!(events[0].data, whole[0].data);
}

#[test]
fn blank_lines_alone_give_no_event() {
    let (events, end) = decode_all(&[b"\n\n\r\n\r\r"]);
    assert!(events.is_empty());
    assert!(end.is_ok());
}

#[test]
fn missing_event_field_defaults_to_message() {
    let (events, _) = decode_all(&[b"data: x\n\n"]);
    assert_eq!(events[0].event_type, "message");
}

#[test]
fn end_after_complete_event_is_normal() {
    let (events, end) = decode_all(&[b"data: done\n\n"]);
    assert_eq!(events.len(), 1);
    assert!(end.is_ok());
}

#[test]
fn end_inside_partial_line_is_unexpected_eof() {
    let (events, end) = decode_all(&[b"data: partial"]);
    assert!(events.is_empty());
    assert_eq!(end.unwrap_err(), Error::UnexpectedEof);
}

#[test]
fn end_inside_pending_event_is_unexpected_eof() {
    let (events, end) = decode_all(&[b"data: partial\n"]);
    assert!(events.is_empty());
    assert_eq!(end.unwrap_err(), Error::UnexpectedEof);
}

#[test]
fn line_without_colon_is_invalid() {
    let mut d = Decoder::new();
    let events = d.feed(b"not-a-field-no-colon-and-not-blank-or-comment\n");
    assert!(events.is_empty());
    let expected = Error::InvalidLine("not-a-field-no-colon-and-not-blank-or-comment".to_string());
    assert_eq!(d.error(), Some(&expected));
    assert_eq!(d.finish().unwrap_err(), expected);
}

#[test]
fn invalid_utf8_line_is_rendered_lossily() {
    let mut d = Decoder::new();
    d.feed(b"data: a\xffb\n");
    assert_eq!(d.error(), Some(&Error::InvalidLine("data: a\u{fffd}b".to_string())));
}

#[test]
fn invalid_utf8_event_type_is_reported() {
    let mut d = Decoder::new();
    d.feed(b"event: \xc3\x28\ndata: x\n\n");
    assert!(matches!(d.error(), Some(Error::InvalidEventType(_))));
}

#[test]
fn no_event_after_failure() {
    let mut d = Decoder::new();
    d.feed(b"bogus\n");
    let events = d.feed(b"data: x\n\n");
    assert!(events.is_empty());
}

#[test]
fn bare_known_field_has_empty_value() {
    let (events, _) = decode_all(&[b"data\nevent\n\n"]);
    assert_eq!(events[0].data, "");
    assert_eq!(events[0].event_type, "");
}

#[test]
fn unknown_field_and_comment_are_ignored() {
    let (events, end) = decode_all(&[b": hello\nfoo: bar\n\ndata:no space\n\n"]);
    assert_eq!(events.len(), 1);
    assert_eq!(events[0].data, "no space");
    assert!(end.is_ok());
}

#[test]
fn only_one_leading_space_is_stripped() {
    let (events, _) = decode_all(&[b"data:  two\n\n"]);
    assert_eq!(events[0].data, " two");
}

#[test]
fn retry_values() {
    let (events, _) = decode_all(&[b"retry: 3000\n\nretry: 12a\ndata: x\n\nretry: 18446744073709551615\n\nretry: 18446744073709551616\ndata: y\n\n"]);
    assert_eq!(events.len(), 4);
    assert_eq!(events[0].retry, Some(3000));
    assert_eq!(events[1].retry, None);
    assert_eq!(events[2].retry, Some(u64::MAX));
    assert_eq!(events[3].retry, None);
}

#[test]
fn id_with_nul_is_ignored_and_last_id_kept() {
    let mut d = Decoder::new();
    let events = d.feed(b"id: 1\ndata: a\n\nid: x\x00y\ndata: b\n\ndata: c\n\n");
    assert_eq!(events.len(), 3);
    assert_eq!(events[0].id, Some("1".to_string()));
    assert_eq!(events[1].id, None);
    assert_eq!(events[2].id, None);
    assert_eq!(d.last_event_id(), Some(&"1".to_string()));
}

#[test]
fn crlf_split_across_chunks_is_one_terminator() {
    let (events, end) = decode_all(&[b"data: a\r", b"\n\r", b"\n"]);
    assert_eq!(events.len(), 1);
    assert_eq!(events[0].data, "a");
    assert!(end.is_ok());
}

#[test]
fn transport_failure_kind_depends_on_first_byte() {
    let mut d = Decoder::new();
    let e = d.transport_failure("refused".to_string());
    assert!(matches!(e, Error::HttpRequest(_)));
    assert!(!e.is_http_stream_error());
    assert!(e.is_transport_error());
    d.feed(b"da");
    let e = d.transport_failure("reset".to_string());
    assert!(e.is_http_stream_error());
    assert_eq!(e.source(), Some(&"reset".to_string()));
}

#[test]
fn error_equality() {
    assert_eq!(Error::UnexpectedEof, Error::UnexpectedEof);
    assert_eq!(Error::InvalidLine("a".to_string()), Error::InvalidLine("a".to_string()));
    assert_ne!(Error::InvalidLine("a".to_string()), Error::InvalidLine("b".to_string()));
    assert_ne!(Error::Unexpected("a".to_string()), Error::Unexpected("a".to_string()));
    assert_ne!(Error::HttpStream("a".to_string()), Error::UnexpectedEof);
    assert_eq!(Error::UnexpectedEof.source(), None);
    assert_eq!(Error::Unexpected("c".to_string()).source(), Some(&"c".to_string()));
}

#[test]
fn encoded_events_decode_to_themselves() {
    let text = "event: greet\ndata: a\ndata: \u{3b1}\u{3b2}\ndata: \nid: 9\nretry: 42\n\nevent: message\ndata: \n\nevent: x\ndata: only\nretry: 0\n\n";
    let (events, end) = decode_all(&[text.as_bytes()]);
    assert!(end.is_ok());
    assert_eq!(events.len(), 3);
    assert_eq!(events[0].event_type, "greet");
    assert_eq!(events[0].data, "a\n\u{3b1}\u{3b2}\n");
    assert_eq!(events[0].id, Some("9".to_string()));
    assert_eq!(events[0].retry, Some(42));
    assert_eq!(events[1].event_type, "message");
    assert_eq!(events[1].data, "");
    assert_eq!(events[1].id, None);
    assert_eq!(events[1].retry, None);
    assert_eq!(events[2].event_type, "x");
    assert_eq!(events[2].data, "only");
    assert_eq!(events[2].retry, Some(0));
}
