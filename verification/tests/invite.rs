use gameshare::signaling::{
    decode_invite, decode_invite_bytes, encode_invite, generate_token, listen_address,
    parse_invite, peer_address, reader_step, token_from_picks, viewer_url, writer_step,
    InviteError, ReaderAction, ReaderEvent, SignalMessage, WriterAction, WriterEvent,
    SIGNALING_PORT, TOKEN_LEN,
};
use gameshare::text::IntError;

const ALPHABET: &str = "ABCDEFGHJKLMNPQRSTUVWXYZ23456789";

fn message_of(e: InviteError) -> String {
    e.to_string()
}

#[test]
fn invite_round_trip() {
    let code = encode_invite("192.168.1.20", 9001, "ABCD2345");
    let (host, port, token) = decode_invite(&code).unwrap();
    assert_eq!((host.as_str(), port, token.as_str()), ("192.168.1.20", 9001, "ABCD2345"));
}

#[test]
fn invite_is_unpadded_base64_of_host_port_token() {
    assert_eq!(encode_invite("10.0.0.1", 9001, "AB"), "MTAuMC4wLjE6OTAwMTpBQg");
    assert_eq!(encode_invite("", 0, ""), "OjA6");
}

#[test]
fn invite_uses_only_url_safe_characters() {
    let code = encode_invite("\u{fffd}\u{10ffff}~~~???", 65535, "\u{7ff}\u{bff}>>>");
    assert!(code.chars().all(|c| c.is_ascii_alphanumeric() || c == '-' || c == '_'));
    assert!(code.contains('-') || code.contains('_'));
    let (host, port, token) = decode_invite(&code).unwrap();
    assert_eq!(host, "\u{fffd}\u{10ffff}~~~???");
    assert_eq!(port, 65535);
    assert_eq!(token, "\u{7ff}\u{bff}>>>");
}

#[test]
fn token_may_hold_colons() {
    let (host, port, token) = decode_invite(&encode_invite("h", 1, "a:b:c")).unwrap();
    assert_eq!((host.as_str(), port, token.as_str()), ("h", 1, "a:b:c"));
}

#[test]
fn host_with_colons_is_not_read_back() {
    let refused = decode_invite(&encode_invite("::1", 9001, "AB"));
    assert!(matches!(refused, Err(InviteError::Port(IntError::Empty))));
}

#[test]
fn invite_that_is_no_base64_is_refused() {
    let e = decode_invite("not base64!").unwrap_err();
    assert!(matches!(&e, InviteError::Base64(_)));
    assert!(message_of(e).starts_with("Invalid invite (base64): "));
    assert!(matches!(decode_invite("MTAuMC4wLjE6OTAwMTpBQg=="), Err(InviteError::Base64(_))));
}

#[test]
fn base64_error_is_in_the_words_of_the_decoder() {
    let e = decode_invite("MTAu!").unwrap_err();
    assert_eq!(message_of(e), "Invalid invite (base64): Invalid symbol 33, offset 4.");
}

#[test]
fn invite_that_is_no_text_is_refused() {
    let e = decode_invite("__79").unwrap_err();
    assert_eq!(
        message_of(e),
        "Invalid invite (utf8): invalid utf-8 sequence of 1 bytes from index 0",
    );
    assert!(matches!(decode_invite_bytes(Ok(vec![0xff])), Err(InviteError::Utf8(_))));
    assert!(matches!(
        decode_invite_bytes(Err("words".to_string())),
        Err(InviteError::Base64(e)) if e == "words"
    ));
}

#[test]
fn invite_with_too_few_parts_is_refused() {
    for text in ["", "host", "host:9001"] {
        let e = parse_invite(text).unwrap_err();
        assert!(matches!(&e, InviteError::Format));
        assert_eq!(message_of(e), "Invalid invite format");
    }
    assert_eq!(decode_invite_bytes(Ok(b"h:5:t".to_vec())).unwrap(), ("h".into(), 5, "t".into()));
}

#[test]
fn invite_port_is_read_as_a_number() {
    assert_eq!(parse_invite("h:+9001:t").unwrap().1, 9001);
    assert_eq!(parse_invite("h:0009001:t").unwrap().1, 9001);
    assert_eq!(parse_invite("h:65535:").unwrap(), ("h".to_string(), 65535, String::new()));
    let refused = [
        ("h::t", "Invalid port: cannot parse integer from empty string"),
        ("h:x:t", "Invalid port: invalid digit found in string"),
        ("h:-1:t", "Invalid port: invalid digit found in string"),
        ("h:+:t", "Invalid port: invalid digit found in string"),
        ("h:-:t", "Invalid port: invalid digit found in string"),
        ("h: 1:t", "Invalid port: invalid digit found in string"),
        ("h:65536:t", "Invalid port: number too large to fit in target type"),
    ];
    for (text, words) in refused {
        assert_eq!(message_of(parse_invite(text).unwrap_err()), words);
        let std_words = text.split(':').nth(1).unwrap().parse::<u16>().unwrap_err();
        assert_eq!(words, format!("Invalid port: {std_words}"));
    }
}

#[test]
fn tokens_are_of_the_alphabet() {
    let token = generate_token(TOKEN_LEN);
    assert_eq!(token.len(), 8);
    assert_eq!(generate_token(0), "");
    let long = generate_token(4000);
    assert_eq!(long.len(), 4000);
    assert!(long.chars().all(|c| ALPHABET.contains(c)));
    assert!(ALPHABET.chars().all(|c| long.contains(c)));
    assert_ne!(generate_token(40), generate_token(40));
}

#[test]
fn token_characters_are_picked_by_position() {
    assert_eq!(token_from_picks(&vec![0, 31, 8, 24]), "A9J2");
    assert_eq!(token_from_picks(&(0..32).collect()), ALPHABET);
    for c in ['0', 'O', '1', 'I'] {
        assert!(!ALPHABET.contains(c));
    }
}

#[test]
fn addresses_and_urls() {
    assert_eq!(listen_address(SIGNALING_PORT), "0.0.0.0:9001");
    assert_eq!(viewer_url("192.168.1.20", 9001), "ws://192.168.1.20:9001/");
    assert_eq!(peer_address("ws://192.168.1.20:9001/"), "192.168.1.20:9001");
    assert_eq!(peer_address("ws://ws://h:1///"), "h:1");
    assert_eq!(peer_address("h:1"), "h:1");
    assert_eq!(peer_address("///"), "");
    assert_eq!(peer_address(""), "");
}

#[test]
fn url_of_a_host_leads_to_the_host() {
    for host in ["10.1.2.3", "example", "", "ws", "ws:/"] {
        for port in [0u16, 9, 9001, 65535] {
            assert_eq!(peer_address(&viewer_url(host, port)), format!("{host}:{port}"));
        }
    }
}

#[test]
fn reader_goes_on_over_blank_lines_and_ends_with_the_stream() {
    assert!(matches!(reader_step(ReaderEvent::Line(" \t\r\n".into())), ReaderAction::ReadLine));
    match reader_step(ReaderEvent::Line("  {\"type\":\"bye\"} \r\n".into())) {
        ReaderAction::Parse(text) => assert_eq!(text, "{\"type\":\"bye\"}"),
        _ => unreachable!(),
    }
    assert!(matches!(
        reader_step(ReaderEvent::Parsed(SignalMessage::Bye)),
        ReaderAction::Deliver(SignalMessage::Bye)
    ));
    assert!(matches!(reader_step(ReaderEvent::ParseFailed), ReaderAction::ReadLine));
    assert!(matches!(reader_step(ReaderEvent::Delivered), ReaderAction::ReadLine));
    assert!(matches!(reader_step(ReaderEvent::Eof), ReaderAction::Stop));
    assert!(matches!(reader_step(ReaderEvent::ReadFailed), ReaderAction::Stop));
    assert!(matches!(reader_step(ReaderEvent::ReceiverGone), ReaderAction::Stop));
}

#[test]
fn a_run_of_texts_arrives_in_order() {
    let texts = ["{\"type\":\"bye\"}", "{\"sdp\":\"v=0\\r\\n\"}", "1", "{\"type\":\"bye\"}"];
    let mut stream = String::new();
    for text in texts {
        match writer_step(WriterEvent::Serialized(text.to_string())) {
            WriterAction::Write(line) => stream.push_str(&line),
            _ => unreachable!(),
        }
    }
    let mut read = Vec::new();
    for line in stream.split_inclusive('\n') {
        match reader_step(ReaderEvent::Line(line.to_string())) {
            ReaderAction::Parse(text) => read.push(text),
            _ => unreachable!(),
        }
    }
    assert_eq!(read, texts);
}

#[test]
fn lines_that_are_no_message_are_passed_over() {
    let parse = |text: &str| match text {
        "bye" => ReaderEvent::Parsed(SignalMessage::Bye),
        "ready" => ReaderEvent::Parsed(SignalMessage::SessionReady),
        _ => ReaderEvent::ParseFailed,
    };
    let mut lines = ["ready\n", "what?\n", " \r\n", "bye\n", "{\n", "ready"].iter();
    let mut delivered = Vec::new();
    let mut action = ReaderAction::ReadLine;
    loop {
        let event = match action {
            ReaderAction::ReadLine => match lines.next() {
                Some(line) => ReaderEvent::Line(line.to_string()),
                None => ReaderEvent::Eof,
            },
            ReaderAction::Parse(text) => parse(&text),
            ReaderAction::Deliver(message) => {
                delivered.push(message);
                ReaderEvent::Delivered
            }
            ReaderAction::Stop => break,
        };
        action = reader_step(event);
    }
    assert!(matches!(
        delivered[..],
        [SignalMessage::SessionReady, SignalMessage::Bye, SignalMessage::SessionReady]
    ));
}

#[test]
fn writer_sends_lines_that_the_reader_gets_back() {
    let line = match writer_step(WriterEvent::Serialized("{\"type\":\"session_ready\"}".into())) {
        WriterAction::Write(line) => line,
        _ => unreachable!(),
    };
    assert_eq!(line, "{\"type\":\"session_ready\"}\n");
    match reader_step(ReaderEvent::Line(line)) {
        ReaderAction::Parse(text) => assert_eq!(text, "{\"type\":\"session_ready\"}"),
        _ => unreachable!(),
    }
    assert!(matches!(writer_step(WriterEvent::SerializeFailed), WriterAction::NextMessage));
    assert!(matches!(writer_step(WriterEvent::Written), WriterAction::NextMessage));
    assert!(matches!(writer_step(WriterEvent::WriteFailed), WriterAction::Stop));
    assert!(matches!(writer_step(WriterEvent::QueueClosed), WriterAction::Stop));
}
