use smtp_server::command::{trim_brackets, Command, ParserError};
use smtp_server::config::{Builder, Capability};
use smtp_server::connection::{error_reply, render_multiline, render_reply, ClientError, Connection};
use smtp_server::delivery::{delivery_reply, Email};
use smtp_server::flow::Flow;
use smtp_server::framer::{FramerError, LineReader};
use smtp_server::state::State;

#[test]
fn test_trim_brackets() {
    assert_eq!(trim_brackets("test"), "test");
    assert_eq!(trim_brackets("<test>"), "test");
    assert_eq!(trim_brackets("<test"), "<test");
    assert_eq!(trim_brackets("test>"), "test>");
    assert_eq!(trim_brackets("<"), "<");
    assert_eq!(trim_brackets(">"), ">");
    assert_eq!(trim_brackets(""), "");
    assert_eq!(trim_brackets("a<>"), "a<>");
}

#[test]
fn trim_brackets_idempotent_on_stripped() {
    let once = trim_brackets("<u@v>");
    assert_eq!(once, "u@v");
    assert_eq!(trim_brackets(once), once);
    let unbalanced = trim_brackets("<u@v");
    assert_eq!(trim_brackets(unbalanced), unbalanced);
}

fn plain_config(max: usize) -> smtp_server::config::Config {
    Builder::default()
        .with_hostname(String::from("mail.example"))
        .with_server_name(String::from("smtp.example"))
        .with_max_size(max)
        .build()
}

type Outcome = Vec<Result<Flow, ClientError>>;

fn only(mut v: Outcome) -> Flow {
    assert_eq!(v.len(), 1, "expected exactly one action, got {:?}", v);
    v.pop().unwrap().expect("expected an action, not an error")
}

fn only_err(mut v: Outcome) -> ClientError {
    assert_eq!(v.len(), 1, "expected exactly one entry, got {:?}", v);
    match v.pop().unwrap() {
        Err(e) => e,
        Ok(f) => panic!("expected an error, got the action {:?}", f),
    }
}

fn expect_reply(flow: Flow, code: u32, text: &str) {
    match flow {
        Flow::Reply(c, t) => {
            assert_eq!(c, code);
            assert_eq!(t, text);
        }
        other => panic!("expected a single-line reply, got {:?}", other),
    }
}

#[test]
fn data_received() {
    for test in &[&[0x0au8][..], &[0x0d, 0x0a][..]] {
        let config = plain_config(1024 * 1024);
        let mut connection = Connection::new(config, String::from("127.0.0.1:1234"), true);
        let mut bytes: Vec<u8> = Vec::new();
        for line in test.split(|b| b == &b'\n') {
            bytes.extend_from_slice(line);
            let _result = connection.data_received(&bytes, true);
            bytes.clear();
        }
    }
}

#[test]
fn parse_ehlo() {
    match Command::parse("EHLO example.com") {
        Ok(Command::Ehlo { host }) => assert_eq!(host, "example.com"),
        _ => panic!("EHLO line must parse to Ehlo"),
    }
    match Command::parse("ehlo   spaced.example  ") {
        Ok(Command::Ehlo { host }) => assert_eq!(host, "spaced.example"),
        _ => panic!("lower-case EHLO must parse too"),
    }
}

#[test]
fn parse_mail_from_with_headers() {
    match Command::parse("MAIL FROM:<a@x> SIZE=123 BODY=8BITMIME") {
        Ok(Command::MailFrom { address, headers }) => {
            assert_eq!(address, "a@x");
            assert_eq!(headers.len(), 2);
            assert_eq!(headers[0].0, "SIZE");
            assert_eq!(headers[0].1, "123");
            assert_eq!(headers[1].0, "BODY");
            assert_eq!(headers[1].1, "8BITMIME");
        }
        _ => panic!("MAIL line must parse to MailFrom"),
    }
}

#[test]
fn parse_mail_from_missing_address() {
    assert!(matches!(
        Command::parse("MAIL FROM:"),
        Err(ParserError::MissingFromAddress)
    ));
    assert!(matches!(
        Command::parse("MAIL FROM:   "),
        Err(ParserError::MissingFromAddress)
    ));
    // The null reverse-path carries empty brackets, not a missing address.
    match Command::parse("MAIL FROM:<>") {
        Ok(Command::MailFrom { address, headers }) => {
            assert_eq!(address, "");
            assert!(headers.is_empty());
        }
        other => panic!("the null reverse-path parses, got {:?}", other),
    }
}

#[test]
fn parse_errors() {
    assert!(matches!(Command::parse("AB"), Err(ParserError::InputTooShort)));
    assert!(matches!(Command::parse("MAIL FROM"), Err(ParserError::InputTooShort)));
    assert!(matches!(
        Command::parse("MAIL TROM:<a@x>"),
        Err(ParserError::InvalidSmtpCommand(_))
    ));
    assert!(matches!(
        Command::parse("RCPT XX:<a@x>"),
        Err(ParserError::InvalidSmtpCommand(_))
    ));
    assert!(matches!(Command::parse("NOOP"), Err(ParserError::UnknownSmtpCommand)));
    assert!(matches!(Command::parse("STARxxxx"), Err(ParserError::UnknownSmtpCommand)));
}

#[test]
fn parse_plain_verbs() {
    assert!(matches!(Command::parse("DATA"), Ok(Command::Data)));
    assert!(matches!(Command::parse("RSET"), Ok(Command::Reset)));
    assert!(matches!(Command::parse("QUIT"), Ok(Command::Quit)));
    assert!(matches!(Command::parse("STARTTLS"), Ok(Command::StartTls)));
    assert!(matches!(Command::parse("starttls  "), Ok(Command::StartTls)));
    // Leading spaces hide the four-character verb, so the line is unknown.
    assert!(matches!(
        Command::parse("  starttls  "),
        Err(ParserError::UnknownSmtpCommand)
    ));
}

#[test]
fn parse_rcpt_strips_balanced_brackets_only() {
    match Command::parse("RCPT TO: <u@v>") {
        Ok(Command::RecipientTo { address }) => assert_eq!(address, "u@v"),
        _ => panic!("RCPT line must parse to RecipientTo"),
    }
    match Command::parse("RCPT TO: <u@v") {
        Ok(Command::RecipientTo { address }) => assert_eq!(address, "<u@v"),
        _ => panic!("RCPT line must parse to RecipientTo"),
    }
}

#[test]
fn framer_is_conservative() {
    let mut framer = LineReader::new(1024);
    framer.feed(&b"AB\r\nCD".to_vec());
    match framer.next_line() {
        Ok(Some(line)) => {
            assert_eq!(line, b"AB".to_vec());
            assert_eq!(framer.buffer, b"CD".to_vec());
            // emitted + terminator + retained account for every byte fed
            assert_eq!(line.len() + 2 + framer.buffer.len(), 6);
        }
        _ => panic!("one complete line was buffered"),
    }
    assert!(matches!(framer.next_line(), Ok(None)));
    framer.feed(&b"EF\n".to_vec());
    match framer.next_line() {
        Ok(Some(line)) => {
            assert_eq!(line, b"CDEF".to_vec());
            assert!(framer.buffer.is_empty());
        }
        _ => panic!("bare-LF lines terminate too"),
    }
}

#[test]
fn framer_max_length() {
    let mut framer = LineReader::new(4);
    framer.feed(&b"TOOLONG".to_vec());
    assert!(matches!(framer.next_line(), Err(FramerError::MaxLength)));
    assert!(framer.buffer.is_empty());
    framer.feed(&b"OK\r\n".to_vec());
    assert!(matches!(framer.next_line(), Ok(Some(_))));
}

#[test]
fn framer_refuses_long_line_even_when_terminated() {
    // the line is over the bound although its newline is already buffered
    let mut framer = LineReader::new(4);
    framer.feed(&b"123456\nNEXT".to_vec());
    assert!(matches!(framer.next_line(), Err(FramerError::MaxLength)));
    assert!(framer.buffer.is_empty());
    // a line of exactly the bound still passes
    let mut framer = LineReader::new(4);
    framer.feed(&b"1234\r\n".to_vec());
    match framer.next_line() {
        Ok(Some(line)) => assert_eq!(line, b"1234".to_vec()),
        other => panic!("a line of exactly the bound passes, got {:?}", other),
    }
}

#[test]
fn command_buffer_boundary() {
    let mut framer = LineReader::new(4);
    framer.feed(&b"1234".to_vec());
    // exactly the bound, no newline: wait for more bytes
    assert!(matches!(framer.next_line(), Ok(None)));
    framer.feed(&b"5".to_vec());
    assert!(matches!(framer.next_line(), Err(FramerError::MaxLength)));
}

#[test]
fn happy_path_plain() {
    let config = plain_config(10485760);
    let mut conn = Connection::new(config, String::from("peer"), false);
    assert_eq!(
        conn.new_connection_message(),
        "220 mail.example smtp.example\r\n"
    );
    match only(conn.data_received(&b"EHLO me\r\n".to_vec(), false)) {
        Flow::ReplyMultiline(code, lines) => {
            assert_eq!(code, 250);
            assert_eq!(lines, vec!["me, nice to meet you!", "SIZE 10485760"]);
            assert_eq!(
                render_multiline(code, &lines),
                "250-me, nice to meet you!\r\n250 SIZE 10485760\r\n"
            );
        }
        other => panic!("EHLO must earn the multi-line greeting, got {:?}", other),
    }
    let r = only(conn.data_received(&b"MAIL FROM:<a@x>\r\n".to_vec(), false));
    expect_reply(r, 250, "Tell them I said hi");
    let r = only(conn.data_received(&b"RCPT TO:<b@y>\r\n".to_vec(), false));
    expect_reply(r, 250, "I'll make sure to get this to them");
    match &conn.smtp {
        State::RecipientReceived { sender, recipient } => {
            assert_eq!(sender, "a@x");
            assert_eq!(recipient, "b@y");
        }
        _ => panic!("after RCPT the envelope is complete"),
    }
    let r = only(conn.data_received(&b"DATA\r\n".to_vec(), false));
    expect_reply(r, 354, "Go ahead, I'm listening (end with \\r\\n.\\r\\n)");
    let r = conn.data_received(&b"Subject: hi\r\n\r\nhello\r\n.\r\n".to_vec(), false);
    match only(r) {
        Flow::EmailReceived { sender, recipient, body } => {
            assert_eq!(sender, "a@x");
            assert_eq!(recipient, "b@y");
            assert!(body.ends_with(b"\r\n.\r\n"));
            let email = Email::parse(String::from("peer"), false, sender, recipient, body)
                .expect("a plain message parses");
            assert_eq!(email.sender, "a@x");
            assert!(!email.used_ssl);
            match delivery_reply(Ok(())) {
                Flow::Reply(code, text) => {
                    assert_eq!(code, 250);
                    assert_eq!(text, "Email received, over and out!");
                    assert_eq!(render_reply(code, &text), "250 Email received, over and out!\r\n");
                }
                _ => panic!("delivery success is a single-line reply"),
            }
        }
        other => panic!("the terminated body completes the message, got {:?}", other),
    }
    assert!(matches!(conn.smtp, State::Done));
    let r = only(conn.data_received(&b"QUIT\r\n".to_vec(), false));
    assert!(matches!(r, Flow::Quit));
    assert!(matches!(conn.smtp, State::Initial));
}

#[test]
fn handler_failure_then_reset() {
    let config = plain_config(10485760);
    let mut conn = Connection::new(config, String::from("peer"), false);
    conn.data_received(&b"EHLO me\r\n".to_vec(), false);
    conn.data_received(&b"MAIL FROM:<a@x>\r\n".to_vec(), false);
    conn.data_received(&b"RCPT TO:<b@y>\r\n".to_vec(), false);
    conn.data_received(&b"DATA\r\n".to_vec(), false);
    conn.data_received(&b"x\r\n.\r\n".to_vec(), false);
    match delivery_reply(Err(ClientError::Handler(String::from("disk full")))) {
        Flow::Reply(code, text) => {
            assert_eq!(code, 500);
            assert_eq!(text, "disk full");
        }
        _ => panic!("a failed delivery is a single-line error reply"),
    }
    let r = only(conn.data_received(&b"RSET\r\n".to_vec(), false));
    expect_reply(r, 250, "We're ready to go another round!");
    assert!(matches!(conn.smtp, State::EhloReceived));
}

#[test]
fn delivery_failure_text_stays_on_one_line() {
    match delivery_reply(Err(ClientError::Handler(String::from("first\nsecond\rthird")))) {
        Flow::Reply(code, text) => {
            assert_eq!(code, 500);
            assert_eq!(text, "first, secondthird");
        }
        _ => panic!("a failed delivery is a single-line error reply"),
    }
}

#[test]
fn out_of_order_command_keeps_session_alive() {
    let config = plain_config(10485760);
    let mut conn = Connection::new(config, String::from("peer"), false);
    let e = only_err(conn.data_received(&b"MAIL FROM:<a>\r\n".to_vec(), false));
    assert_eq!(error_reply(&e), "500 Unknown command, expected EHLO\r\n");
    assert!(matches!(conn.smtp, State::Initial));
    let r = only(conn.data_received(&b"EHLO me\r\n".to_vec(), false));
    assert!(matches!(r, Flow::ReplyMultiline(250, _)));
}

#[test]
fn every_line_of_a_chunk_is_answered() {
    let config = plain_config(10485760);
    let mut conn = Connection::new(config, String::from("peer"), false);
    // two commands pipelined into one chunk: both replies come back, in order
    let out = conn.data_received(&b"EHLO me\r\nMAIL FROM:<a@x>\r\n".to_vec(), false);
    assert_eq!(out.len(), 2);
    assert!(matches!(out[0], Ok(Flow::ReplyMultiline(250, _))));
    match &out[1] {
        Ok(Flow::Reply(code, text)) => {
            assert_eq!(*code, 250);
            assert_eq!(text, "Tell them I said hi");
        }
        other => panic!("the second line earns its own reply, got {:?}", other),
    }
    // an unknown command mid-chunk is answered and the session continues
    let out = conn.data_received(&b"NOOP\r\nRCPT TO:<b@y>\r\n".to_vec(), false);
    assert_eq!(out.len(), 2);
    assert!(matches!(
        out[0],
        Err(ClientError::InvalidSmtpCommand(ParserError::UnknownSmtpCommand))
    ));
    match &out[1] {
        Ok(Flow::Reply(code, text)) => {
            assert_eq!(*code, 250);
            assert_eq!(text, "I'll make sure to get this to them");
        }
        other => panic!("the session continues after the refused line, got {:?}", other),
    }
}

#[test]
fn starttls_upgrade_hides_capability() {
    let config = Builder::default()
        .with_hostname(String::from("mail.example"))
        .with_server_name(String::from("smtp.example"))
        .with_max_size(10485760)
        .with_starttls()
        .build();
    let mut conn = Connection::new(config, String::from("peer"), false);
    match only(conn.data_received(&b"EHLO me\r\n".to_vec(), false)) {
        Flow::ReplyMultiline(_, lines) => {
            assert!(lines.iter().any(|l| l == "STARTTLS"));
        }
        other => panic!("plaintext EHLO lists STARTTLS, got {:?}", other),
    }
    let r = only(conn.data_received(&b"STARTTLS\r\n".to_vec(), false));
    assert!(matches!(r, Flow::UpgradeTls));
    assert!(matches!(conn.smtp, State::Initial));
    match only(conn.data_received(&b"EHLO me\r\n".to_vec(), true)) {
        Flow::ReplyMultiline(_, lines) => {
            assert!(lines.iter().all(|l| l != "STARTTLS"));
            assert!(lines.iter().any(|l| l == "SIZE 10485760"));
        }
        other => panic!("EHLO over TLS must not list STARTTLS, got {:?}", other),
    }
}

#[test]
fn oversize_body_recovers() {
    let config = plain_config(100);
    let mut conn = Connection::new(config, String::from("peer"), false);
    conn.data_received(&b"EHLO me\r\n".to_vec(), false);
    conn.data_received(&b"MAIL FROM:<a@x>\r\n".to_vec(), false);
    conn.data_received(&b"RCPT TO:<b@y>\r\n".to_vec(), false);
    conn.data_received(&b"DATA\r\n".to_vec(), false);
    let body = vec![b'x'; 200];
    match only_err(conn.data_received(&body, false)) {
        ClientError::MaxLength => {
            assert_eq!(error_reply(&ClientError::MaxLength), "500 Too much data received\r\n");
        }
        other => panic!("an oversize body is refused, got {:?}", other),
    }
    let r = only(conn.data_received(&b"EHLO me\r\n".to_vec(), false));
    assert!(matches!(r, Flow::ReplyMultiline(250, _)));
}

#[test]
fn oversize_command_line_recovers() {
    let config = plain_config(100);
    let mut conn = Connection::new(config, String::from("peer"), false);
    let long = vec![b'a'; 200];
    match only_err(conn.data_received(&long, false)) {
        ClientError::MaxLength => {}
        other => panic!("an oversize command line is refused, got {:?}", other),
    }
    let r = only(conn.data_received(&b"EHLO me\r\n".to_vec(), false));
    assert!(matches!(r, Flow::ReplyMultiline(250, _)));
}

#[test]
fn oversize_terminated_line_is_refused() {
    // the command line is over the bound although its CRLF arrived with it
    let config = plain_config(4);
    let mut conn = Connection::new(config, String::from("peer"), false);
    match only_err(conn.data_received(&b"EHLO me\r\n".to_vec(), false)) {
        ClientError::MaxLength => {}
        other => panic!("a terminated over-long line is still refused, got {:?}", other),
    }
    let r = only(conn.data_received(&b"EHLO\r\n".to_vec(), false));
    assert!(matches!(r, Flow::ReplyMultiline(250, _)));
}

#[test]
fn body_without_terminator_stays_silent() {
    let config = plain_config(10485760);
    let mut conn = Connection::new(config, String::from("peer"), false);
    conn.data_received(&b"EHLO me\r\n".to_vec(), false);
    conn.data_received(&b"MAIL FROM:<a@x>\r\n".to_vec(), false);
    conn.data_received(&b"RCPT TO:<b@y>\r\n".to_vec(), false);
    conn.data_received(&b"DATA\r\n".to_vec(), false);
    let r = conn.data_received(&b"only half a message\r\n".to_vec(), false);
    assert!(r.is_empty());
    assert!(matches!(conn.smtp, State::ReceivingBody { .. }));
}

#[test]
fn quit_honoured_in_every_state() {
    let config = plain_config(10485760);
    let mut conn = Connection::new(config, String::from("peer"), false);
    let r = only(conn.data_received(&b"QUIT\r\n".to_vec(), false));
    assert!(matches!(r, Flow::Quit));
    assert!(matches!(conn.smtp, State::Initial));
    conn.data_received(&b"EHLO me\r\n".to_vec(), false);
    conn.data_received(&b"MAIL FROM:<a@x>\r\n".to_vec(), false);
    let r = only(conn.data_received(&b"QUIT\r\n".to_vec(), false));
    assert!(matches!(r, Flow::Quit));
    assert!(matches!(conn.smtp, State::Initial));
}

#[test]
fn data_before_envelope_is_refused() {
    let config = plain_config(10485760);
    let mut conn = Connection::new(config, String::from("peer"), false);
    conn.data_received(&b"EHLO me\r\n".to_vec(), false);
    match only_err(conn.data_received(&b"DATA\r\n".to_vec(), false)) {
        ClientError::StateError(e) => {
            assert_eq!(
                error_reply(&ClientError::StateError(e)),
                "500 Unknown command, expected MAIL FROM\r\n"
            );
        }
        other => panic!("DATA without an envelope is refused, got {:?}", other),
    }
    assert!(matches!(conn.smtp, State::EhloReceived));
}

#[test]
fn lossy_decoding_replaces_invalid_bytes() {
    let config = plain_config(10485760);
    let mut conn = Connection::new(config, String::from("peer"), false);
    match only(conn.data_received(&b"EHLO \xff\r\n".to_vec(), false)) {
        Flow::ReplyMultiline(_, lines) => {
            assert_eq!(lines[0], "\u{fffd}, nice to meet you!");
        }
        other => panic!("an invalid byte decodes to the replacement, got {:?}", other),
    }
}

#[test]
fn capability_tags() {
    let config = plain_config(10485760);
    assert_eq!(Capability::Size.to_tag(&config), "SIZE 10485760");
    assert_eq!(Capability::StartTls.to_tag(&config), "STARTTLS");
    assert_eq!(Capability::SmtpUtf8.to_tag(&config), "SMTPUTF8");
}

#[test]
fn reply_rendering() {
    assert_eq!(render_reply(220, "Go ahead"), "220 Go ahead\r\n");
    assert_eq!(render_reply(0, "zero"), "0 zero\r\n");
    let lines = vec![String::from("one")];
    assert_eq!(render_multiline(250, &lines), "250 one\r\n");
    let lines = vec![String::from("a"), String::from("b"), String::from("c")];
    assert_eq!(render_multiline(250, &lines), "250-a\r\n250-b\r\n250 c\r\n");
}

#[test]
fn error_reply_is_one_line() {
    let e = ClientError::Handler(String::from("first\nsecond\rthird"));
    assert_eq!(error_reply(&e), "500 first, secondthird\r\n");
    let e = ClientError::EmailParse(String::from("bad header"));
    assert_eq!(error_reply(&e), "500 Could not parse email: bad header\r\n");
    let e = ClientError::InvalidSmtpCommand(ParserError::UnknownSmtpCommand);
    assert_eq!(error_reply(&e), "500 Unknown SMTP command\r\n");
    let e = ClientError::InvalidSmtpCommand(ParserError::InputTooShort);
    assert_eq!(error_reply(&e), "500 Input too short\r\n");
    let e = ClientError::InvalidSmtpCommand(ParserError::MissingFromAddress);
    assert_eq!(error_reply(&e), "500 Missing FROM address\r\n");
}

#[test]
fn email_parse_keeps_fields() {
    let body = b"Subject: greeting\r\n\r\nhello there\r\n.\r\n".to_vec();
    let email = Email::parse(
        String::from("10.0.0.1:25"),
        true,
        String::from("a@x"),
        String::from("b@y"),
        body.clone(),
    )
    .expect("a simple message parses");
    assert_eq!(email.peer_addr, "10.0.0.1:25");
    assert!(email.used_ssl);
    assert_eq!(email.sender, "a@x");
    assert_eq!(email.recipient, "b@y");
    assert_eq!(email.raw_body, body);
}

#[test]
fn empty_line_is_too_short() {
    let config = plain_config(1024);
    let mut conn = Connection::new(config, String::from("peer"), false);
    match only_err(conn.data_received(&b"\r\n".to_vec(), false)) {
        ClientError::InvalidSmtpCommand(ParserError::InputTooShort) => {}
        other => panic!("an empty line is too short for a verb, got {:?}", other),
    }
    match only_err(conn.data_received(&b"NOOP\r\n".to_vec(), false)) {
        ClientError::InvalidSmtpCommand(ParserError::UnknownSmtpCommand) => {}
        other => panic!("an unknown verb is refused, got {:?}", other),
    }
    let r = only(conn.data_received(&b"EHLO me\r\n".to_vec(), false));
    assert!(matches!(r, Flow::ReplyMultiline(250, _)));
}

#[test]
fn body_exact_boundary_is_kept() {
    // a body of exactly the configured size is still accepted
    let config = plain_config(100);
    let mut conn = Connection::new(config, String::from("peer"), false);
    conn.data_received(&b"EHLO me\r\n".to_vec(), false);
    conn.data_received(&b"MAIL FROM:<a@x>\r\n".to_vec(), false);
    conn.data_received(&b"RCPT TO:<b@y>\r\n".to_vec(), false);
    conn.data_received(&b"DATA\r\n".to_vec(), false);
    let mut body_bytes = vec![b'x'; 95];
    body_bytes.extend_from_slice(b"\r\n.\r\n");
    match only(conn.data_received(&body_bytes, false)) {
        Flow::EmailReceived { body, .. } => {
            assert_eq!(body.len(), 100);
        }
        other => panic!("a body of exactly the bound passes, got {:?}", other),
    }
}

#[test]
fn pipelined_data_routes_leftover_to_body() {
    let config = plain_config(10485760);
    let mut conn = Connection::new(config, String::from("peer"), false);
    conn.data_received(&b"EHLO me\r\n".to_vec(), false);
    conn.data_received(&b"MAIL FROM:<a@x>\r\n".to_vec(), false);
    conn.data_received(&b"RCPT TO:<b@y>\r\n".to_vec(), false);
    // The whole body arrives in the same chunk as DATA: the go-ahead
    // reply and the completed message both come back, in order.
    let out = conn.data_received(&b"DATA\r\nhello\r\n.\r\n".to_vec(), false);
    assert_eq!(out.len(), 2);
    match &out[0] {
        Ok(Flow::Reply(code, _)) => assert_eq!(*code, 354),
        other => panic!("the go-ahead reply comes first, got {:?}", other),
    }
    match &out[1] {
        Ok(Flow::EmailReceived { body, .. }) => {
            assert_eq!(body, &b"hello\r\n.\r\n".to_vec());
        }
        other => panic!("the pipelined body completes the message, got {:?}", other),
    }
    assert!(matches!(conn.smtp, State::Done));
}

#[test]
fn duplicate_header_keys_keep_the_last() {
    match Command::parse("MAIL FROM:<a@x> K=1 A=2 K=3") {
        Ok(Command::MailFrom { headers, .. }) => {
            assert_eq!(headers.len(), 2);
            assert_eq!(headers[0].0, "A");
            assert_eq!(headers[0].1, "2");
            assert_eq!(headers[1].0, "K");
            assert_eq!(headers[1].1, "3");
        }
        other => panic!("MAIL line must parse to MailFrom, got {:?}", other),
    }
}

#[test]
fn no_pipelining_across_the_tls_upgrade() {
    let config = Builder::default()
        .with_hostname(String::from("mail.example"))
        .with_server_name(String::from("smtp.example"))
        .with_max_size(10485760)
        .with_starttls()
        .build();
    let mut conn = Connection::new(config, String::from("peer"), false);
    conn.data_received(&b"EHLO me\r\n".to_vec(), false);
    // commands pipelined behind STARTTLS are dropped with a fatal error,
    // and the upgrade is refused
    let out = conn.data_received(&b"STARTTLS\r\nEHLO evil\r\nMAI".to_vec(), false);
    assert_eq!(out.len(), 1);
    assert!(matches!(out[0], Err(ClientError::PipelinedAfterStartTls)));
    assert!(matches!(conn.smtp, State::Initial));
    assert!(conn.codec.buffer.is_empty());
    assert!(!conn.codec.has_pending());
}

#[test]
fn upgrade_is_always_the_last_action() {
    let config = Builder::default()
        .with_hostname(String::from("mail.example"))
        .with_server_name(String::from("smtp.example"))
        .with_max_size(10485760)
        .with_starttls()
        .build();
    let mut conn = Connection::new(config, String::from("peer"), false);
    // an EHLO and the STARTTLS line in one chunk: the upgrade is granted,
    // comes last, and the framer is empty for the handshake
    let out = conn.data_received(&b"EHLO me\r\nSTARTTLS\r\n".to_vec(), false);
    assert_eq!(out.len(), 2);
    assert!(matches!(out[0], Ok(Flow::ReplyMultiline(250, _))));
    assert!(matches!(out[1], Ok(Flow::UpgradeTls)));
    assert!(matches!(conn.smtp, State::Initial));
    assert!(conn.codec.buffer.is_empty());
}
