use smtp_server::message_parser::MessageParser;
use smtp_server::session::{Config, ConfigBuilder, ConfigFeature, LineResponse, State};

#[test]
fn builder_size_units() {
    let b = ConfigBuilder::default();
    assert_eq!(b.max_size, 0);
    let b = b.max_message_size_kb(4);
    assert_eq!(b.max_size, 4096);
    let b = ConfigBuilder::default().max_message_size_mb(2);
    assert_eq!(b.max_size, 2097152);
    let c = Config::build(String::from("localhost")).build();
    assert_eq!(c.host, "localhost");
    assert_eq!(c.max_size, 4194304);
    assert!(c.features.is_empty());
}

#[test]
fn ehlo_tags() {
    assert_eq!(
        ConfigFeature::Auth(String::from("LOGIN PLAIN")).as_ehlo_tag(),
        Some(String::from("AUTH LOGIN PLAIN"))
    );
    assert_eq!(ConfigFeature::Tls.as_ehlo_tag(), Some(String::from("STARTTLS")));
}

#[test]
fn message_parser_words() {
    let mut p = MessageParser::new("FROM:x@y extra");
    assert_eq!(p.str_until(b':'), Some(4));
    assert_eq!(p.str_until_any(&[b':', b' ']), Some((4, b':')));
    assert_eq!(p.consume_word_until(b':'), Some("FROM"));
    assert_eq!(p.remaining(), "x@y extra");
    assert_eq!(p.consume_word_until(b' '), Some("x@y"));
    assert_eq!(p.remaining(), "extra");
    assert_eq!(p.str_until(b':'), None);
    assert_eq!(p.consume_word_until(b':'), None);
}

#[test]
fn message_parser_remaining_trims() {
    let p = MessageParser::new("  padded value  ");
    assert_eq!(p.remaining(), "padded value");
}

fn reply_text(r: LineResponse) -> String {
    match r {
        LineResponse::ReplyWith(s) => s,
        other => panic!("expected a single reply line, got {:?}", other),
    }
}

#[test]
fn ehlo_numbers_its_lines() {
    let config = Config::build(String::from("localhost")).build();
    let mut state = State::default();
    match state.message_received("EHLO client", &config) {
        LineResponse::ReplyWithMultiple(lines) => {
            assert_eq!(
                lines,
                vec!["250-localhost, I'm glad to meet you", "250 SIZE 4194304"]
            );
        }
        other => panic!("EHLO earns the numbered lines, got {:?}", other),
    }
    assert!(state.ehlo_received);
}

#[test]
fn ehlo_lists_features_last() {
    let mut config = Config::build(String::from("localhost")).build();
    config.features.push(ConfigFeature::Auth(String::from("LOGIN")));
    config.features.push(ConfigFeature::Tls);
    let mut state = State::default();
    match state.message_received("EHLO client", &config) {
        LineResponse::ReplyWithMultiple(lines) => {
            assert_eq!(
                lines,
                vec![
                    "250-localhost, I'm glad to meet you",
                    "250-SIZE 4194304",
                    "250-AUTH LOGIN",
                    "250 STARTTLS",
                ]
            );
        }
        other => panic!("EHLO lists every feature, got {:?}", other),
    }
}

#[test]
fn mail_requires_introduction() {
    let config = Config::build(String::from("localhost")).build();
    let mut state = State::default();
    let r = reply_text(state.message_received("MAIL FROM:a@x", &config));
    assert_eq!(r, "500 Aren't you supposed to introduce yourself? (Send EHLO)");
    let r = reply_text(state.message_received("RCPT TO:b@y", &config));
    assert_eq!(r, "500 Aren't you supposed to introduce yourself? (Send EHLO)");
}

#[test]
fn envelope_collection() {
    let config = Config::build(String::from("localhost")).build();
    let mut state = State::default();
    state.message_received("EHLO client", &config);
    let r = reply_text(state.message_received("MAIL FROM:a@x", &config));
    assert_eq!(r, "250 Say hi to a@x for me");
    assert_eq!(state.from, "a@x");
    let r = reply_text(state.message_received("RCPT TO:b@y", &config));
    assert_eq!(r, "250 I'll let them know");
    let r = reply_text(state.message_received("RCPT TO: c@z ", &config));
    assert_eq!(r, "250 I'll let them know");
    assert_eq!(state.recipient, vec!["b@y", "c@z"]);
}

#[test]
fn envelope_fragment_errors() {
    let config = Config::build(String::from("localhost")).build();
    let mut state = State::default();
    state.message_received("EHLO client", &config);
    let r = reply_text(state.message_received("MAIL TO:a@x", &config));
    assert_eq!(r, "500 Expected FROM after MAIL");
    let r = reply_text(state.message_received("MAIL FROM a@x", &config));
    assert_eq!(r, "500 Expected FROM after MAIL");
    let r = reply_text(state.message_received("RCPT FROM:b@y", &config));
    assert_eq!(r, "500 Expected TO after RCPT");
}

#[test]
fn body_collection_and_dot() {
    let config = Config::build(String::from("localhost")).build();
    let mut state = State::default();
    state.message_received("EHLO client", &config);
    state.message_received("MAIL FROM:a@x", &config);
    state.message_received("RCPT TO:b@y", &config);
    let r = reply_text(state.message_received("DATA", &config));
    assert_eq!(r, "354 Go on, I'm listening... (end with \\r\\n.\\r\\n)");
    assert!(state.is_reading_body);
    assert!(matches!(
        state.message_received("Subject: hi", &config),
        LineResponse::Silent
    ));
    assert!(matches!(state.message_received("", &config), LineResponse::Silent));
    assert!(matches!(state.message_received("hello", &config), LineResponse::Silent));
    assert!(matches!(state.message_received(".", &config), LineResponse::Done));
    assert!(!state.is_reading_body);
    assert_eq!(state.body, "Subject: hi\r\n\r\nhello\r\n");
}

#[test]
fn body_size_limit() {
    let config = Config::build(String::from("localhost")).max_message_size_kb(0).build();
    let mut state = State::default();
    state.message_received("EHLO client", &config);
    state.message_received("MAIL FROM:a@x", &config);
    state.message_received("RCPT TO:b@y", &config);
    state.message_received("DATA", &config);
    let r = reply_text(state.message_received("overflowing line", &config));
    assert_eq!(r, "500 Slow it down, you're sending too much");
    assert_eq!(state.body, "");
}

#[test]
fn recipient_size_limit() {
    let mut config = Config::build(String::from("localhost")).build();
    config.max_size = 8;
    let mut state = State::default();
    state.message_received("EHLO client", &config);
    let r = reply_text(state.message_received("RCPT TO:short", &config));
    assert_eq!(r, "250 I'll let them know");
    let r = reply_text(state.message_received("RCPT TO:muchlonger", &config));
    assert_eq!(r, "500 You're sending too much");
    assert!(state.recipient.is_empty());
}

#[test]
fn reset_and_quit() {
    let config = Config::build(String::from("localhost")).build();
    let mut state = State::default();
    state.message_received("EHLO client", &config);
    state.message_received("MAIL FROM:a@x", &config);
    let r = reply_text(state.message_received("RSET", &config));
    assert_eq!(r, "200 It's all gone");
    assert_eq!(state.from, "");
    assert!(!state.ehlo_received);
    assert!(matches!(state.message_received("QUIT", &config), LineResponse::Quit));
}

#[test]
fn starttls_upgrade_needs_feature() {
    let mut state = State::default();
    let plain = Config::build(String::from("localhost")).build();
    let r = reply_text(state.message_received("STARTTLS", &plain));
    assert_eq!(r, "500 Unknown command");
    let mut tls = Config::build(String::from("localhost")).build();
    tls.features.push(ConfigFeature::Tls);
    assert!(matches!(
        state.message_received("STARTTLS", &tls),
        LineResponse::Upgrade
    ));
}

#[test]
fn stub_verbs_and_unknown() {
    let config = Config::build(String::from("localhost")).build();
    let mut state = State::default();
    for verb in ["SIZE 1", "VRFY a", "TURN", "AUTH LOGIN", "EXPN list", "HELP"] {
        let r = reply_text(state.message_received(verb, &config));
        assert_eq!(r, "500 Not implemented");
    }
    let r = reply_text(state.message_received("NOOP", &config));
    assert_eq!(r, "500 Unknown command");
    let r = reply_text(state.message_received("xy", &config));
    assert_eq!(r, "500 Unknown command");
}
