use rustssi::command::{Command, ErrorType};
use rustssi::input_handler::{UICommand, UICommandType};
use rustssi::message_handler::MsgHandler;
use rustssi::messages::{is_numeric_token, parse_command, GenericMessage};

fn pass_from_a() -> GenericMessage<'static> {
    GenericMessage { prefix: Some("a"), msg_type: Command::PASS, args: vec![] }
}

#[test]
fn pass_with_any_terminator() {
    assert_eq!(GenericMessage::from_bytes(b":a PASS").unwrap(), pass_from_a());
    assert_eq!(GenericMessage::from_bytes(b":a PASS\n").unwrap(), pass_from_a());
    assert_eq!(GenericMessage::from_bytes(b":a PASS\r\n").unwrap(), pass_from_a());
    assert_eq!(GenericMessage::from_bytes(b":a PASS    ").unwrap(), pass_from_a());
}

#[test]
fn terminator_runs_in_any_order() {
    let plain = GenericMessage::from_bytes(b"TOPIC #test :New topic ").unwrap();
    for line in [
        &b"TOPIC #test :New topic \r"[..],
        &b"TOPIC #test :New topic \n\r"[..],
        &b"TOPIC #test :New topic \r\n\r\n\n"[..],
    ] {
        assert_eq!(GenericMessage::from_bytes(line).unwrap(), plain);
    }
}

#[test]
fn topic_with_source_round_trips() {
    let line = ":WiZ!jto@tolsun.oulu.fi TOPIC #test :New topic ";
    let m = GenericMessage::from_bytes(line.as_bytes()).unwrap();
    assert_eq!(m.prefix, Some("WiZ!jto@tolsun.oulu.fi"));
    assert_eq!(m.msg_type, Command::TOPIC);
    assert_eq!(m.args, vec!["#test", "New topic "]);
    assert_eq!(m.to_message(), line);
}

#[test]
fn numeric_reply() {
    let m = GenericMessage::from_bytes(b"800 :oh snap").unwrap();
    assert_eq!(m.msg_type, Command::INTERROR("800"));
    assert_eq!(m.args, vec!["oh snap"]);
}

#[test]
fn digits_of_any_length_are_numeric() {
    let m = GenericMessage::from_bytes(b"0").unwrap();
    assert_eq!(m.msg_type, Command::INTERROR("0"));
    assert!(m.args.is_empty());
    let m = GenericMessage::from_bytes(b"12345 x y").unwrap();
    assert_eq!(m.msg_type, Command::INTERROR("12345"));
    assert_eq!(m.args, vec!["x", "y"]);
    assert!(is_numeric_token("007"));
    assert!(!is_numeric_token(""));
    assert!(!is_numeric_token("8a"));
}

#[test]
fn empty_lines_fail() {
    assert_eq!(GenericMessage::from_bytes(b""), Err(ErrorType::EmptyString));
    assert_eq!(GenericMessage::from_bytes(b"\r\n"), Err(ErrorType::EmptyString));
    assert_eq!(GenericMessage::from_bytes(b"   \n"), Err(ErrorType::EmptyString));
}

#[test]
fn unknown_command_keeps_input() {
    assert_eq!(
        GenericMessage::from_bytes(b"NICK2 rest of line"),
        Err(ErrorType::ComandNotFound)
    );
    let mut v = "NICK2 rest of line";
    assert_eq!(parse_command(&mut v), Err(ErrorType::ComandNotFound));
    assert_eq!(v, "NICK2 rest of line");
}

#[test]
fn commands_are_case_sensitive() {
    assert_eq!(GenericMessage::from_bytes(b"nick bob"), Err(ErrorType::ComandNotFound));
}

#[test]
fn source_without_space_is_no_source() {
    assert_eq!(GenericMessage::from_bytes(b":hello"), Err(ErrorType::ComandNotFound));
}

#[test]
fn empty_verb_fails() {
    assert_eq!(GenericMessage::from_bytes(b":a "), Err(ErrorType::ComandNotFound));
    assert_eq!(GenericMessage::from_bytes(b":a  PASS"), Err(ErrorType::ComandNotFound));
}

#[test]
fn invalid_utf8_fails() {
    assert_eq!(GenericMessage::from_bytes(b"PING \xff"), Err(ErrorType::InvalidString));
    assert_eq!(GenericMessage::from_bytes(b"\xc0\x80"), Err(ErrorType::InvalidString));
}

#[test]
fn non_ascii_text_is_decoded() {
    let line = "PRIVMSG #caf\u{e9} :h\u{e9}llo w\u{f6}rld \u{1f600}";
    let m = GenericMessage::from_bytes(line.as_bytes()).unwrap();
    assert_eq!(m.msg_type, Command::PRIVMSG);
    assert_eq!(m.args, vec!["#caf\u{e9}", "h\u{e9}llo w\u{f6}rld \u{1f600}"]);
    assert_eq!(m.to_message(), line);
}

#[test]
fn leading_spaces_are_ignored() {
    let m = GenericMessage::from_bytes(b"   NICK bob").unwrap();
    assert_eq!(m.msg_type, Command::NICK);
    assert_eq!(m.args, vec!["bob"]);
}

#[test]
fn runs_of_spaces_give_no_empty_parameters() {
    let m = GenericMessage::from_bytes(b"MODE   #Finnish    +o  Kilroy  ").unwrap();
    assert_eq!(m.args, vec!["#Finnish", "+o", "Kilroy"]);
}

#[test]
fn last_parameter_gets_a_marker_on_encode() {
    let m = GenericMessage { prefix: None, msg_type: Command::MODE, args: vec!["#Finnish", "+v", "Wiz"] };
    assert_eq!(m.to_message(), "MODE #Finnish +v :Wiz");
    let text = m.to_message();
    let back = GenericMessage::from_bytes(text.as_bytes()).unwrap();
    assert_eq!(back, m);
}

#[test]
fn encode_adds_no_terminator() {
    let m = GenericMessage { prefix: Some("x"), msg_type: Command::PING, args: vec![""] };
    assert_eq!(m.to_message(), ":x PING :");
    assert_eq!(GenericMessage::from_bytes(b":x PING :").unwrap(), m);
    let bare = GenericMessage { prefix: None, msg_type: Command::INTERROR("001"), args: vec![] };
    assert_eq!(bare.to_message(), "001");
}

#[test]
fn from_text_matches_from_bytes() {
    let line = ":syrk!kalt@millennium.stealth.net QUIT :Gone to have lunch";
    assert_eq!(
        GenericMessage::from_text(line),
        GenericMessage::from_bytes(line.as_bytes())
    );
}

#[test]
fn verb_names() {
    assert_eq!(Command::PRIVMSG.as_str(), "PRIVMSG");
    assert_eq!(Command::INTERROR("433").as_str(), "433");
    assert_eq!(Command::from_name("WHOIS"), Some(Command::WHOIS));
    assert_eq!(Command::from_name("WHOISX"), None);
}

#[test]
fn quit_command() {
    let c = UICommand::parse(String::from("/quit"));
    assert_eq!(c.command_type, UICommandType::Quit);
    assert_eq!(c.text, "/quit");
    let c = UICommand::parse(String::from("/quit now"));
    assert_eq!(c.command_type, UICommandType::Text);
    assert_eq!(c.text, "/quit now");
}

#[test]
fn handler_accepts_messages_and_errors() {
    let mut h = MsgHandler {};
    let m = GenericMessage::from_bytes(b"PING :x").unwrap();
    h.handle_msg(&m);
    h.handle_error(String::from("oops"));
}
