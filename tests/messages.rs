use rustssi::command::{Command, ErrorType};
use rustssi::messages::{parse_args, parse_command, parse_prefix, GenericMessage};

#[test]
fn string_split() {
    let hello = "hello_world";
    assert_eq!("hello", &hello[0..5]);
    assert_eq!(5, hello[0..5].len());
}

#[test]
fn command_tests_leaves_empty() {
    let mut v = "NICK";
    assert_eq!(parse_command(&mut v), Ok(Command::NICK));
    assert_eq!(v, "");
}

#[test]
fn command_tests_leaves_residual() {
    let mut v = "NICK somethingelse after a space";
    assert_eq!(parse_command(&mut v), Ok(Command::NICK));
    assert_eq!(v, "somethingelse after a space");
}

#[test]
fn command_tests_not_recognized() {
    let mut v = "NICK2 somethingelse after a space";
    assert_eq!(parse_command(&mut v), Err(ErrorType::ComandNotFound));
    assert_eq!(v, "NICK2 somethingelse after a space");
}

#[test]
fn prefix_tests_all_good() {
    let mut v = ":hello ";
    assert_eq!(parse_prefix(&mut v), Some("hello"));
    assert_eq!(v, "");
}

#[test]
fn prefix_tests_no_space() {
    let mut v = ":hello";
    assert_eq!(parse_prefix(&mut v), None);
    assert_eq!(v, ":hello");
}

#[test]
fn prefix_tests_no_colon() {
    let mut v = "hello ";
    assert_eq!(parse_prefix(&mut v), None);
    assert_eq!(v, "hello ");
}

#[test]
fn prefix_tests_long_string() {
    let mut v = ":very long stuff but should be parsed ";
    assert_eq!(parse_prefix(&mut v), Some("very"));
    assert_eq!(v, "long stuff but should be parsed ");
}

#[test]
fn prefix_tests_long_string_w_garbage() {
    let mut v = ":very_long@stuff\"but...should
        be parsed ";

    assert_eq!(
        parse_prefix(&mut v),
        Some(
            "very_long@stuff\"but...should
"
        )
    );
    assert_eq!(v, "       be parsed ");
}

#[test]
fn args_test() {
    let mut v = ":very long stuff but should be parsed ";
    assert_eq!(
        parse_args(&mut v),
        vec!["very long stuff but should be parsed "]
    );
    assert_eq!(v, "");
}

#[test]
fn args_test_multiple() {
    let mut v = "very long :stuff but :should be parsed ";
    assert_eq!(
        parse_args(&mut v),
        vec!["very", "long", "stuff but :should be parsed "]
    );
    assert_eq!(v, "");
}
#[test]
fn args_test_last_colon() {
    let mut v = "very long stuff but should be parsed :";
    assert_eq!(
        parse_args(&mut v),
        vec!["very", "long", "stuff", "but", "should", "be", "parsed", ""]
    );
    assert_eq!(v, "");
}
#[test]
fn args_empty() {
    let mut v = "";
    assert_eq!(parse_args(&mut v), Vec::<String>::new());
    assert_eq!(v, "");
}
#[test]
fn args_empty_colon() {
    let mut v = ":";
    assert_eq!(parse_args(&mut v), vec![""]);
    assert_eq!(v, "");
}
#[test]
fn args_something_colon() {
    let mut v = ":only you";
    assert_eq!(parse_args(&mut v), vec!["only you"]);
    assert_eq!(v, "");
}

#[test]
fn test_msgs() {
    let v = ":WiZ!jto@tolsun.oulu.fi TOPIC #test :New topic ".as_bytes();
    let var = GenericMessage {
        prefix: Some("WiZ!jto@tolsun.oulu.fi"),
        msg_type: Command::TOPIC,
        args: vec!["#test", "New topic "],
    };

    assert_eq!(GenericMessage::from_bytes(v).unwrap(), var);
    assert_eq!(var.to_message().as_bytes(), v);
}

#[test]
fn test_msg_2() {
    let v = "TOPIC #test :New topic ".as_bytes();
    let var = GenericMessage {
        prefix: None,
        msg_type: Command::TOPIC,
        args: vec!["#test", "New topic "],
    };

    assert_eq!(GenericMessage::from_bytes(v).unwrap(), var);
    assert_eq!(var.to_message().as_bytes(), v);
}
#[test]
fn test_msg_3() {
    let v = "NICK".as_bytes();
    let var = GenericMessage {
        prefix: None,
        msg_type: Command::NICK,
        args: vec![],
    };

    assert_eq!(GenericMessage::from_bytes(v).unwrap(), var);
    assert_eq!(var.to_message().as_bytes(), v);
}

#[test]
fn test_msg_4() {
    let v = "800 :oh snap".as_bytes();
    let var = GenericMessage {
        prefix: None,
        msg_type: Command::INTERROR("800"),
        args: vec!["oh snap"],
    };

    assert_eq!(GenericMessage::from_bytes(v).unwrap(), var);
    assert_eq!(var.to_message().as_bytes(), v);
}
