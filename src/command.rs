//! The verb of a message: a command of the known vocabulary, or a numeric
//! reply code kept as its digits; and the ways a decode can fail.
use vstd::prelude::*;

use crate::text::same_text;

verus! {

/// Why a line could not be decoded.
#[derive(Debug, PartialEq, Eq, Clone, Copy)]
pub enum ErrorType {
    /// The bytes are not well-formed UTF-8.
    InvalidString,
    /// Nothing is left once terminators and leading spaces are removed.
    EmptyString,
    /// The verb is neither a known command nor a run of digits.
    ComandNotFound,
}

/// The verb of a message.
#[allow(non_camel_case_types)]
#[derive(Debug, PartialEq, Clone, Copy)]
pub enum Command<'a> {
    PASS,
    NICK,
    USER,
    OPER,
    MODE,
    QUIT,
    SQUIT,
    JOIN,
    PART,
    TOPIC,
    NAMES,
    LIST,
    INVITE,
    KICK,
    PRIVMSG,
    NOTICE,
    MOTD,
    VERSION,
    WHO,
    WHOIS,
    PING,
    PONG,
    ERROR,
    AWAY,
    /// A numeric reply code, as the digits that stood on the line.
    INTERROR(&'a str),
}

/// The mathematical model of a verb.
pub enum Verb {
    /// A command of the vocabulary, by its name.
    Named(Seq<char>),
    /// A numeric code, by its digits.
    Numeric(Seq<char>),
}

/// `s` is a non-empty run of decimal digits.
pub open spec fn is_numeric(s: Seq<char>) -> bool {
    s.len() > 0 && forall|i: int| 0 <= i < s.len() ==> '0' <= #[trigger] s[i] <= '9'
}

/// `s` is the name of a command of the vocabulary.
pub open spec fn is_command_name(s: Seq<char>) -> bool {
    s == "PASS"@
        || s == "NICK"@
        || s == "USER"@
        || s == "OPER"@
        || s == "MODE"@
        || s == "QUIT"@
        || s == "SQUIT"@
        || s == "JOIN"@
        || s == "PART"@
        || s == "TOPIC"@
        || s == "NAMES"@
        || s == "LIST"@
        || s == "INVITE"@
        || s == "KICK"@
        || s == "PRIVMSG"@
        || s == "NOTICE"@
        || s == "MOTD"@
        || s == "VERSION"@
        || s == "WHO"@
        || s == "WHOIS"@
        || s == "PING"@
        || s == "PONG"@
        || s == "ERROR"@
        || s == "AWAY"@
}

/// What a verb token stands for: digits are a numeric code, a name of the
/// vocabulary is that command, anything else is unknown.
pub open spec fn classify(tok: Seq<char>) -> Option<Verb> {
    if is_numeric(tok) {
        Some(Verb::Numeric(tok))
    } else if is_command_name(tok) {
        Some(Verb::Named(tok))
    } else {
        None
    }
}

/// The text a verb is written as.
pub open spec fn verb_text(v: Verb) -> Seq<char> {
    match v {
        Verb::Named(n) => n,
        Verb::Numeric(d) => d,
    }
}

/// The verbs that a line can carry.
pub open spec fn is_wire_verb(v: Verb) -> bool {
    match v {
        Verb::Named(n) => is_command_name(n),
        Verb::Numeric(d) => is_numeric(d),
    }
}

impl<'a> Command<'a> {
    pub open spec fn view(&self) -> Verb {
        match *self {
            Command::INTERROR(d) => Verb::Numeric(d@),
            Command::PASS => Verb::Named("PASS"@),
            Command::NICK => Verb::Named("NICK"@),
            Command::USER => Verb::Named("USER"@),
            Command::OPER => Verb::Named("OPER"@),
            Command::MODE => Verb::Named("MODE"@),
            Command::QUIT => Verb::Named("QUIT"@),
            Command::SQUIT => Verb::Named("SQUIT"@),
            Command::JOIN => Verb::Named("JOIN"@),
            Command::PART => Verb::Named("PART"@),
            Command::TOPIC => Verb::Named("TOPIC"@),
            Command::NAMES => Verb::Named("NAMES"@),
            Command::LIST => Verb::Named("LIST"@),
            Command::INVITE => Verb::Named("INVITE"@),
            Command::KICK => Verb::Named("KICK"@),
            Command::PRIVMSG => Verb::Named("PRIVMSG"@),
            Command::NOTICE => Verb::Named("NOTICE"@),
            Command::MOTD => Verb::Named("MOTD"@),
            Command::VERSION => Verb::Named("VERSION"@),
            Command::WHO => Verb::Named("WHO"@),
            Command::WHOIS => Verb::Named("WHOIS"@),
            Command::PING => Verb::Named("PING"@),
            Command::PONG => Verb::Named("PONG"@),
            Command::ERROR => Verb::Named("ERROR"@),
            Command::AWAY => Verb::Named("AWAY"@),
        }
    }

    /// The text this verb is written as on the wire.
    pub fn as_str(&self) -> (r: &'a str)
        ensures
            r@ == verb_text(self@),
    {
        match *self {
            Command::INTERROR(d) => d,
            Command::PASS => "PASS",
            Command::NICK => "NICK",
            Command::USER => "USER",
            Command::OPER => "OPER",
            Command::MODE => "MODE",
            Command::QUIT => "QUIT",
            Command::SQUIT => "SQUIT",
            Command::JOIN => "JOIN",
            Command::PART => "PART",
            Command::TOPIC => "TOPIC",
            Command::NAMES => "NAMES",
            Command::LIST => "LIST",
            Command::INVITE => "INVITE",
            Command::KICK => "KICK",
            Command::PRIVMSG => "PRIVMSG",
            Command::NOTICE => "NOTICE",
            Command::MOTD => "MOTD",
            Command::VERSION => "VERSION",
            Command::WHO => "WHO",
            Command::WHOIS => "WHOIS",
            Command::PING => "PING",
            Command::PONG => "PONG",
            Command::ERROR => "ERROR",
            Command::AWAY => "AWAY",
        }
    }

    /// The command of the vocabulary named `name`, if there is one.
    pub fn from_name(name: &str) -> (r: Option<Command<'a>>)
        ensures
            r is Some <==> is_command_name(name@),
            r matches Some(c) ==> c@ == Verb::Named(name@),
    {
        if same_text(name, "PASS") {
            return Some(Command::PASS);
        }
        if same_text(name, "NICK") {
            return Some(Command::NICK);
        }
        if same_text(name, "USER") {
            return Some(Command::USER);
        }
        if same_text(name, "OPER") {
            return Some(Command::OPER);
        }
        if same_text(name, "MODE") {
            return Some(Command::MODE);
        }
        if same_text(name, "QUIT") {
            return Some(Command::QUIT);
        }
        if same_text(name, "SQUIT") {
            return Some(Command::SQUIT);
        }
        if same_text(name, "JOIN") {
            return Some(Command::JOIN);
        }
        if same_text(name, "PART") {
            return Some(Command::PART);
        }
        if same_text(name, "TOPIC") {
            return Some(Command::TOPIC);
        }
        if same_text(name, "NAMES") {
            return Some(Command::NAMES);
        }
        if same_text(name, "LIST") {
            return Some(Command::LIST);
        }
        if same_text(name, "INVITE") {
            return Some(Command::INVITE);
        }
        if same_text(name, "KICK") {
            return Some(Command::KICK);
        }
        if same_text(name, "PRIVMSG") {
            return Some(Command::PRIVMSG);
        }
        if same_text(name, "NOTICE") {
            return Some(Command::NOTICE);
        }
        if same_text(name, "MOTD") {
            return Some(Command::MOTD);
        }
        if same_text(name, "VERSION") {
            return Some(Command::VERSION);
        }
        if same_text(name, "WHO") {
            return Some(Command::WHO);
        }
        if same_text(name, "WHOIS") {
            return Some(Command::WHOIS);
        }
        if same_text(name, "PING") {
            return Some(Command::PING);
        }
        if same_text(name, "PONG") {
            return Some(Command::PONG);
        }
        if same_text(name, "ERROR") {
            return Some(Command::ERROR);
        }
        if same_text(name, "AWAY") {
            return Some(Command::AWAY);
        }
        None
    }
}

/// A name of the vocabulary is a non-empty run of capital letters, so it is
/// never taken for digits, for a source or for a line terminator.
pub proof fn lemma_command_name_shape(n: Seq<char>)
    requires
        is_command_name(n),
    ensures
        n.len() > 0,
        forall|i: int| 0 <= i < n.len() ==> 'A' <= #[trigger] n[i] <= 'Z',
        !is_numeric(n),
{
    reveal_strlit("PASS");
    reveal_strlit("NICK");
    reveal_strlit("USER");
    reveal_strlit("OPER");
    reveal_strlit("MODE");
    reveal_strlit("QUIT");
    reveal_strlit("SQUIT");
    reveal_strlit("JOIN");
    reveal_strlit("PART");
    reveal_strlit("TOPIC");
    reveal_strlit("NAMES");
    reveal_strlit("LIST");
    reveal_strlit("INVITE");
    reveal_strlit("KICK");
    reveal_strlit("PRIVMSG");
    reveal_strlit("NOTICE");
    reveal_strlit("MOTD");
    reveal_strlit("VERSION");
    reveal_strlit("WHO");
    reveal_strlit("WHOIS");
    reveal_strlit("PING");
    reveal_strlit("PONG");
    reveal_strlit("ERROR");
    reveal_strlit("AWAY");
    assert(!('0' <= n[0] <= '9'));
}

} // verus!
