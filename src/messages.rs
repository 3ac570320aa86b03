//! One protocol line as a structured message: decoding from bytes and
//! encoding back to text.
use vstd::prelude::*;
use vstd::string::*;
use vstd::utf8::*;

use crate::command::{classify, is_numeric, verb_text, Command, ErrorType, Verb};
use crate::text::{
    chars_of, lacks, scan_until, span_until, trim_line, trim_spaces, trim_terminators, words,
    words_text,
};

verus! {

/// A decoded line. Its text fields borrow from the line it was decoded from.
#[derive(Debug, PartialEq)]
pub struct GenericMessage<'a> {
    /// Who issued the message, without its leading marker.
    pub prefix: Option<&'a str>,
    /// The command or numeric code.
    pub msg_type: Command<'a>,
    /// The parameters, in order; the last is the trailing one.
    pub args: Vec<&'a str>,
}

/// The mathematical model of a message.
pub struct MessageView {
    pub source: Option<Seq<char>>,
    pub verb: Verb,
    pub params: Seq<Seq<char>>,
}

/// The characters of each piece of text, in order.
pub open spec fn texts_view(v: Seq<&str>) -> Seq<Seq<char>> {
    v.map_values(|a: &str| a@)
}

/// The characters of an optional piece of text.
pub open spec fn opt_text_view(o: Option<&str>) -> Option<Seq<char>> {
    match o {
        Some(s) => Some(s@),
        None => None,
    }
}

impl<'a> View for GenericMessage<'a> {
    type V = MessageView;

    open spec fn view(&self) -> MessageView {
        MessageView {
            source: opt_text_view(self.prefix),
            verb: self.msg_type@,
            params: texts_view(self.args@),
        }
    }
}

/// The model of a decode result.
pub open spec fn result_view(r: Result<GenericMessage, ErrorType>) -> Result<MessageView, ErrorType> {
    match r {
        Ok(m) => Ok(m@),
        Err(e) => Err(e),
    }
}

/// Splits a leading `:source ` off `s`; without a marker, or without a space
/// after it, there is no source and `s` is left whole.
pub open spec fn prefix_split(s: Seq<char>) -> (Option<Seq<char>>, Seq<char>) {
    let k = span_until(s, ' ') as int;
    if s.len() > 0 && s[0] == ':' && k < s.len() {
        (Some(s.subrange(1, k)), s.skip(k + 1))
    } else {
        (None, s)
    }
}

/// Splits the verb off `s`: the text up to the first space, classified, and
/// what follows that space.
pub open spec fn command_split(s: Seq<char>) -> Result<(Verb, Seq<char>), ErrorType> {
    let k = span_until(s, ' ') as int;
    let rest = if k < s.len() {
        s.skip(k + 1)
    } else {
        Seq::<char>::empty()
    };
    match classify(s.take(k)) {
        Some(v) => Ok((v, rest)),
        None => Err(ErrorType::ComandNotFound),
    }
}

/// The parameters of `s`: the words before the first colon, then all that
/// follows the colon as one last parameter; with no colon, the words alone.
pub open spec fn args_split(s: Seq<char>) -> Seq<Seq<char>> {
    let k = span_until(s, ':') as int;
    if k < s.len() {
        words(s.take(k)).push(s.skip(k + 1))
    } else {
        words(s)
    }
}

/// The message that a line of text decodes to, or why it does not.
pub open spec fn decode_line(line: Seq<char>) -> Result<MessageView, ErrorType> {
    let t = trim_spaces(trim_terminators(line));
    if t.len() == 0 {
        Err(ErrorType::EmptyString)
    } else {
        let src = prefix_split(t);
        match command_split(src.1) {
            Ok(cmd) => Ok(MessageView { source: src.0, verb: cmd.0, params: args_split(cmd.1) }),
            Err(e) => Err(e),
        }
    }
}

/// The message that a buffer of bytes decodes to, or why it does not.
pub open spec fn decode_bytes(b: Seq<u8>) -> Result<MessageView, ErrorType> {
    if valid_utf8(b) {
        decode_line(decode_utf8(b))
    } else {
        Err(ErrorType::InvalidString)
    }
}

/// The text of the parameters: each after a space, the last after a colon.
pub open spec fn params_text(ps: Seq<Seq<char>>) -> Seq<char> {
    if ps.len() == 0 {
        Seq::<char>::empty()
    } else {
        seq![' '] + words_text(ps.drop_last()) + seq![':'] + ps.last()
    }
}

/// The source part of a line: marker, token and a space, or nothing.
pub open spec fn source_text(source: Option<Seq<char>>) -> Seq<char> {
    match source {
        Some(s) => seq![':'] + s + seq![' '],
        None => Seq::<char>::empty(),
    }
}

/// The text a message is written as, without a line terminator.
pub open spec fn encode_message(m: MessageView) -> Seq<char> {
    source_text(m.source) + verb_text(m.verb) + params_text(m.params)
}

/// Relies on std::str::from_utf8: it succeeds exactly on well-formed UTF-8,
/// and the text it returns is those same bytes.
#[verifier::external_body]
fn utf8_text<'a>(b: &'a [u8]) -> (r: Option<&'a str>)
    ensures
        r is Some <==> valid_utf8(b@),
        r matches Some(s) ==> s.spec_bytes() == b@,
{
    std::str::from_utf8(b).ok()
}

/// Takes a leading `:source ` off `input` and returns the source token.
/// Without a marker, or without a space after it, returns `None` and leaves
/// `input` as it was.
pub fn parse_prefix<'a>(input: &mut &'a str) -> (r: Option<&'a str>)
    ensures
        opt_text_view(r) == prefix_split(old(input)@).0,
        final(input)@ == prefix_split(old(input)@).1,
{
    let s: &'a str = *input;
    let cs = chars_of(s);
    let n = cs.len();
    if n > 0 && cs[0] == ':' {
        let sep = scan_until(&cs, 0, n, ' ');
        proof {
            assert(cs@.subrange(0, n as int) =~= cs@);
        }
        if sep < n {
            let val = s.substring_char(1, sep);
            *input = s.substring_char(sep + 1, n);
            proof {
                assert(cs@.subrange(sep as int + 1, n as int) =~= cs@.skip(sep as int + 1));
            }
            return Some(val);
        }
    }
    None
}

/// Whether every character of `tok` is a decimal digit and there is one.
pub fn is_numeric_token(tok: &str) -> (r: bool)
    ensures
        r == is_numeric(tok@),
{
    let cs = chars_of(tok);
    if cs.len() == 0 {
        return false;
    }
    let mut i: usize = 0;
    while i < cs.len()
        invariant
            cs@ == tok@,
            i <= cs.len(),
            forall|k: int| 0 <= k < i ==> '0' <= #[trigger] cs@[k] <= '9',
        decreases cs.len() - i,
    {
        if !('0' <= cs[i] && cs[i] <= '9') {
            assert(!('0' <= tok@[i as int] <= '9'));
            return false;
        }
        i = i + 1;
    }
    true
}

/// Takes the verb and the space after it off `input` and returns it. A verb
/// that is neither digits nor a known command is an error, and then `input`
/// is left as it was.
pub fn parse_command<'a>(input: &mut &'a str) -> (r: Result<Command<'a>, ErrorType>)
    ensures
        match command_split(old(input)@) {
            Ok(cmd) => r matches Ok(c) && c@ == cmd.0 && final(input)@ == cmd.1,
            Err(e) => r == Err::<Command<'a>, ErrorType>(e) && *final(input) == *old(input),
        },
{
    let s: &'a str = *input;
    let cs = chars_of(s);
    let n = cs.len();
    let sep = scan_until(&cs, 0, n, ' ');
    proof {
        assert(cs@.subrange(0, n as int) =~= cs@);
        assert(cs@.subrange(0, sep as int) =~= cs@.take(sep as int));
        assert(cs@.subrange(sep as int + 1, n as int) =~= cs@.skip(sep as int + 1));
        assert(cs@.subrange(n as int, n as int) =~= Seq::<char>::empty());
    }
    let end = if sep < n {
        sep + 1
    } else {
        n
    };
    let cmd = s.substring_char(0, sep);
    if is_numeric_token(cmd) {
        *input = s.substring_char(end, n);
        return Ok(Command::INTERROR(cmd));
    }
    match Command::from_name(cmd) {
        Some(c) => {
            *input = s.substring_char(end, n);
            Ok(c)
        },
        None => Err(ErrorType::ComandNotFound),
    }
}

/// Appends to `v` the words of `cs[from..to]`, each borrowed from `s`.
fn push_words<'a>(s: &'a str, cs: &Vec<char>, from: usize, to: usize, v: &mut Vec<&'a str>)
    requires
        cs@ == s@,
        from <= to <= cs.len(),
    ensures
        texts_view(final(v)@) == texts_view(old(v)@) + words(cs@.subrange(from as int, to as int)),
{
    let mut i: usize = from;
    while i < to
        invariant
            cs@ == s@,
            from <= i <= to <= cs.len(),
            texts_view(v@) + words(cs@.subrange(i as int, to as int)) == texts_view(old(v)@)
                + words(cs@.subrange(from as int, to as int)),
        decreases to - i,
    {
        let ghost rest = cs@.subrange(i as int, to as int);
        if cs[i] == ' ' {
            assert(rest.drop_first() =~= cs@.subrange(i as int + 1, to as int));
            i = i + 1;
        } else {
            let j = scan_until(cs, i, to, ' ');
            assert(rest[0] == cs@[i as int]);
            let ghost k = (j - i) as int;
            assert(rest.take(k) =~= cs@.subrange(i as int, j as int));
            assert(rest.skip(k) =~= cs@.subrange(j as int, to as int));
            let ghost before = texts_view(v@);
            let w = s.substring_char(i, j);
            v.push(w);
            assert(texts_view(v@) =~= before.push(w@));
            assert(words(rest) == seq![rest.take(k)] + words(rest.skip(k)));
            assert(texts_view(v@) + words(cs@.subrange(j as int, to as int)) =~= before + words(
                rest,
            ));
            i = j;
        }
    }
    assert(words(cs@.subrange(to as int, to as int)) =~= Seq::<Seq<char>>::empty());
    assert(texts_view(v@) =~= texts_view(v@) + words(cs@.subrange(to as int, to as int)));
}

/// Splits all of `input` into parameters and leaves `input` empty. The words
/// before the first colon are parameters; all that follows the colon is the
/// last one.
pub fn parse_args<'a>(input: &mut &'a str) -> (r: Vec<&'a str>)
    ensures
        texts_view(r@) == args_split(old(input)@),
        final(input)@ == Seq::<char>::empty(),
{
    let s: &'a str = *input;
    let cs = chars_of(s);
    let n = cs.len();
    let sep = scan_until(&cs, 0, n, ':');
    proof {
        assert(cs@.subrange(0, n as int) =~= cs@);
        assert(cs@.subrange(0, sep as int) =~= cs@.take(sep as int));
        assert(cs@.subrange(sep as int + 1, n as int) =~= cs@.skip(sep as int + 1));
    }
    let mut v: Vec<&'a str> = Vec::new();
    assert(texts_view(v@) =~= Seq::<Seq<char>>::empty());
    push_words(s, &cs, 0, sep, &mut v);
    if sep < n {
        let ghost before = texts_view(v@);
        let last = s.substring_char(sep + 1, n);
        v.push(last);
        assert(texts_view(v@) =~= before.push(last@));
    }
    *input = s.substring_char(0, 0);
    v
}

impl<'a> GenericMessage<'a> {
    /// Decodes one line of text: trailing line terminators and leading
    /// spaces are ignored, then come the optional source, the verb and the
    /// parameters.
    pub fn from_text(input: &'a str) -> (r: Result<Self, ErrorType>)
        ensures
            result_view(r) == decode_line(input@),
    {
        let mut s = trim_line(input);
        if s.is_empty() {
            return Err(ErrorType::EmptyString);
        }
        let prefix = parse_prefix(&mut s);
        let msg_type = match parse_command(&mut s) {
            Ok(c) => c,
            Err(e) => {
                return Err(e);
            },
        };
        let args = parse_args(&mut s);
        Ok(GenericMessage { prefix, msg_type, args })
    }

    /// Decodes one line of bytes, which must be well-formed UTF-8.
    pub fn from_bytes(input: &'a [u8]) -> (r: Result<Self, ErrorType>)
        ensures
            result_view(r) == decode_bytes(input@),
    {
        match utf8_text(input) {
            Some(s) => {
                proof {
                    decode_utf8_encode_utf8(input@);
                    encode_utf8_decode_utf8(s@);
                }
                Self::from_text(s)
            },
            None => Err(ErrorType::InvalidString),
        }
    }

    /// The text of this message, with no line terminator.
    pub fn to_message(&self) -> (r: String)
        ensures
            r@ == encode_message(self@),
    {
        proof {
            reveal_strlit(":");
            reveal_strlit(" ");
            assert(":"@ =~= seq![':']);
            assert(" "@ =~= seq![' ']);
        }
        let mut msg = String::new();
        if let Some(prefix) = self.prefix {
            msg.append(":");
            msg.append(prefix);
            msg.append(" ");
        }
        assert(msg@ =~= source_text(self@.source));
        msg.append(self.msg_type.as_str());
        let ghost head = msg@;
        let ghost ps = self@.params;
        let n = self.args.len();
        if n > 0 {
            msg.append(" ");
            let mut i: usize = 0;
            assert(ps.take(0) =~= Seq::<Seq<char>>::empty());
            while i < n - 1
                invariant
                    n == self.args.len(),
                    ps == texts_view(self.args@),
                    n > 0,
                    i <= n - 1,
                    " "@ == seq![' '],
                    msg@ == head + seq![' '] + words_text(ps.take(i as int)),
                decreases n - 1 - i,
            {
                msg.append(self.args[i]);
                msg.append(" ");
                proof {
                    crate::text::lemma_words_text_push(ps.take(i as int), ps[i as int]);
                    assert(ps.take(i as int).push(ps[i as int]) =~= ps.take(i as int + 1));
                }
                i = i + 1;
            }
            msg.append(":");
            msg.append(self.args[n - 1]);
            assert(ps.take(n - 1) =~= ps.drop_last());
        }
        assert(msg@ =~= encode_message(self@));
        msg
    }
}

} // verus!
