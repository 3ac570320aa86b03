//! What holds of decoding and encoding together, for all inputs.
use vstd::prelude::*;
use vstd::utf8::*;

use crate::command::{classify, is_numeric, is_wire_verb, ErrorType, lemma_command_name_shape, verb_text, Verb};
use crate::messages::{
    args_split, command_split, decode_bytes, decode_line, encode_message, params_text,
    prefix_split, source_text, MessageView,
};
use crate::text::{
    is_terminator, lacks, lemma_span_until_concat, lemma_words_of_words_text, span_until,
    trim_spaces, trim_terminators, words, words_text,
};

verus! {

/// A message that a line can carry: its source holds no space, its verb is
/// a known command or digits, every parameter but the last is a non-empty
/// word with no space and no colon, and the last does not end in a line
/// terminator.
pub open spec fn is_wire_message(m: MessageView) -> bool {
    &&& (m.source matches Some(s) ==> lacks(s, ' '))
    &&& is_wire_verb(m.verb)
    &&& forall|i: int|
        0 <= i < m.params.len() - 1 ==> #[trigger] m.params[i].len() > 0 && lacks(m.params[i], ' ')
            && lacks(m.params[i], ':')
    &&& (m.params.len() > 0 && m.params.last().len() > 0 ==> !is_terminator(m.params.last().last()))
}

/// The verb text of a wire message is non-empty, and every character of it
/// is a letter or a digit.
proof fn lemma_verb_text_shape(v: Verb)
    requires
        is_wire_verb(v),
    ensures
        verb_text(v).len() > 0,
        forall|i: int|
            0 <= i < verb_text(v).len() ==> ('A' <= #[trigger] verb_text(v)[i] <= 'Z') || ('0'
                <= verb_text(v)[i] <= '9'),
        classify(verb_text(v)) == Some(v),
{
    if let Verb::Named(n) = v {
        lemma_command_name_shape(n);
    }
}

/// The text of words that hold no `c` holds no `c`, when `c` is no space.
proof fn lemma_words_text_lacks(ws: Seq<Seq<char>>, c: char)
    requires
        c != ' ',
        forall|i: int| 0 <= i < ws.len() ==> lacks(#[trigger] ws[i], c),
    ensures
        lacks(words_text(ws), c),
    decreases ws.len(),
{
    if ws.len() > 0 {
        lemma_words_text_lacks(ws.drop_first(), c);
        let t = words_text(ws);
        assert(t =~= ws[0] + seq![' '] + words_text(ws.drop_first()));
        assert forall|i: int| 0 <= i < t.len() implies t[i] != c by {
            if i < ws[0].len() {
                assert(t[i] == ws[0][i]);
            } else if i > ws[0].len() {
                assert(t[i] == words_text(ws.drop_first())[i - ws[0].len() - 1]);
            }
        }
    }
}

/// The parameter part of a wire message splits back into its parameters.
proof fn lemma_params_round_trip(m: MessageView)
    requires
        is_wire_message(m),
        m.params.len() > 0,
    ensures
        args_split(params_text(m.params).drop_first()) == m.params,
{
    let ps = m.params;
    let mids = ps.drop_last();
    let w = words_text(mids);
    let rest = params_text(ps).drop_first();
    assert(rest =~= w + (seq![':'] + ps.last()));
    assert forall|i: int| 0 <= i < mids.len() implies lacks(#[trigger] mids[i], ':') by {
        assert(mids[i] == ps[i]);
    }
    assert forall|i: int| 0 <= i < mids.len() implies #[trigger] mids[i].len() > 0 && lacks(
        mids[i],
        ' ',
    ) by {
        assert(mids[i] == ps[i]);
    }
    lemma_words_text_lacks(mids, ':');
    lemma_span_until_concat(w, seq![':'] + ps.last(), ':');
    assert(span_until(rest, ':') == w.len());
    assert(rest.take(w.len() as int) =~= w);
    assert(rest.skip(w.len() as int + 1) =~= ps.last());
    lemma_words_of_words_text(mids);
    assert(mids.push(ps.last()) =~= ps);
}

/// Decoding the text of a wire message gives that message back.
pub proof fn lemma_line_round_trip(m: MessageView)
    requires
        is_wire_message(m),
    ensures
        decode_line(encode_message(m)) == Ok::<MessageView, ErrorType>(m),
{
    let line = encode_message(m);
    let v = verb_text(m.verb);
    let p = params_text(m.params);
    lemma_verb_text_shape(m.verb);
    let body = v + p;
    assert(line =~= source_text(m.source) + body);
    // No terminator at the end: the last character is a verb character,
    // a colon, or the last character of the trailing parameter.
    if m.params.len() > 0 {
        if m.params.last().len() > 0 {
            assert(line.last() == m.params.last().last());
        } else {
            assert(line.last() == ':');
        }
    } else {
        assert(line.last() == v.last());
    }
    assert(trim_terminators(line) == line);
    // No space in front: the line opens with the source marker or the verb.
    if m.source is None {
        assert(line[0] == v[0]);
    }
    assert(trim_spaces(line) == line);
    // The source comes off whole.
    match m.source {
        Some(s) => {
            assert(line =~= (seq![':'] + s) + (seq![' '] + body));
            lemma_span_until_concat(seq![':'] + s, seq![' '] + body, ' ');
            assert(line.subrange(1, s.len() as int + 1) =~= s);
            assert(line.skip(s.len() as int + 2) =~= body);
        },
        None => {
            assert(line =~= body);
        },
    }
    assert(prefix_split(line) == (m.source, body));
    // The verb comes off whole and is classified as it was.
    lemma_span_until_concat(v, p, ' ');
    assert(span_until(p, ' ') == 0);
    assert(span_until(body, ' ') == v.len());
    assert(body.take(v.len() as int) =~= v);
    if m.params.len() > 0 {
        assert(p[0] == ' ');
        assert(body.skip(v.len() as int + 1) =~= p.drop_first());
        lemma_params_round_trip(m);
        assert(command_split(body) == Ok::<(Verb, Seq<char>), ErrorType>((m.verb, p.drop_first())));
    } else {
        assert(body =~= v);
        assert(words(Seq::<char>::empty()) =~= m.params);
        assert(command_split(body) == Ok::<(Verb, Seq<char>), ErrorType>(
            (m.verb, Seq::<char>::empty()),
        ));
    }
}

/// Decoding the UTF-8 bytes of a wire message's text gives that message back.
pub proof fn lemma_round_trip(m: MessageView)
    requires
        is_wire_message(m),
    ensures
        decode_bytes(encode_utf8(encode_message(m))) == Ok::<MessageView, ErrorType>(m),
{
    encode_utf8_valid_utf8(encode_message(m));
    encode_utf8_decode_utf8(encode_message(m));
    lemma_line_round_trip(m);
}

/// Terminators after a line that does not end in one are all removed.
proof fn lemma_trim_terminators_concat(a: Seq<char>, b: Seq<char>)
    requires
        forall|i: int| 0 <= i < b.len() ==> is_terminator(#[trigger] b[i]),
    ensures
        trim_terminators(a + b) == trim_terminators(a),
    decreases b.len(),
{
    if b.len() == 0 {
        assert(a + b =~= a);
    } else {
        assert((a + b).drop_last() =~= a + b.drop_last());
        assert((a + b).last() == b.last());
        lemma_trim_terminators_concat(a, b.drop_last());
    }
}

/// Terminators are removed only at the end: a head that does not end in one
/// is kept whole.
proof fn lemma_trim_terminators_keeps_head(a: Seq<char>, b: Seq<char>)
    requires
        a.len() > 0,
        !is_terminator(a.last()),
    ensures
        trim_terminators(a + b) == a + trim_terminators(b),
    decreases b.len(),
{
    if b.len() == 0 {
        assert(a + b =~= a);
        assert(a + trim_terminators(b) =~= a);
    } else {
        assert((a + b).drop_last() =~= a + b.drop_last());
        assert((a + b).last() == b.last());
        lemma_trim_terminators_keeps_head(a, b.drop_last());
        if !is_terminator(b.last()) {
            assert(trim_terminators(a + b) == a + b);
        }
    }
}

/// A line decodes the same with any run of line terminators after it.
pub proof fn lemma_trailing_terminators(line: Seq<char>, t: Seq<char>)
    requires
        forall|i: int| 0 <= i < t.len() ==> is_terminator(#[trigger] t[i]),
    ensures
        decode_line(line + t) == decode_line(line),
{
    lemma_trim_terminators_concat(line, t);
}

/// A buffer decodes the same with the bytes of any run of line terminators
/// after it.
pub proof fn lemma_trailing_terminator_bytes(b: Seq<u8>, t: Seq<char>)
    requires
        forall|i: int| 0 <= i < t.len() ==> is_terminator(#[trigger] t[i]),
    ensures
        decode_bytes(b + encode_utf8(t)) == decode_bytes(b),
{
    let tb = encode_utf8(t);
    let all = b + tb;
    encode_utf8_valid_utf8(t);
    encode_utf8_decode_utf8(t);
    if t.len() == 0 {
        assert(tb.len() == 0);
        assert(all =~= b);
    } else {
        assert(is_ascii_chars(t));
        is_ascii_chars_encode_utf8(t);
        assert(all[b.len() as int] == tb[0]);
        assert(!is_continuation_byte(tb[0]));
        assert(all.subrange(0, b.len() as int) =~= b);
        assert(all.subrange(b.len() as int, all.len() as int) =~= tb);
        if valid_utf8(all) {
            is_char_boundary_iff_not_is_continuation_byte(all, b.len() as int);
            valid_utf8_split(all, b.len() as int);
            decode_utf8_split(all, b.len() as int);
            lemma_trailing_terminators(decode_utf8(b), t);
        } else if valid_utf8(b) {
            valid_utf8_concat(b, tb);
        }
    }
}

/// A verb token of digits, of any length, is a numeric code: alone on the
/// line, or followed by a space and anything else.
pub proof fn lemma_digits_are_numeric(d: Seq<char>, rest: Seq<char>)
    requires
        is_numeric(d),
    ensures
        decode_line(d) == Ok::<MessageView, ErrorType>(
            MessageView { source: None, verb: Verb::Numeric(d), params: Seq::<Seq<char>>::empty() },
        ),
        decode_line(d + seq![' '] + rest) matches Ok(m) && m.verb == Verb::Numeric(d)
            && m.source is None,
{
    assert(!is_terminator(d.last()));
    assert(lacks(d, ' '));
    // Alone on the line.
    assert(trim_terminators(d) == d);
    assert(trim_spaces(d) == d);
    assert(prefix_split(d) == (None::<Seq<char>>, d));
    lemma_span_until_concat(d, Seq::<char>::empty(), ' ');
    assert(d + Seq::<char>::empty() =~= d);
    assert(d.take(d.len() as int) =~= d);
    assert(words(Seq::<char>::empty()) =~= Seq::<Seq<char>>::empty());
    // With more after a space.
    let tail = seq![' '] + rest;
    let line = d + tail;
    assert(d + seq![' '] + rest =~= line);
    lemma_trim_terminators_keeps_head(d, tail);
    let t = d + trim_terminators(tail);
    assert(t.len() > 0 && t[0] == d[0]);
    assert(trim_spaces(t) == t);
    assert(prefix_split(t).0 is None);
    lemma_trim_terminators_keeps_head(seq![' '], rest);
    assert(trim_terminators(tail) =~= seq![' '] + trim_terminators(rest));
    lemma_span_until_concat(d, trim_terminators(tail), ' ');
    assert(t.take(d.len() as int) =~= d);
}

} // verus!
