//! Character-level helpers shared by the codec: scanning for a separator,
//! splitting on spaces, trimming, and comparing text.
use vstd::prelude::*;
use vstd::string::*;

verus! {

/// Number of leading characters of `s` that differ from `c`: the index of
/// the first `c` in `s`, or the length of `s` when it holds none.
pub open spec fn span_until(s: Seq<char>, c: char) -> nat
    decreases s.len(),
{
    if s.len() == 0 || s[0] == c {
        0
    } else {
        1 + span_until(s.drop_first(), c)
    }
}

/// `s` holds no `c`.
pub open spec fn lacks(s: Seq<char>, c: char) -> bool {
    forall|i: int| 0 <= i < s.len() ==> s[i] != c
}

/// The maximal runs of non-space characters of `s`, in order.
pub open spec fn words(s: Seq<char>) -> Seq<Seq<char>>
    decreases s.len(),
    via words_decreases
{
    if s.len() == 0 {
        seq![]
    } else if s[0] == ' ' {
        words(s.drop_first())
    } else {
        let k = span_until(s, ' ') as int;
        seq![s.take(k)] + words(s.skip(k))
    }
}

#[via_fn]
proof fn words_decreases(s: Seq<char>) {
    if s.len() != 0 && s[0] != ' ' {
        lemma_span_until(s, ' ');
        lemma_span_until(s.drop_first(), ' ');
    }
}

/// A line terminator character.
pub open spec fn is_terminator(c: char) -> bool {
    c == '\r' || c == '\n'
}

/// `s` without its trailing run of line terminators.
pub open spec fn trim_terminators(s: Seq<char>) -> Seq<char>
    decreases s.len(),
{
    if s.len() > 0 && is_terminator(s.last()) {
        trim_terminators(s.drop_last())
    } else {
        s
    }
}

/// `s` without its leading run of spaces.
pub open spec fn trim_spaces(s: Seq<char>) -> Seq<char>
    decreases s.len(),
{
    if s.len() > 0 && s[0] == ' ' {
        trim_spaces(s.drop_first())
    } else {
        s
    }
}

/// Each word followed by one space, concatenated: the inverse of `words`
/// on words that are non-empty and hold no space.
pub open spec fn words_text(ws: Seq<Seq<char>>) -> Seq<char>
    decreases ws.len(),
{
    if ws.len() == 0 {
        seq![]
    } else {
        ws[0] + seq![' '] + words_text(ws.drop_first())
    }
}

pub proof fn lemma_span_until(s: Seq<char>, c: char)
    ensures
        span_until(s, c) <= s.len(),
        span_until(s, c) < s.len() ==> s[span_until(s, c) as int] == c,
        forall|i: int| 0 <= i < span_until(s, c) ==> s[i] != c,
    decreases s.len(),
{
    if s.len() != 0 && s[0] != c {
        lemma_span_until(s.drop_first(), c);
        assert forall|i: int| 0 <= i < span_until(s, c) implies s[i] != c by {
            if i > 0 {
                assert(s[i] == s.drop_first()[i - 1]);
            }
        }
    }
}

/// A prefix that holds no `c` is passed over whole.
pub proof fn lemma_span_until_concat(a: Seq<char>, b: Seq<char>, c: char)
    requires
        lacks(a, c),
    ensures
        span_until(a + b, c) == a.len() + span_until(b, c),
    decreases a.len(),
{
    if a.len() == 0 {
        assert(a + b =~= b);
    } else {
        assert((a + b).drop_first() =~= a.drop_first() + b);
        lemma_span_until_concat(a.drop_first(), b, c);
    }
}

/// Appending one word to a list appends it, and a space, to its text.
pub proof fn lemma_words_text_push(ws: Seq<Seq<char>>, w: Seq<char>)
    ensures
        words_text(ws.push(w)) == words_text(ws) + w + seq![' '],
    decreases ws.len(),
{
    if ws.len() == 0 {
        assert(ws.push(w).drop_first() =~= ws);
        assert(words_text(ws.push(w)) =~= words_text(ws) + w + seq![' ']);
    } else {
        assert(ws.push(w).drop_first() =~= ws.drop_first().push(w));
        lemma_words_text_push(ws.drop_first(), w);
        assert(words_text(ws.push(w)) =~= words_text(ws) + w + seq![' ']);
    }
}

/// Leading spaces do not change the words.
pub proof fn lemma_words_skip_space(s: Seq<char>)
    ensures
        words(seq![' '] + s) == words(s),
{
    assert((seq![' '] + s).drop_first() =~= s);
}

/// Splitting the text of non-empty, space-free words gives the words back.
pub proof fn lemma_words_of_words_text(ws: Seq<Seq<char>>)
    requires
        forall|i: int| 0 <= i < ws.len() ==> ws[i].len() > 0 && lacks(#[trigger] ws[i], ' '),
    ensures
        words(words_text(ws)) == ws,
    decreases ws.len(),
{
    if ws.len() == 0 {
        assert(words(words_text(ws)) =~= ws);
    } else {
        let w = ws[0];
        let rest = words_text(ws.drop_first());
        let t = words_text(ws);
        assert(t =~= w + (seq![' '] + rest));
        lemma_span_until_concat(w, seq![' '] + rest, ' ');
        assert(span_until(t, ' ') == w.len());
        assert(t[0] == w[0]);
        assert(t.take(w.len() as int) =~= w);
        assert(t.skip(w.len() as int) =~= seq![' '] + rest);
        lemma_words_skip_space(rest);
        lemma_words_of_words_text(ws.drop_first());
        assert(words(t) =~= ws);
    }
}

/// The characters of `s`, in order, in a vector.
pub fn chars_of(s: &str) -> (r: Vec<char>)
    ensures
        r@ == s@,
{
    let mut v: Vec<char> = Vec::new();
    for c in it: s.chars()
        invariant
            v@ == it.seq().take(it.index() as int),
            it.seq() == s@,
    {
        v.push(c);
    }
    v
}

/// The first position in `cs[from..to]` that holds `c`, or `to`.
pub fn scan_until(cs: &Vec<char>, from: usize, to: usize, c: char) -> (r: usize)
    requires
        from <= to <= cs.len(),
    ensures
        r == from + span_until(cs@.subrange(from as int, to as int), c),
        from <= r <= to,
{
    let mut j: usize = from;
    while j < to && cs[j] != c
        invariant
            from <= j <= to <= cs.len(),
            span_until(cs@.subrange(from as int, to as int), c) == (j - from) + span_until(
                cs@.subrange(j as int, to as int),
                c,
            ),
        decreases to - j,
    {
        assert(cs@.subrange(j as int, to as int).drop_first() =~= cs@.subrange(
            j as int + 1,
            to as int,
        ));
        j = j + 1;
    }
    j
}

/// Whether `a` and `b` hold the same characters.
pub fn same_text(a: &str, b: &str) -> (r: bool)
    ensures
        r == (a@ == b@),
{
    let x = chars_of(a);
    let y = chars_of(b);
    if x.len() != y.len() {
        return false;
    }
    let mut i: usize = 0;
    while i < x.len()
        invariant
            x@ == a@,
            y@ == b@,
            x.len() == y.len(),
            i <= x.len(),
            forall|k: int| 0 <= k < i ==> x@[k] == y@[k],
        decreases x.len() - i,
    {
        if x[i] != y[i] {
            assert(a@[i as int] != b@[i as int]);
            return false;
        }
        i = i + 1;
    }
    assert(x@ =~= y@);
    true
}

/// `s` without its trailing line terminators and then its leading spaces.
pub fn trim_line<'a>(s: &'a str) -> (r: &'a str)
    ensures
        r@ == trim_spaces(trim_terminators(s@)),
{
    let cs = chars_of(s);
    let mut e: usize = cs.len();
    assert(cs@.take(e as int) =~= cs@);
    while e > 0 && (cs[e - 1] == '\r' || cs[e - 1] == '\n')
        invariant
            e <= cs.len(),
            trim_terminators(cs@) == trim_terminators(cs@.take(e as int)),
        decreases e,
    {
        assert(cs@.take(e as int).drop_last() =~= cs@.take(e as int - 1));
        e = e - 1;
    }
    assert(trim_terminators(cs@.take(e as int)) == cs@.take(e as int));
    let mut b: usize = 0;
    while b < e && cs[b] == ' '
        invariant
            b <= e <= cs.len(),
            trim_terminators(cs@) == cs@.take(e as int),
            trim_spaces(cs@.take(e as int)) == trim_spaces(cs@.subrange(b as int, e as int)),
        decreases e - b,
    {
        assert(cs@.subrange(b as int, e as int).drop_first() =~= cs@.subrange(
            b as int + 1,
            e as int,
        ));
        b = b + 1;
    }
    proof {
        assert(cs@.take(e as int) =~= cs@.subrange(0, e as int));
    }
    s.substring_char(b, e)
}

} // verus!
