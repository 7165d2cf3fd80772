//! The query lexer: splits a query string into modifier signs, the `regex:`
//! prefix, quoted strings and bare words.
use crate::text::{
    byte_len, char_len_utf8, first_char, is_ascii_whitespace, is_ascii_ws, lemma_ascii_run, lemma_utf8_len_push,
    push_char, str_starts_with, suffix_at, utf8_len,
};
use vstd::prelude::*;

verus! {

/// One lexical token of the query language.
#[derive(Debug, Clone, PartialEq)]
pub enum Token {
    Plus,
    Minus,
    RegexPrefix,
    QuotedString(String),
    Word(String),
    Eof,
}

/// A token with its text as a sequence of chars.
pub enum TokenModel {
    Plus,
    Minus,
    RegexPrefix,
    QuotedString(Seq<char>),
    Word(Seq<char>),
    Eof,
}

impl View for Token {
    type V = TokenModel;

    open spec fn view(&self) -> TokenModel {
        match self {
            Token::Plus => TokenModel::Plus,
            Token::Minus => TokenModel::Minus,
            Token::RegexPrefix => TokenModel::RegexPrefix,
            Token::QuotedString(s) => TokenModel::QuotedString(s@),
            Token::Word(s) => TokenModel::Word(s@),
            Token::Eof => TokenModel::Eof,
        }
    }
}

/// First position at or after `i` that does not hold ASCII whitespace.
pub open spec fn skip_ws(s: Seq<char>, i: nat) -> nat
    decreases s.len() - i,
{
    if i < s.len() && is_ascii_ws(s[i as int]) {
        skip_ws(s, i + 1)
    } else {
        i
    }
}

/// First position at or after `i` that holds ASCII whitespace or is the end.
pub open spec fn word_end(s: Seq<char>, i: nat) -> nat
    decreases s.len() - i,
{
    if i < s.len() && !is_ascii_ws(s[i as int]) {
        word_end(s, i + 1)
    } else {
        i
    }
}

/// Body of a quoted string whose opening quote lies just before `i`, and the
/// position after it. A backslash escapes a following quote only; any other
/// backslash stands for itself. The closing quote is consumed; an
/// unterminated string runs to the end of the input.
pub open spec fn quoted(s: Seq<char>, i: nat) -> (Seq<char>, nat)
    decreases s.len() - i,
{
    if i >= s.len() {
        (Seq::empty(), i)
    } else if s[i as int] == '"' {
        (Seq::empty(), i + 1)
    } else if s[i as int] == '\\' {
        if i + 1 < s.len() && s[i + 1 as int] == '"' {
            let r = quoted(s, i + 2);
            (seq!['"'] + r.0, r.1)
        } else {
            let r = quoted(s, i + 1);
            (seq!['\\'] + r.0, r.1)
        }
    } else {
        let r = quoted(s, i + 1);
        (seq![s[i as int]] + r.0, r.1)
    }
}

/// The chars of `regex:`.
pub open spec fn regex_prefix() -> Seq<char> {
    seq!['r', 'e', 'g', 'e', 'x', ':']
}

/// `p` occurs in `s` at position `i`.
pub open spec fn occurs_at(s: Seq<char>, i: nat, p: Seq<char>) -> bool {
    i + p.len() <= s.len() && s.subrange(i as int, (i + p.len()) as int) == p
}

/// The token that starts the input from position `i` on, and the position
/// after it. Leading ASCII whitespace is skipped; `+`, `-` and `"` are
/// recognized first, then the `regex:` prefix, and anything else is a word
/// that runs to the next ASCII whitespace.
pub open spec fn next_token_spec(s: Seq<char>, i: nat) -> (TokenModel, nat) {
    let j = skip_ws(s, i);
    if j >= s.len() {
        (TokenModel::Eof, j)
    } else if s[j as int] == '+' {
        (TokenModel::Plus, j + 1)
    } else if s[j as int] == '-' {
        (TokenModel::Minus, j + 1)
    } else if s[j as int] == '"' {
        let q = quoted(s, j + 1);
        (TokenModel::QuotedString(q.0), q.1)
    } else if occurs_at(s, j, regex_prefix()) {
        (TokenModel::RegexPrefix, j + 6)
    } else {
        let e = word_end(s, j);
        (TokenModel::Word(s.subrange(j as int, e as int)), e)
    }
}

/// A cursor over a query string.
pub struct Lexer<'a> {
    input: &'a str,
    pos: usize,
    index: Ghost<nat>,
}

impl<'a> Lexer<'a> {
    /// The chars of the input.
    pub closed spec fn text(&self) -> Seq<char> {
        self.input@
    }

    /// How many chars of the input have been consumed.
    pub closed spec fn cursor(&self) -> nat {
        self.index@
    }

    /// The cursor lies within the input and the byte position matches it.
    pub closed spec fn wf(&self) -> bool {
        &&& self.index@ <= self.input@.len()
        &&& self.pos == utf8_len(self.input@.take(self.index@ as int))
        &&& utf8_len(self.input@) <= usize::MAX
    }

    /// Starts at the beginning of `input`.
    pub fn new(input: &'a str) -> (lexer: Self)
        ensures
            lexer.wf(),
            lexer.text() == input@,
            lexer.cursor() == 0,
            lexer.cursor() <= lexer.text().len(),
    {
        // The byte length of the input bounds every byte offset into it.
        let _total = byte_len(input);
        proof {
            assert(input@.take(0) =~= Seq::<char>::empty());
        }
        Self { input, pos: 0, index: Ghost(0) }
    }

    /// Byte offset of the cursor in the input.
    pub fn pos(&self) -> (p: usize)
        requires
            self.wf(),
        ensures
            p == utf8_len(self.text().take(self.cursor() as int)),
    {
        self.pos
    }

    fn remaining(&self) -> (rest: &str)
        requires
            self.wf(),
        ensures
            rest@ == self.text().skip(self.cursor() as int),
    {
        suffix_at(self.input, self.pos, Ghost(self.index@ as int))
    }

    fn peek(&self) -> (c: Option<char>)
        requires
            self.wf(),
        ensures
            self.cursor() < self.text().len() ==> c == Some(self.text()[self.cursor() as int]),
            self.cursor() >= self.text().len() ==> c is None,
    {
        first_char(self.remaining())
    }

    /// Moves past the char under the cursor, which must be `c`.
    fn step(&mut self, c: char)
        requires
            old(self).wf(),
            old(self).cursor() < old(self).text().len(),
            old(self).text()[old(self).cursor() as int] == c,
        ensures
            final(self).wf(),
            final(self).text() == old(self).text(),
            final(self).cursor() == old(self).cursor() + 1,
    {
        proof {
            lemma_utf8_len_push(self.input@, self.index@ as int);
        }
        self.pos = self.pos + char_len_utf8(c);
        self.index = Ghost(self.index@ + 1);
    }

    fn advance(&mut self) -> (c: Option<char>)
        requires
            old(self).wf(),
        ensures
            final(self).wf(),
            final(self).text() == old(self).text(),
            old(self).cursor() < old(self).text().len() ==> c == Some(
                old(self).text()[old(self).cursor() as int],
            ) && final(self).cursor() == old(self).cursor() + 1,
            old(self).cursor() >= old(self).text().len() ==> c is None && final(self).cursor()
                == old(self).cursor(),
    {
        let ch = self.peek()?;
        self.step(ch);
        Some(ch)
    }

    fn skip_whitespace(&mut self)
        requires
            old(self).wf(),
        ensures
            final(self).wf(),
            final(self).text() == old(self).text(),
            final(self).cursor() == skip_ws(old(self).text(), old(self).cursor()),
    {
        loop
            invariant
                self.wf(),
                self.text() == old(self).text(),
                skip_ws(self.text(), self.cursor()) == skip_ws(
                    old(self).text(),
                    old(self).cursor(),
                ),
            ensures
                self.cursor() == skip_ws(old(self).text(), old(self).cursor()),
            decreases self.text().len() - self.cursor(),
        {
            match self.peek() {
                Some(ch) => {
                    if is_ascii_whitespace(ch) {
                        self.step(ch);
                    } else {
                        break;
                    }
                },
                None => {
                    break;
                },
            }
        }
    }

    fn read_word(&mut self) -> (s: String)
        requires
            old(self).wf(),
        ensures
            final(self).wf(),
            final(self).text() == old(self).text(),
            final(self).cursor() == word_end(old(self).text(), old(self).cursor()),
            s@ == old(self).text().subrange(
                old(self).cursor() as int,
                word_end(old(self).text(), old(self).cursor()) as int,
            ),
    {
        let mut s = String::new();
        loop
            invariant
                self.wf(),
                self.text() == old(self).text(),
                old(self).cursor() <= self.cursor(),
                word_end(self.text(), self.cursor()) == word_end(
                    old(self).text(),
                    old(self).cursor(),
                ),
                s@ == self.text().subrange(old(self).cursor() as int, self.cursor() as int),
            ensures
                self.cursor() == word_end(old(self).text(), old(self).cursor()),
            decreases self.text().len() - self.cursor(),
        {
            match self.peek() {
                None => {
                    break;
                },
                Some(ch) => {
                    if is_ascii_whitespace(ch) {
                        break;
                    }
                    push_char(&mut s, ch);
                    self.step(ch);
                    assert(s@ =~= self.text().subrange(
                        old(self).cursor() as int,
                        self.cursor() as int,
                    ));
                },
            }
        }
        s
    }

    fn read_quoted(&mut self) -> (s: String)
        requires
            old(self).wf(),
        ensures
            final(self).wf(),
            final(self).text() == old(self).text(),
            (s@, final(self).cursor()) == quoted(old(self).text(), old(self).cursor()),
    {
        let mut s = String::new();
        loop
            invariant_except_break
                quoted(old(self).text(), old(self).cursor()) == (s@ + quoted(
                    self.text(),
                    self.cursor(),
                ).0, quoted(self.text(), self.cursor()).1),
            invariant
                self.wf(),
                self.text() == old(self).text(),
            ensures
                quoted(old(self).text(), old(self).cursor()) == (s@, self.cursor()),
            decreases self.text().len() - self.cursor(),
        {
            let ghost before = s@;
            let ghost c0 = self.cursor();
            match self.advance() {
                None => {
                    assert(s@ + quoted(self.text(), self.cursor()).0 =~= s@);
                    break;
                },
                Some(ch) => {
                    if ch == '"' {
                        assert(s@ + quoted(self.text(), c0).0 =~= s@);
                        break;
                    } else if ch == '\\' {
                        match self.peek() {
                            Some(next) => {
                                if next == '"' {
                                    self.step(next);
                                    push_char(&mut s, '"');
                                } else {
                                    push_char(&mut s, '\\');
                                }
                            },
                            None => {
                                push_char(&mut s, '\\');
                            },
                        }
                    } else {
                        push_char(&mut s, ch);
                    }
                    assert(before + quoted(self.text(), c0).0 =~= s@ + quoted(
                        self.text(),
                        self.cursor(),
                    ).0);
                },
            }
        }
        s
    }

    /// Reads the next token and moves past it; at the end of the input every
    /// call gives `Eof`.
    pub fn next_token(&mut self) -> (t: Token)
        requires
            old(self).wf(),
        ensures
            final(self).wf(),
            final(self).text() == old(self).text(),
            final(self).cursor() <= final(self).text().len(),
            (t@, final(self).cursor()) == next_token_spec(old(self).text(), old(self).cursor()),
    {
        self.skip_whitespace();
        match self.peek() {
            None => Token::Eof,
            Some(ch) => {
                if ch == '+' {
                    self.step(ch);
                    Token::Plus
                } else if ch == '-' {
                    self.step(ch);
                    Token::Minus
                } else if ch == '"' {
                    self.step(ch);
                    Token::QuotedString(self.read_quoted())
                } else {
                    let rest = self.remaining();
                    let prefix = "regex:";
                    proof {
                        reveal_strlit("regex:");
                        assert(prefix@ =~= regex_prefix());
                    }
                    if str_starts_with(rest, prefix) {
                        proof {
                            let t = self.text();
                            let j = self.cursor() as int;
                            assert(t.subrange(j, j + 6) =~= rest@.subrange(0, 6));
                            assert forall|k: int| j <= k < j + 6 implies (#[trigger] t[k] as u32)
                                < 0x80 by {
                                assert(t[k] == regex_prefix()[k - j]);
                            }
                            lemma_ascii_run(t, j, 6);
                        }
                        self.pos = self.pos + 6;
                        self.index = Ghost(self.index@ + 6);
                        Token::RegexPrefix
                    } else {
                        proof {
                            let t = self.text();
                            let j = self.cursor() as int;
                            if occurs_at(t, self.cursor(), regex_prefix()) {
                                assert(rest@.subrange(0, 6) =~= t.subrange(j, j + 6));
                            }
                        }
                        Token::Word(self.read_word())
                    }
                }
            },
        }
    }
}

proof fn lemma_skip_ws_bounds(s: Seq<char>, i: nat)
    ensures
        i <= skip_ws(s, i),
        i <= s.len() ==> skip_ws(s, i) <= s.len(),
        i > s.len() ==> skip_ws(s, i) == i,
        skip_ws(s, i) < s.len() ==> !is_ascii_ws(s[skip_ws(s, i) as int]),
    decreases s.len() - i,
{
    if i < s.len() && is_ascii_ws(s[i as int]) {
        lemma_skip_ws_bounds(s, i + 1);
    }
}

proof fn lemma_word_end_bounds(s: Seq<char>, i: nat)
    ensures
        i <= word_end(s, i),
        i <= s.len() ==> word_end(s, i) <= s.len(),
        i < s.len() && !is_ascii_ws(s[i as int]) ==> i < word_end(s, i),
        forall|k: int| i <= k < word_end(s, i) ==> !is_ascii_ws(#[trigger] s[k]),
    decreases s.len() - i,
{
    if i < s.len() && !is_ascii_ws(s[i as int]) {
        lemma_word_end_bounds(s, i + 1);
    }
}

proof fn lemma_quoted_bounds(s: Seq<char>, i: nat)
    ensures
        i <= quoted(s, i).1,
        i <= s.len() ==> quoted(s, i).1 <= s.len(),
    decreases s.len() - i,
{
    if i < s.len() {
        if s[i as int] == '"' {
        } else if s[i as int] == '\\' && i + 1 < s.len() && s[i + 1 as int] == '"' {
            lemma_quoted_bounds(s, i + 2);
        } else {
            lemma_quoted_bounds(s, i + 1);
        }
    }
}

/// Reading a token never moves backwards nor past the end, and every token
/// but `Eof` consumes at least one char.
pub proof fn lemma_next_token_progress(s: Seq<char>, i: nat)
    ensures
        i <= next_token_spec(s, i).1,
        i <= s.len() ==> next_token_spec(s, i).1 <= s.len(),
        !(next_token_spec(s, i).0 is Eof) ==> i < next_token_spec(s, i).1,
{
    let j = skip_ws(s, i);
    lemma_skip_ws_bounds(s, i);
    if j < s.len() {
        lemma_quoted_bounds(s, j + 1);
        lemma_word_end_bounds(s, j);
    }
}


/// Skipping whitespace twice is the same as skipping it once.
proof fn lemma_skip_ws_idempotent(s: Seq<char>, i: nat)
    ensures
        skip_ws(s, skip_ws(s, i)) == skip_ws(s, i),
    decreases s.len() - i,
{
    if i < s.len() && is_ascii_ws(s[i as int]) {
        lemma_skip_ws_idempotent(s, i + 1);
    }
}

/// A quoted body free of quotes and backslashes is read char for char, up to
/// and including the closing quote at `i + n`.
proof fn lemma_quoted_plain(s: Seq<char>, i: nat, n: nat)
    requires
        i + n < s.len(),
        s[(i + n) as int] == '"',
        forall|k: int| i <= k < i + n ==> (#[trigger] s[k]) != '"' && s[k] != '\\',
    ensures
        quoted(s, i) == (s.subrange(i as int, (i + n) as int), i + n + 1),
    decreases n,
{
    if n > 0 {
        lemma_quoted_plain(s, i + 1, (n - 1) as nat);
        assert(s[i as int] != '"' && s[i as int] != '\\');
        assert(seq![s[i as int]] + s.subrange((i + 1) as int, (i + n) as int) =~= s.subrange(
            i as int,
            (i + n) as int,
        ));
    } else {
        assert(s.subrange(i as int, i as int) =~= Seq::<char>::empty());
    }
}

/// A run of non-whitespace chars up to the end is one word.
proof fn lemma_word_end_at_end(s: Seq<char>, i: nat)
    requires
        i <= s.len(),
        forall|k: int| i <= k < s.len() ==> !is_ascii_ws(#[trigger] s[k]),
    ensures
        word_end(s, i) == s.len(),
    decreases s.len() - i,
{
    if i < s.len() {
        lemma_word_end_at_end(s, i + 1);
    }
}

/// Law: a quoted string whose body holds no quote and no backslash is read
/// as exactly the typed body, and the token ends after the closing quote.
pub proof fn law_quoted_string_is_typed_text(q: Seq<char>)
    requires
        forall|k: int| 0 <= k < q.len() ==> (#[trigger] q[k]) != '"' && q[k] != '\\',
    ensures
        next_token_spec(seq!['"'] + q + seq!['"'], 0) == (TokenModel::QuotedString(q), q.len()
            + 2),
{
    let s = seq!['"'] + q + seq!['"'];
    assert(s[0] == '"');
    assert(skip_ws(s, 0) == 0);
    assert forall|k: int| 1 <= k < 1 + q.len() implies (#[trigger] s[k]) != '"' && s[k] != '\\' by {
        assert(s[k] == q[k - 1]);
    }
    assert(s[(1 + q.len()) as int] == '"');
    lemma_quoted_plain(s, 1, q.len());
    assert(s.subrange(1, (1 + q.len()) as int) =~= q);
}

/// The chars of a query that lex as one bare word: not empty, no ASCII
/// whitespace, not starting with `+`, `-` or `"`, and not starting with
/// `regex:`.
pub open spec fn is_plain_word(w: Seq<char>) -> bool {
    &&& w.len() > 0
    &&& forall|k: int| 0 <= k < w.len() ==> !is_ascii_ws(#[trigger] w[k])
    &&& w[0] != '+' && w[0] != '-' && w[0] != '"'
    &&& !(w.len() >= 6 && w.subrange(0, 6) == seq!['r', 'e', 'g', 'e', 'x', ':'])
}

/// Law: a plain word is read as exactly itself, up to the end of the text.
pub proof fn law_word_is_typed_text(w: Seq<char>)
    requires
        is_plain_word(w),
    ensures
        next_token_spec(w, 0) == (TokenModel::Word(w), w.len()),
{
    assert(skip_ws(w, 0) == 0);
    lemma_word_end_at_end(w, 0);
    assert(w.subrange(0, w.len() as int) =~= w);
    assert(!occurs_at(w, 0, regex_prefix())) by {
        if occurs_at(w, 0, regex_prefix()) {
            assert(w.subrange(0, 6) =~= seq!['r', 'e', 'g', 'e', 'x', ':']);
        }
    }
}

/// Law: once the lexer has reported `Eof` it stays at the end and reports
/// `Eof` again.
pub proof fn law_eof_is_final(s: Seq<char>, i: nat)
    requires
        next_token_spec(s, i).0 is Eof,
    ensures
        next_token_spec(s, next_token_spec(s, i).1) == next_token_spec(s, i),
{
    lemma_skip_ws_bounds(s, i);
    lemma_skip_ws_idempotent(s, i);
}

/// Law: whitespace before a token does not change which token is read nor
/// where it ends.
pub proof fn law_leading_whitespace_is_skipped(s: Seq<char>, i: nat)
    ensures
        next_token_spec(s, i) == next_token_spec(s, skip_ws(s, i)),
{
    lemma_skip_ws_idempotent(s, i);
}

/// Law: a word token is never empty and holds no ASCII whitespace.
pub proof fn law_words_are_whitespace_free(s: Seq<char>, i: nat)
    requires
        next_token_spec(s, i).0 is Word,
    ensures
        next_token_spec(s, i).0->Word_0.len() > 0,
        forall|k: int|
            0 <= k < next_token_spec(s, i).0->Word_0.len() ==> !is_ascii_ws(
                #[trigger] next_token_spec(s, i).0->Word_0[k],
            ),
{
    let j = skip_ws(s, i);
    lemma_skip_ws_bounds(s, i);
    lemma_word_end_bounds(s, j);
    let w = next_token_spec(s, i).0->Word_0;
    assert forall|k: int| 0 <= k < w.len() implies !is_ascii_ws(#[trigger] w[k]) by {
        assert(w[k] == s[j + k]);
    }
}


/// Skipping whitespace from anywhere inside a whitespace run ends at the
/// same place.
pub proof fn lemma_skip_ws_run(s: Seq<char>, a: nat, b: nat)
    requires
        a <= b <= s.len(),
        forall|k: int| a <= k < b ==> is_ascii_ws(#[trigger] s[k]),
    ensures
        skip_ws(s, a) == skip_ws(s, b),
    decreases b - a,
{
    if a < b {
        lemma_skip_ws_run(s, a + 1, b);
    }
}

proof fn lemma_shift_skip_ws(p: Seq<char>, s: Seq<char>, i: nat)
    ensures
        skip_ws(p + s, p.len() + i) == p.len() + skip_ws(s, i),
    decreases s.len() - i,
{
    if i < s.len() {
        assert((p + s)[(p.len() + i) as int] == s[i as int]);
        if is_ascii_ws(s[i as int]) {
            lemma_shift_skip_ws(p, s, i + 1);
        }
    }
}

proof fn lemma_shift_word_end(p: Seq<char>, s: Seq<char>, i: nat)
    ensures
        word_end(p + s, p.len() + i) == p.len() + word_end(s, i),
    decreases s.len() - i,
{
    if i < s.len() {
        assert((p + s)[(p.len() + i) as int] == s[i as int]);
        if !is_ascii_ws(s[i as int]) {
            lemma_shift_word_end(p, s, i + 1);
        }
    }
}

proof fn lemma_shift_quoted(p: Seq<char>, s: Seq<char>, i: nat)
    ensures
        quoted(p + s, p.len() + i).0 == quoted(s, i).0,
        quoted(p + s, p.len() + i).1 == p.len() + quoted(s, i).1,
    decreases s.len() - i,
{
    let ps = p + s;
    if i < s.len() {
        assert(ps[(p.len() + i) as int] == s[i as int]);
        if s[i as int] == '"' {
        } else if s[i as int] == '\\' {
            if i + 1 < s.len() {
                assert(ps[(p.len() + i + 1) as int] == s[i + 1 as int]);
            }
            if i + 1 < s.len() && s[i + 1 as int] == '"' {
                lemma_shift_quoted(p, s, i + 2);
                assert(quoted(ps, p.len() + i) == {
                    let r = quoted(ps, p.len() + i + 2);
                    (seq!['"'] + r.0, r.1)
                });
            } else {
                lemma_shift_quoted(p, s, i + 1);
                assert(quoted(ps, p.len() + i) == {
                    let r = quoted(ps, p.len() + i + 1);
                    (seq!['\\'] + r.0, r.1)
                });
            }
        } else {
            lemma_shift_quoted(p, s, i + 1);
        }
    }
}

/// Reading a token of `s` gives the same token when `s` follows other text,
/// with the positions moved by the length of that text.
pub proof fn lemma_shift_next_token(p: Seq<char>, s: Seq<char>, i: nat)
    ensures
        next_token_spec(p + s, p.len() + i).0 == next_token_spec(s, i).0,
        next_token_spec(p + s, p.len() + i).1 == p.len() + next_token_spec(s, i).1,
{
    let ps = p + s;
    let j = skip_ws(s, i);
    lemma_shift_skip_ws(p, s, i);
    lemma_skip_ws_bounds(s, i);
    if j < s.len() {
        assert(ps[(p.len() + j) as int] == s[j as int]);
        lemma_shift_quoted(p, s, j + 1);
        lemma_shift_word_end(p, s, j);
        lemma_word_end_bounds(s, j);
        if j + 6 <= s.len() {
            assert(ps.subrange((p.len() + j) as int, (p.len() + j + 6) as int) =~= s.subrange(
                j as int,
                j + 6 as int,
            ));
        }
        let e = word_end(s, j);
        assert(ps.subrange((p.len() + j) as int, (p.len() + e) as int) =~= s.subrange(j as int, e as int));
    }
}

} // verus!
