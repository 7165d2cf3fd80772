//! The query parser: turns the token stream into search terms, each with a
//! modifier, a pattern and whether the pattern is a regular expression.
use super::lexer::{
    Lexer, Token, TokenModel, is_plain_word, law_leading_whitespace_is_skipped,
    law_quoted_string_is_typed_text, law_word_is_typed_text, lemma_next_token_progress,
    lemma_shift_next_token, lemma_skip_ws_run, next_token_spec, skip_ws,
};
use crate::error::{MonoklError, Result};
use crate::text::{all_unicode_ws, is_ascii_ws, is_blank};
use vstd::prelude::*;

verus! {

/// How a term takes part in a search.
#[derive(Debug, Clone, PartialEq, Eq, Structural)]
pub enum Modifier {
    Required,
    Excluded,
    Optional,
}

/// One search term of a query.
#[derive(Debug, Clone)]
pub struct ParsedTerm {
    pub modifier: Modifier,
    pub pattern: String,
    pub is_regex: bool,
}

/// A search term with its pattern as a sequence of chars.
pub struct TermModel {
    pub modifier: Modifier,
    pub pattern: Seq<char>,
    pub is_regex: bool,
}

impl View for ParsedTerm {
    type V = TermModel;

    open spec fn view(&self) -> TermModel {
        TermModel { modifier: self.modifier, pattern: self.pattern@, is_regex: self.is_regex }
    }
}

/// The models of a sequence of terms.
pub open spec fn terms_model(terms: Seq<ParsedTerm>) -> Seq<TermModel> {
    terms.map_values(|t: ParsedTerm| t@)
}

/// The chars that `regex::escape` prefixes with a backslash.
pub open spec fn is_regex_meta(c: char) -> bool {
    c == '\\' || c == '.' || c == '+' || c == '*' || c == '?' || c == '(' || c == ')' || c == '|'
        || c == '[' || c == ']' || c == '{' || c == '}' || c == '^' || c == '$' || c == '#' || c
        == '&' || c == '-' || c == '~'
}

/// `s` with a backslash put before every regex meta char.
pub open spec fn regex_escape(s: Seq<char>) -> Seq<char>
    decreases s.len(),
{
    if s.len() == 0 {
        Seq::empty()
    } else {
        (if is_regex_meta(s[0]) {
            seq!['\\', s[0]]
        } else {
            seq![s[0]]
        }) + regex_escape(s.drop_first())
    }
}

/// Calls `regex::escape` (which forwards to `regex_syntax::escape`). The
/// contract claims that the result is `s` with a backslash put before each
/// regex meta char (`\ . + * ? ( ) | [ ] { } ^ $ # & - ~`) and every other
/// char kept, in order.
#[verifier::external_body]
fn escape(s: &str) -> (r: String)
    ensures
        r@ == regex_escape(s@),
{
    regex::escape(s)
}

/// A literal (non-regex) term matching `text`.
pub open spec fn literal_term(text: Seq<char>, modifier: Modifier) -> TermModel {
    TermModel { modifier, pattern: regex_escape(text), is_regex: false }
}

/// The term that a token after `+` or `-` gives: a word or a quoted string
/// becomes a literal term with that modifier; any other token gives none.
pub open spec fn content_term(tok: TokenModel, modifier: Modifier) -> Seq<TermModel> {
    match tok {
        TokenModel::Word(w) => seq![literal_term(w, modifier)],
        TokenModel::QuotedString(q) => seq![literal_term(q, modifier)],
        _ => Seq::empty(),
    }
}

/// The term that a token after `regex:` gives: a word or a quoted string is
/// taken as an optional regex, unescaped; any other token gives none.
pub open spec fn regex_term(tok: TokenModel) -> Seq<TermModel> {
    match tok {
        TokenModel::Word(w) => seq![TermModel { modifier: Modifier::Optional, pattern: w, is_regex: true }],
        TokenModel::QuotedString(q) => seq![TermModel { modifier: Modifier::Optional, pattern: q, is_regex: true }],
        _ => Seq::empty(),
    }
}

/// The terms of the query text `s` read from position `i` on.
pub open spec fn terms_from(s: Seq<char>, i: nat) -> Seq<TermModel>
    decreases s.len() - i,
{
    let (t, j) = next_token_spec(s, i);
    proof {
        lemma_next_token_progress(s, i);
        lemma_next_token_progress(s, j);
    }
    if i > s.len() {
        Seq::empty()
    } else {
        match t {
            TokenModel::Eof => Seq::empty(),
            TokenModel::Plus => {
                let (c, k) = next_token_spec(s, j);
                content_term(c, Modifier::Required) + terms_from(s, k)
            },
            TokenModel::Minus => {
                let (c, k) = next_token_spec(s, j);
                content_term(c, Modifier::Excluded) + terms_from(s, k)
            },
            TokenModel::RegexPrefix => {
                let (c, k) = next_token_spec(s, j);
                regex_term(c) + terms_from(s, k)
            },
            TokenModel::Word(w) => seq![literal_term(w, Modifier::Optional)] + terms_from(s, j),
            TokenModel::QuotedString(q) => seq![literal_term(q, Modifier::Optional)] + terms_from(
                s,
                j,
            ),
        }
    }
}

/// The terms of the query text `s`: none for text that is only (Unicode)
/// whitespace, else every term read from the start.
pub open spec fn query_terms(s: Seq<char>) -> Seq<TermModel> {
    if all_unicode_ws(s) {
        Seq::empty()
    } else {
        terms_from(s, 0)
    }
}

/// Every regex term read from position `i` on is optional.
proof fn lemma_regex_terms_optional(s: Seq<char>, i: nat)
    ensures
        forall|k: int|
            0 <= k < terms_from(s, i).len() && (#[trigger] terms_from(s, i)[k]).is_regex
                ==> terms_from(s, i)[k].modifier == Modifier::Optional,
    decreases s.len() - i,
{
    if i <= s.len() {
        let (t, j) = next_token_spec(s, i);
        lemma_next_token_progress(s, i);
        lemma_next_token_progress(s, j);
        let k2 = next_token_spec(s, j).1;
        let all = terms_from(s, i);
        match t {
            TokenModel::Eof => {},
            TokenModel::Word(_) => {
                lemma_regex_terms_optional(s, j);
                assert forall|k: int| 0 <= k < all.len() && (#[trigger] all[k]).is_regex implies all[k].modifier
                    == Modifier::Optional by {
                    assert(all[k] == terms_from(s, j)[k - 1]);
                }
            },
            TokenModel::QuotedString(_) => {
                lemma_regex_terms_optional(s, j);
                assert forall|k: int| 0 <= k < all.len() && (#[trigger] all[k]).is_regex implies all[k].modifier
                    == Modifier::Optional by {
                    assert(all[k] == terms_from(s, j)[k - 1]);
                }
            },
            _ => {
                lemma_regex_terms_optional(s, k2);
                let head = match t {
                    TokenModel::Plus => content_term(next_token_spec(s, j).0, Modifier::Required),
                    TokenModel::Minus => content_term(next_token_spec(s, j).0, Modifier::Excluded),
                    _ => regex_term(next_token_spec(s, j).0),
                };
                assert(all == head + terms_from(s, k2));
                assert forall|k: int| 0 <= k < all.len() && (#[trigger] all[k]).is_regex implies all[k].modifier
                    == Modifier::Optional by {
                    if k >= head.len() {
                        assert(all[k] == terms_from(s, k2)[k - head.len()]);
                    }
                }
            },
        }
    }
}

/// Law: every regex term of a query is optional; a `+` or `-` before
/// `regex:` is dropped and what follows is read as an ordinary term.
pub proof fn law_regex_terms_are_optional(s: Seq<char>, k: int)
    requires
        0 <= k < query_terms(s).len(),
        query_terms(s)[k].is_regex,
    ensures
        query_terms(s)[k].modifier == Modifier::Optional,
{
    lemma_regex_terms_optional(s, 0);
}

/// Every literal term read from position `i` on has as pattern the escaped
/// form of some text.
proof fn lemma_literal_terms_escaped(s: Seq<char>, i: nat)
    ensures
        forall|k: int|
            0 <= k < terms_from(s, i).len() && !(#[trigger] terms_from(s, i)[k]).is_regex
                ==> exists|raw: Seq<char>| terms_from(s, i)[k].pattern == regex_escape(raw),
    decreases s.len() - i,
{
    if i <= s.len() {
        let (t, j) = next_token_spec(s, i);
        lemma_next_token_progress(s, i);
        lemma_next_token_progress(s, j);
        let k2 = next_token_spec(s, j).1;
        let all = terms_from(s, i);
        match t {
            TokenModel::Eof => {},
            TokenModel::Word(w) => {
                lemma_literal_terms_escaped(s, j);
                assert forall|k: int| 0 <= k < all.len() && !(#[trigger] all[k]).is_regex implies exists|
                    raw: Seq<char>,
                | all[k].pattern == regex_escape(raw) by {
                    if k == 0 {
                        assert(all[k].pattern == regex_escape(w));
                    } else {
                        assert(all[k] == terms_from(s, j)[k - 1]);
                    }
                }
            },
            TokenModel::QuotedString(q) => {
                lemma_literal_terms_escaped(s, j);
                assert forall|k: int| 0 <= k < all.len() && !(#[trigger] all[k]).is_regex implies exists|
                    raw: Seq<char>,
                | all[k].pattern == regex_escape(raw) by {
                    if k == 0 {
                        assert(all[k].pattern == regex_escape(q));
                    } else {
                        assert(all[k] == terms_from(s, j)[k - 1]);
                    }
                }
            },
            _ => {
                lemma_literal_terms_escaped(s, k2);
                let c = next_token_spec(s, j).0;
                let head = match t {
                    TokenModel::Plus => content_term(c, Modifier::Required),
                    TokenModel::Minus => content_term(c, Modifier::Excluded),
                    _ => regex_term(c),
                };
                assert(all == head + terms_from(s, k2));
                assert forall|k: int| 0 <= k < all.len() && !(#[trigger] all[k]).is_regex implies exists|
                    raw: Seq<char>,
                | all[k].pattern == regex_escape(raw) by {
                    if k >= head.len() {
                        assert(all[k] == terms_from(s, k2)[k - head.len()]);
                    } else {
                        match c {
                            TokenModel::Word(w) => {
                                assert(all[k].pattern == regex_escape(w));
                            },
                            TokenModel::QuotedString(q) => {
                                assert(all[k].pattern == regex_escape(q));
                            },
                            _ => {},
                        }
                    }
                }
            },
        }
    }
}

/// Law: the pattern of every non-regex term of a query is the regex-escaped
/// form of the text that was typed, so it matches that text literally.
pub proof fn law_literal_terms_are_escaped(s: Seq<char>, k: int)
    requires
        0 <= k < query_terms(s).len(),
        !query_terms(s)[k].is_regex,
    ensures
        exists|raw: Seq<char>| query_terms(s)[k].pattern == regex_escape(raw),
{
    lemma_literal_terms_escaped(s, 0);
}

/// Law: a query of Unicode whitespace only has no terms.
pub proof fn law_blank_query_has_no_terms(s: Seq<char>)
    requires
        all_unicode_ws(s),
    ensures
        query_terms(s).len() == 0,
{
}

/// The terms read from `s` are the same when `s` follows other text.
proof fn lemma_shift_terms_from(p: Seq<char>, s: Seq<char>, i: nat)
    ensures
        terms_from(p + s, p.len() + i) == terms_from(s, i),
    decreases s.len() - i,
{
    if i <= s.len() {
        let (t, j) = next_token_spec(s, i);
        lemma_next_token_progress(s, i);
        lemma_next_token_progress(s, j);
        lemma_shift_next_token(p, s, i);
        lemma_shift_next_token(p, s, j);
        let k = next_token_spec(s, j).1;
        match t {
            TokenModel::Eof => {},
            TokenModel::Word(_) => {
                lemma_shift_terms_from(p, s, j);
            },
            TokenModel::QuotedString(_) => {
                lemma_shift_terms_from(p, s, j);
            },
            _ => {
                lemma_shift_terms_from(p, s, k);
            },
        }
    }
}

/// Law: whitespace between a `+` or `-` and its term changes nothing:
/// `m w s` and `m s` give the same terms for any whitespace run `w`.
pub proof fn law_space_after_modifier_is_ignored(m: char, w: Seq<char>, s: Seq<char>)
    requires
        m == '+' || m == '-',
        forall|k: int| 0 <= k < w.len() ==> is_ascii_ws(#[trigger] w[k]),
    ensures
        query_terms(seq![m] + w + s) == query_terms(seq![m] + s),
{
    let x = seq![m] + w + s;
    let y = seq![m] + s;
    let px = seq![m] + w;
    let py = seq![m];
    assert(x == px + s);
    assert(x[0] == m && y[0] == m);
    assert(!all_unicode_ws(x) && !all_unicode_ws(y));
    // The sign itself.
    assert(skip_ws(x, 0) == 0);
    assert(skip_ws(y, 0) == 0);
    lemma_next_token_progress(x, 0);
    lemma_next_token_progress(y, 0);
    // The token after the sign: the whitespace run is skipped.
    assert forall|k: int| 1 <= k < 1 + w.len() implies is_ascii_ws(#[trigger] x[k]) by {
        assert(x[k] == w[k - 1]);
    }
    lemma_skip_ws_run(x, 1, 1 + w.len());
    law_leading_whitespace_is_skipped(x, 1);
    law_leading_whitespace_is_skipped(x, (1 + w.len()) as nat);
    lemma_shift_next_token(px, s, 0);
    lemma_shift_next_token(py, s, 0);
    let (c, k) = next_token_spec(s, 0);
    assert(next_token_spec(x, 1) == (c, px.len() + k));
    assert(next_token_spec(y, 1) == (c, py.len() + k));
    lemma_next_token_progress(x, 1);
    lemma_next_token_progress(y, 1);
    lemma_shift_terms_from(px, s, k);
    lemma_shift_terms_from(py, s, k);
}

/// Law: escaping works char by char: the escape of a concatenation is the
/// concatenation of the escapes.
pub proof fn law_regex_escape_concat(a: Seq<char>, b: Seq<char>)
    ensures
        regex_escape(a + b) == regex_escape(a) + regex_escape(b),
    decreases a.len(),
{
    if a.len() == 0 {
        assert(a + b =~= b);
        assert(regex_escape(a) + regex_escape(b) =~= regex_escape(b));
    } else {
        law_regex_escape_concat(a.drop_first(), b);
        assert((a + b).drop_first() =~= a.drop_first() + b);
        assert((a + b)[0] == a[0]);
        let h = if is_regex_meta(a[0]) {
            seq!['\\', a[0]]
        } else {
            seq![a[0]]
        };
        assert(regex_escape(a + b) =~= h + (regex_escape(a.drop_first()) + regex_escape(b)));
        assert(regex_escape(a) =~= h + regex_escape(a.drop_first()));
    }
}

/// Law: one char is escaped as a backslash and itself exactly when it is one
/// of `\ . + * ? ( ) | [ ] { } ^ $ # & - ~`, and is kept as is otherwise.
pub proof fn law_regex_escape_char(c: char)
    ensures
        regex_escape(seq![c]) == if c == '\\' || c == '.' || c == '+' || c == '*' || c == '?' || c
            == '(' || c == ')' || c == '|' || c == '[' || c == ']' || c == '{' || c == '}' || c
            == '^' || c == '$' || c == '#' || c == '&' || c == '-' || c == '~' {
            seq!['\\', c]
        } else {
            seq![c]
        },
{
    assert(seq![c].drop_first() =~= Seq::<char>::empty());
    assert(seq![c][0] == c);
    assert(regex_escape(Seq::<char>::empty()) =~= Seq::<char>::empty());
    assert(regex_escape(seq![c]) =~= (if is_regex_meta(c) {
        seq!['\\', c]
    } else {
        seq![c]
    }) + Seq::<char>::empty());
}

/// Nothing is read from the end of the text on.
proof fn lemma_terms_from_end(s: Seq<char>)
    ensures
        terms_from(s, s.len()) == Seq::<TermModel>::empty(),
{
    assert(skip_ws(s, s.len()) == s.len());
}

/// Law: a `+` or `-` directly followed by a plain word gives exactly one
/// term: required for `+`, excluded for `-`, whose pattern is the escaped
/// word, not a regex.
pub proof fn law_modifier_then_word(m: char, w: Seq<char>)
    requires
        m == '+' || m == '-',
        is_plain_word(w),
    ensures
        query_terms(seq![m] + w) == seq![
            TermModel {
                modifier: if m == '+' {
                    Modifier::Required
                } else {
                    Modifier::Excluded
                },
                pattern: regex_escape(w),
                is_regex: false,
            },
        ],
{
    let x = seq![m] + w;
    assert(x[0] == m);
    assert(!all_unicode_ws(x));
    assert(skip_ws(x, 0) == 0);
    law_word_is_typed_text(w);
    lemma_shift_next_token(seq![m], w, 0);
    lemma_next_token_progress(x, 0);
    lemma_next_token_progress(x, 1);
    lemma_terms_from_end(x);
    assert(terms_from(x, 0) =~= seq![
        TermModel {
            modifier: if m == '+' {
                Modifier::Required
            } else {
                Modifier::Excluded
            },
            pattern: regex_escape(w),
            is_regex: false,
        },
    ]);
}

/// Law: a `+` or `-` directly followed by a quoted string whose body holds
/// no quote and no backslash gives exactly one term: required for `+`,
/// excluded for `-`, whose pattern is the escaped body, not a regex.
pub proof fn law_modifier_then_quoted(m: char, q: Seq<char>)
    requires
        m == '+' || m == '-',
        forall|k: int| 0 <= k < q.len() ==> (#[trigger] q[k]) != '"' && q[k] != '\\',
    ensures
        query_terms(seq![m] + (seq!['"'] + q + seq!['"'])) == seq![
            TermModel {
                modifier: if m == '+' {
                    Modifier::Required
                } else {
                    Modifier::Excluded
                },
                pattern: regex_escape(q),
                is_regex: false,
            },
        ],
{
    let body = seq!['"'] + q + seq!['"'];
    let x = seq![m] + body;
    assert(x[0] == m);
    assert(!all_unicode_ws(x));
    assert(skip_ws(x, 0) == 0);
    law_quoted_string_is_typed_text(q);
    lemma_shift_next_token(seq![m], body, 0);
    lemma_next_token_progress(x, 0);
    lemma_next_token_progress(x, 1);
    lemma_terms_from_end(x);
    assert(terms_from(x, 0) =~= seq![
        TermModel {
            modifier: if m == '+' {
                Modifier::Required
            } else {
                Modifier::Excluded
            },
            pattern: regex_escape(q),
            is_regex: false,
        },
    ]);
}

/// Law: a plain word alone, unless it is all Unicode whitespace (which the
/// query trims away), is one optional term whose pattern is the escaped word.
pub proof fn law_bare_word(w: Seq<char>)
    requires
        is_plain_word(w),
        !all_unicode_ws(w),
    ensures
        query_terms(w) == seq![
            TermModel { modifier: Modifier::Optional, pattern: regex_escape(w), is_regex: false },
        ],
{
    law_word_is_typed_text(w);
    lemma_terms_from_end(w);
    assert(terms_from(w, 0) =~= seq![
        TermModel { modifier: Modifier::Optional, pattern: regex_escape(w), is_regex: false },
    ]);
}

/// Most terms a query may hold.
const LIMIT: usize = 64;

/// Parses a search query.
///
/// Whitespace-only input gives no terms. Otherwise `+` and `-` make the
/// following word or quoted string a required or an excluded term, `regex:`
/// makes the following word or quoted string an optional regex term, and a
/// bare word or quoted string is an optional term. Non-regex patterns are
/// regex-escaped. A query with more than 64 terms is refused with the true
/// term count.
pub fn parse(input: &str) -> (r: Result<Vec<ParsedTerm>>)
    ensures
        r matches Ok(terms) ==> query_terms(input@).len() <= 64 && terms_model(terms@)
            == query_terms(input@),
        r matches Err(e) ==> query_terms(input@).len() > 64 && e == (MonoklError::TooManyTerms {
            count: query_terms(input@).len() as usize,
            limit: 64,
        }),
{
    if is_blank(input) {
        proof {
            assert(terms_model(Seq::<ParsedTerm>::empty()) =~= Seq::<TermModel>::empty());
        }
        return Ok(Vec::new());
    }
    let mut lexer = Lexer::new(input);
    let mut terms: Vec<ParsedTerm> = Vec::new();
    proof {
        assert(terms_model(terms@) + terms_from(input@, 0) =~= terms_from(input@, 0));
    }
    loop
        invariant_except_break
            query_terms(input@) == terms_model(terms@) + terms_from(input@, lexer.cursor()),
        invariant
            lexer.wf(),
            lexer.text() == input@,
            !all_unicode_ws(input@),
        ensures
            query_terms(input@) == terms_model(terms@),
        decreases input@.len() - lexer.cursor(),
    {
        let ghost c0 = lexer.cursor();
        let ghost before = terms@;
        let tok = lexer.next_token();
        proof {
            lemma_next_token_progress(input@, c0);
        }
        let ghost j = lexer.cursor();
        match tok {
            Token::Eof => {
                assert(terms_model(terms@) + terms_from(input@, c0) =~= terms_model(terms@));
                break;
            },
            Token::Plus => {
                let content = lexer.next_token();
                proof {
                    lemma_next_token_progress(input@, j);
                }
                if let Some(term) = content_to_term(content, Modifier::Required) {
                    terms.push(term);
                }
            },
            Token::Minus => {
                let content = lexer.next_token();
                proof {
                    lemma_next_token_progress(input@, j);
                }
                if let Some(term) = content_to_term(content, Modifier::Excluded) {
                    terms.push(term);
                }
            },
            Token::RegexPrefix => {
                let pattern_tok = lexer.next_token();
                proof {
                    lemma_next_token_progress(input@, j);
                }
                match pattern_tok {
                    Token::Word(raw) => {
                        terms.push(ParsedTerm { modifier: Modifier::Optional, pattern: raw, is_regex: true });
                    },
                    Token::QuotedString(raw) => {
                        terms.push(ParsedTerm { modifier: Modifier::Optional, pattern: raw, is_regex: true });
                    },
                    _ => {},
                }
            },
            Token::Word(w) => {
                terms.push(
                    ParsedTerm {
                        modifier: Modifier::Optional,
                        pattern: escape(w.as_str()),
                        is_regex: false,
                    },
                );
            },
            Token::QuotedString(s) => {
                terms.push(
                    ParsedTerm {
                        modifier: Modifier::Optional,
                        pattern: escape(s.as_str()),
                        is_regex: false,
                    },
                );
            },
        }
        proof {
            let added = terms@.subrange(before.len() as int, terms@.len() as int);
            assert(terms@ =~= before + added);
            assert(terms_model(terms@) =~= terms_model(before) + terms_model(added));
            assert(terms_from(input@, c0) =~= terms_model(added) + terms_from(input@, lexer.cursor()));
        }
    }
    if terms.len() > LIMIT {
        return Err(MonoklError::TooManyTerms { count: terms.len(), limit: LIMIT });
    }
    Ok(terms)
}

/// The literal term that a word or quoted string after `+` or `-` gives.
fn content_to_term(tok: Token, modifier: Modifier) -> (r: Option<ParsedTerm>)
    ensures
        r matches Some(t) ==> content_term(tok@, modifier) == seq![t@],
        r is None ==> content_term(tok@, modifier) == Seq::<TermModel>::empty(),
{
    match tok {
        Token::Word(w) => Some(
            ParsedTerm { modifier, pattern: escape(w.as_str()), is_regex: false },
        ),
        Token::QuotedString(s) => Some(
            ParsedTerm { modifier, pattern: escape(s.as_str()), is_regex: false },
        ),
        Token::RegexPrefix => None,
        _ => None,
    }
}

} // verus!
