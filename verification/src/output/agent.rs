//! Text helpers of the agent-facing tabular output: the names of symbol
//! kinds and visibilities, and the escaping of cell text.
use crate::text::{first_char, char_len_utf8, byte_len, lemma_utf8_len_push, push_char, suffix_at, utf8_len};
use crate::types::{SymbolKind, Visibility};
use vstd::prelude::*;

verus! {

/// The name of the (sub)command being run, for naming the tool to retry.
pub struct ErrorContext<'a> {
    pub command: &'a str,
}

/// The camelCase name of a symbol kind.
pub open spec fn symbol_kind_name(k: SymbolKind) -> Seq<char> {
    match k {
        SymbolKind::Function => "function"@,
        SymbolKind::Method => "method"@,
        SymbolKind::Constructor => "constructor"@,
        SymbolKind::Class => "class"@,
        SymbolKind::Struct => "struct"@,
        SymbolKind::Enum => "enum"@,
        SymbolKind::Interface => "interface"@,
        SymbolKind::TypeAlias => "typeAlias"@,
        SymbolKind::Property => "property"@,
        SymbolKind::Field => "field"@,
        SymbolKind::Variable => "variable"@,
        SymbolKind::Module => "module"@,
        SymbolKind::Impl => "impl"@,
        SymbolKind::Macro => "macro"@,
        SymbolKind::Other => "other"@,
    }
}

/// The camelCase name of a visibility.
pub open spec fn visibility_name(v: Visibility) -> Seq<char> {
    match v {
        Visibility::Public => "public"@,
        Visibility::Crate => "crate"@,
        Visibility::Module => "module"@,
        Visibility::Private => "private"@,
    }
}

/// The camelCase name of `k`, as the serialized form spells it.
pub fn symbol_kind_str(k: SymbolKind) -> (s: &'static str)
    ensures
        s@ == symbol_kind_name(k),
{
    match k {
        SymbolKind::Function => "function",
        SymbolKind::Method => "method",
        SymbolKind::Constructor => "constructor",
        SymbolKind::Class => "class",
        SymbolKind::Struct => "struct",
        SymbolKind::Enum => "enum",
        SymbolKind::Interface => "interface",
        SymbolKind::TypeAlias => "typeAlias",
        SymbolKind::Property => "property",
        SymbolKind::Field => "field",
        SymbolKind::Variable => "variable",
        SymbolKind::Module => "module",
        SymbolKind::Impl => "impl",
        SymbolKind::Macro => "macro",
        SymbolKind::Other => "other",
    }
}

/// The camelCase name of `v`, as the serialized form spells it.
pub fn visibility_str(v: Visibility) -> (s: &'static str)
    ensures
        s@ == visibility_name(v),
{
    match v {
        Visibility::Public => "public",
        Visibility::Crate => "crate",
        Visibility::Module => "module",
        Visibility::Private => "private",
    }
}

/// Cell text for one char: a carriage return is dropped and a line feed
/// becomes the two chars `\n`.
pub open spec fn cell_char_text(c: char) -> Seq<char> {
    if c == '\r' {
        Seq::empty()
    } else if c == '\n' {
        seq!['\\', 'n']
    } else {
        seq![c]
    }
}

/// The text of a table cell holding `s`: every line break made visible, so
/// a cell never spans lines.
pub open spec fn cell_escape(s: Seq<char>) -> Seq<char>
    decreases s.len(),
{
    if s.len() == 0 {
        Seq::empty()
    } else {
        cell_escape(s.drop_last()) + cell_char_text(s.last())
    }
}

/// The text of a table cell holding `s`, with line feeds written as `\n`
/// and carriage returns dropped.
pub fn cell_text(s: &str) -> (out: String)
    ensures
        out@ == cell_escape(s@),
{
    // The byte length of `s` bounds every byte offset into it.
    let _total = byte_len(s);
    let mut out = String::new();
    let mut pos: usize = 0;
    let ghost mut k: int = 0;
    proof {
        assert(s@.take(0) =~= Seq::<char>::empty());
    }
    loop
        invariant
            0 <= k <= s@.len(),
            pos == utf8_len(s@.take(k)),
            utf8_len(s@) <= usize::MAX,
            out@ == cell_escape(s@.take(k)),
        decreases s@.len() - k,
    {
        let rest = suffix_at(s, pos, Ghost(k));
        match first_char(rest) {
            None => {
                assert(s@.take(k) =~= s@);
                return out;
            },
            Some(c) => {
                assert(s@[k] == rest@[0]);
                if c == '\n' {
                    push_char(&mut out, '\\');
                    push_char(&mut out, 'n');
                } else if c != '\r' {
                    push_char(&mut out, c);
                }
                proof {
                    lemma_utf8_len_push(s@, k);
                    assert(s@.take(k + 1).drop_last() =~= s@.take(k));
                    assert(out@ =~= cell_escape(s@.take(k + 1)));
                }
                pos = pos + char_len_utf8(c);
                proof {
                    k = k + 1;
                }
            },
        }
    }
}

/// The text of a cell that may be empty: no text stays none, present text
/// (even empty text) becomes its cell text.
pub fn opt_cell_text(s: Option<&str>) -> (out: Option<String>)
    ensures
        s is None ==> out is None,
        s matches Some(t) ==> out matches Some(o) && o@ == cell_escape(t@),
{
    match s {
        None => None,
        Some(t) => Some(cell_text(t)),
    }
}

/// Law: escaping works char by char: the cell text of a concatenation is the
/// concatenation of the cell texts, so no line break is merged with another.
pub proof fn law_cell_escape_concat(a: Seq<char>, b: Seq<char>)
    ensures
        cell_escape(a + b) == cell_escape(a) + cell_escape(b),
    decreases b.len(),
{
    if b.len() == 0 {
        assert(a + b =~= a);
        assert(cell_escape(a) + cell_escape(b) =~= cell_escape(a));
    } else {
        law_cell_escape_concat(a, b.drop_last());
        assert((a + b).drop_last() =~= a + b.drop_last());
        assert((a + b).last() == b.last());
        assert(cell_escape(a + b) =~= cell_escape(a) + (cell_escape(b.drop_last())
            + cell_char_text(b.last())));
    }
}

/// Law: one char's cell text: a carriage return gives nothing, a line feed
/// gives a backslash and `n`, any other char gives itself.
pub proof fn law_cell_escape_char(c: char)
    ensures
        cell_escape(seq![c]) == if c == '\r' {
            Seq::<char>::empty()
        } else if c == '\n' {
            seq!['\\', 'n']
        } else {
            seq![c]
        },
{
    assert(seq![c].drop_last() =~= Seq::<char>::empty());
    assert(seq![c].last() == c);
    assert(cell_escape(Seq::<char>::empty()) =~= Seq::<char>::empty());
    assert(cell_escape(seq![c]) =~= Seq::<char>::empty() + cell_char_text(c));
}

/// Law: cell text never holds a line feed or a carriage return.
pub proof fn law_cell_text_is_single_line(s: Seq<char>)
    ensures
        !cell_escape(s).contains('\n'),
        !cell_escape(s).contains('\r'),
    decreases s.len(),
{
    if s.len() > 0 {
        law_cell_text_is_single_line(s.drop_last());
        let a = cell_escape(s.drop_last());
        let b = cell_char_text(s.last());
        assert(cell_escape(s) == a + b);
        assert forall|i: int| 0 <= i < (a + b).len() implies (a + b)[i] != '\n' && (a + b)[i]
            != '\r' by {
            if i < a.len() {
                assert((a + b)[i] == a[i]);
            } else {
                assert((a + b)[i] == b[i - a.len()]);
            }
        }
    }
}

/// Law: text without line breaks is its own cell text.
pub proof fn law_cell_text_keeps_plain_text(s: Seq<char>)
    requires
        !s.contains('\n'),
        !s.contains('\r'),
    ensures
        cell_escape(s) == s,
    decreases s.len(),
{
    if s.len() > 0 {
        assert(!s.drop_last().contains('\n')) by {
            if s.drop_last().contains('\n') {
                let i = choose|i: int| 0 <= i < s.drop_last().len() && s.drop_last()[i] == '\n';
                assert(s[i] == '\n');
            }
        }
        assert(!s.drop_last().contains('\r')) by {
            if s.drop_last().contains('\r') {
                let i = choose|i: int| 0 <= i < s.drop_last().len() && s.drop_last()[i] == '\r';
                assert(s[i] == '\r');
            }
        }
        law_cell_text_keeps_plain_text(s.drop_last());
        assert(s.last() != '\n' && s.last() != '\r') by {
            assert(s[s.len() - 1] == s.last());
        }
        assert(s =~= s.drop_last() + seq![s.last()]);
    }
}

} // verus!
