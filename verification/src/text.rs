//! Character-level helpers shared by the query lexer and the output layer:
//! UTF-8 byte offsets of char prefixes, character classes, and string
//! building with a known content.
use vstd::prelude::*;
use vstd::string::StrSliceExecFns;
use vstd::utf8::*;

verus! {

broadcast use vstd::slice::group_slice_axioms;

/// Number of bytes in the UTF-8 encoding of `s`.
pub open spec fn utf8_len(s: Seq<char>) -> nat {
    encode_utf8(s).len()
}

/// Number of bytes in the UTF-8 encoding of the single char `c`.
pub open spec fn char_utf8_len(c: char) -> nat {
    encode_scalar(c as u32).len()
}

/// Encoding distributes over concatenation.
pub proof fn lemma_encode_concat(a: Seq<char>, b: Seq<char>)
    ensures
        encode_utf8(a + b) == encode_utf8(a) + encode_utf8(b),
    decreases a.len(),
{
    if a.len() == 0 {
        assert(a + b =~= b);
        assert(encode_utf8(a) + encode_utf8(b) =~= encode_utf8(b));
    } else {
        lemma_encode_concat(a.drop_first(), b);
        assert((a + b).drop_first() =~= a.drop_first() + b);
        assert((a + b)[0] == a[0]);
        assert(encode_utf8(a + b) =~= encode_utf8(a) + encode_utf8(b));
    }
}

/// The byte length of a prefix grows by the width of the next char.
pub proof fn lemma_utf8_len_push(s: Seq<char>, k: int)
    requires
        0 <= k < s.len(),
    ensures
        utf8_len(s.take(k + 1)) == utf8_len(s.take(k)) + char_utf8_len(s[k]),
        utf8_len(s.take(k + 1)) <= utf8_len(s),
{
    lemma_encode_concat(s.take(k), seq![s[k]]);
    assert(s.take(k + 1) =~= s.take(k) + seq![s[k]]);
    assert(seq![s[k]].drop_first() =~= Seq::<char>::empty());
    assert(encode_utf8(seq![s[k]]) =~= encode_scalar(s[k] as u32) + encode_utf8(
        Seq::<char>::empty(),
    ));
    lemma_encode_concat(s.take(k + 1), s.skip(k + 1));
    assert(s =~= s.take(k + 1) + s.skip(k + 1));
}

/// The byte offset of a char prefix is a char boundary of the whole encoding.
proof fn lemma_prefix_is_boundary(a: Seq<char>, b: Seq<char>)
    ensures
        is_char_boundary(encode_utf8(a + b), encode_utf8(a).len() as int),
    decreases a.len(),
{
    broadcast use encode_utf8_valid_utf8;

    if a.len() != 0 {
        let ab = a + b;
        let bytes = encode_utf8(ab);
        encode_utf8_first_scalar(ab);
        assert(ab.drop_first() =~= a.drop_first() + b);
        lemma_encode_concat(a.drop_first(), b);
        lemma_encode_concat(a, b);
        assert(pop_first_scalar(bytes) =~= encode_utf8(a.drop_first() + b));
        lemma_prefix_is_boundary(a.drop_first(), b);
    }
}

/// The part of `s` that starts at byte offset `pos`, where `pos` is the
/// byte length of the first `k` chars.
pub fn suffix_at(s: &str, pos: usize, Ghost(k): Ghost<int>) -> (rest: &str)
    requires
        0 <= k <= s@.len(),
        pos == utf8_len(s@.take(k)),
    ensures
        rest@ == s@.skip(k),
{
    proof {
        broadcast use encode_utf8_decode_utf8;

        assert(s@ =~= s@.take(k) + s@.skip(k));
        lemma_encode_concat(s@.take(k), s@.skip(k));
        lemma_prefix_is_boundary(s@.take(k), s@.skip(k));
    }
    let (_, rest) = s.split_at(pos);
    proof {
        assert(encode_utf8(rest@) =~= encode_utf8(s@.skip(k)));
        assert(decode_utf8(encode_utf8(rest@)) == decode_utf8(encode_utf8(s@.skip(k))));
    }
    rest
}

/// The first char of `s`, if any.
pub fn first_char(s: &str) -> (c: Option<char>)
    ensures
        s@.len() == 0 ==> c is None,
        s@.len() > 0 ==> c == Some(s@[0]),
{
    if s.is_empty() {
        None
    } else {
        Some(s.get_char(0))
    }
}

/// The byte length of `s`, as a bound on every byte offset into it.
pub fn byte_len(s: &str) -> (n: usize)
    ensures
        n == utf8_len(s@),
{
    let bytes = s.as_bytes();
    bytes.len()
}

/// Width of `c` in UTF-8, as `char::len_utf8` documents it.
pub fn char_len_utf8(c: char) -> (n: usize)
    ensures
        n == char_utf8_len(c),
{
    let v = c as u32;
    proof {
        broadcast use char_is_scalar;
    }
    if v < 0x80 {
        1
    } else if v < 0x800 {
        2
    } else if v < 0x10000 {
        3
    } else {
        4
    }
}

/// A run of `n` ASCII chars starting at char `i` occupies exactly `n` bytes.
pub proof fn lemma_ascii_run(s: Seq<char>, i: int, n: int)
    requires
        0 <= i,
        0 <= n,
        i + n <= s.len(),
        forall|k: int| i <= k < i + n ==> (#[trigger] s[k] as u32) < 0x80,
    ensures
        utf8_len(s.take(i + n)) == utf8_len(s.take(i)) + n,
        utf8_len(s.take(i + n)) <= utf8_len(s),
    decreases n,
{
    if n == 0 {
        lemma_encode_concat(s.take(i), s.skip(i));
        assert(s =~= s.take(i) + s.skip(i));
    } else {
        lemma_ascii_run(s, i, n - 1);
        lemma_utf8_len_push(s, i + n - 1);
        assert((s[i + n - 1] as u32) < 0x80);
    }
}

/// `char::is_ascii_whitespace`: space, tab, line feed, form feed, carriage return.
pub open spec fn is_ascii_ws(c: char) -> bool {
    c == ' ' || c == '\t' || c == '\n' || c == '\r' || (c as u32) == 0x0C
}

/// Whether `c` is one of the five ASCII whitespace chars.
pub fn is_ascii_whitespace(c: char) -> (b: bool)
    ensures
        b == is_ascii_ws(c),
{
    c == ' ' || c == '\t' || c == '\n' || c == '\r' || (c as u32) == 0x0C
}

/// `char::is_whitespace`: the chars with the Unicode `White_Space` property.
pub open spec fn is_unicode_ws(c: char) -> bool {
    let v = c as u32;
    (0x09 <= v <= 0x0D) || v == 0x20 || v == 0x85 || v == 0xA0 || v == 0x1680 || (0x2000 <= v
        <= 0x200A) || v == 0x2028 || v == 0x2029 || v == 0x202F || v == 0x205F || v == 0x3000
}

/// Whether `c` has the Unicode `White_Space` property.
pub fn is_unicode_whitespace(c: char) -> (b: bool)
    ensures
        b == is_unicode_ws(c),
{
    let v = c as u32;
    (0x09 <= v && v <= 0x0D) || v == 0x20 || v == 0x85 || v == 0xA0 || v == 0x1680 || (0x2000
        <= v && v <= 0x200A) || v == 0x2028 || v == 0x2029 || v == 0x202F || v == 0x205F || v
        == 0x3000
}

/// Every char of `s` is Unicode whitespace (so `s.trim()` is empty).
pub open spec fn all_unicode_ws(s: Seq<char>) -> bool {
    forall|k: int| 0 <= k < s.len() ==> is_unicode_ws(#[trigger] s[k])
}

/// Whether `s` consists of Unicode whitespace only, i.e. `s.trim().is_empty()`.
pub fn is_blank(s: &str) -> (b: bool)
    ensures
        b == all_unicode_ws(s@),
{
    let total = byte_len(s);
    let mut pos: usize = 0;
    let ghost mut k: int = 0;
    loop
        invariant
            0 <= k <= s@.len(),
            pos == utf8_len(s@.take(k)),
            total == utf8_len(s@),
            forall|j: int| 0 <= j < k ==> is_unicode_ws(#[trigger] s@[j]),
        decreases s@.len() - k,
    {
        let rest = suffix_at(s, pos, Ghost(k));
        match first_char(rest) {
            None => {
                return true;
            },
            Some(c) => {
                assert(s@[k] == rest@[0]);
                if !is_unicode_whitespace(c) {
                    return false;
                }
                proof {
                    lemma_utf8_len_push(s@, k);
                }
                pos = pos + char_len_utf8(c);
                proof {
                    k = k + 1;
                }
            },
        }
    }
}

/// Calls `String::push`; the contract claims that `c` is appended.
#[verifier::external_body]
pub fn push_char(s: &mut String, c: char)
    ensures
        final(s)@ == old(s)@.push(c),
{
    s.push(c)
}

/// Whether the chars of `prefix` begin `s`.
pub fn str_starts_with(s: &str, prefix: &str) -> (b: bool)
    ensures
        b == (prefix@.len() <= s@.len() && s@.subrange(0, prefix@.len() as int) == prefix@),
{
    // The byte lengths bound every byte offset into either text.
    let _s_total = byte_len(s);
    let _p_total = byte_len(prefix);
    let mut sp: usize = 0;
    let mut pp: usize = 0;
    let ghost mut k: int = 0;
    proof {
        assert(s@.take(0) =~= Seq::<char>::empty());
        assert(prefix@.take(0) =~= Seq::<char>::empty());
    }
    loop
        invariant
            0 <= k <= prefix@.len(),
            k <= s@.len(),
            sp == utf8_len(s@.take(k)),
            pp == utf8_len(prefix@.take(k)),
            utf8_len(s@) <= usize::MAX,
            utf8_len(prefix@) <= usize::MAX,
            forall|j: int| 0 <= j < k ==> s@[j] == prefix@[j],
        decreases prefix@.len() - k,
    {
        let pr = suffix_at(prefix, pp, Ghost(k));
        match first_char(pr) {
            None => {
                assert(s@.subrange(0, prefix@.len() as int) =~= prefix@);
                return true;
            },
            Some(pc) => {
                assert(prefix@[k] == pr@[0]);
                let sr = suffix_at(s, sp, Ghost(k));
                match first_char(sr) {
                    None => {
                        return false;
                    },
                    Some(sc) => {
                        assert(s@[k] == sr@[0]);
                        if sc != pc {
                            proof {
                                if prefix@.len() <= s@.len() {
                                    assert(s@.subrange(0, prefix@.len() as int)[k] == s@[k]);
                                }
                            }
                            return false;
                        }
                        proof {
                            lemma_utf8_len_push(s@, k);
                            lemma_utf8_len_push(prefix@, k);
                        }
                        sp = sp + char_len_utf8(sc);
                        pp = pp + char_len_utf8(pc);
                        proof {
                            k = k + 1;
                        }
                    },
                }
            },
        }
    }
}

} // verus!
