use monokl::error::MonoklError;
use monokl::query::parser::{Modifier, ParsedTerm, parse};

fn assert_modifier_derives<T: std::fmt::Debug + Clone + PartialEq + Eq>() {}
fn assert_parsed_term_derives<T: std::fmt::Debug + Clone>() {}

struct PartialEqProbe<T>(std::marker::PhantomData<T>);
trait NotPartialEq {
    const IS: bool = false;
}
impl<T> NotPartialEq for PartialEqProbe<T> {}
impl<T: PartialEq> PartialEqProbe<T> {
    const IS: bool = true;
}

struct EqProbe<T>(std::marker::PhantomData<T>);
trait NotEq {
    const IS: bool = false;
}
impl<T> NotEq for EqProbe<T> {}
impl<T: Eq> EqProbe<T> {
    const IS: bool = true;
}

#[test]
fn parsed_term_absence_of_partialeq_and_eq_pinned() {
    assert!(!PartialEqProbe::<ParsedTerm>::IS);
    assert!(!EqProbe::<ParsedTerm>::IS);
    assert!(PartialEqProbe::<Modifier>::IS);
    assert!(EqProbe::<Modifier>::IS);
}

struct ModifierCopyProbe<T>(std::marker::PhantomData<T>);
trait NotModifierCopy {
    const IS: bool = false;
}
impl<T> NotModifierCopy for ModifierCopyProbe<T> {}
impl<T: Copy> ModifierCopyProbe<T> {
    const IS: bool = true;
}

struct ModifierHashProbe<T>(std::marker::PhantomData<T>);
trait NotModifierHash {
    const IS: bool = false;
}
impl<T> NotModifierHash for ModifierHashProbe<T> {}
impl<T: std::hash::Hash> ModifierHashProbe<T> {
    const IS: bool = true;
}

struct ModifierPartialOrdProbe<T>(std::marker::PhantomData<T>);
trait NotModifierPartialOrd {
    const IS: bool = false;
}
impl<T> NotModifierPartialOrd for ModifierPartialOrdProbe<T> {}
impl<T: PartialOrd> ModifierPartialOrdProbe<T> {
    const IS: bool = true;
}

struct ModifierOrdProbe<T>(std::marker::PhantomData<T>);
trait NotModifierOrd {
    const IS: bool = false;
}
impl<T> NotModifierOrd for ModifierOrdProbe<T> {}
impl<T: Ord> ModifierOrdProbe<T> {
    const IS: bool = true;
}

#[test]
fn modifier_absence_of_copy_hash_partialord_ord_pinned() {
    assert!(!ModifierCopyProbe::<Modifier>::IS);
    assert!(!ModifierHashProbe::<Modifier>::IS);
    assert!(!ModifierPartialOrdProbe::<Modifier>::IS);
    assert!(!ModifierOrdProbe::<Modifier>::IS);
    assert!(ModifierCopyProbe::<usize>::IS);
    assert!(ModifierHashProbe::<usize>::IS);
    assert!(ModifierPartialOrdProbe::<usize>::IS);
    assert!(ModifierOrdProbe::<usize>::IS);
}

struct TermSerProbe<T>(std::marker::PhantomData<T>);
trait NotTermSer {
    const IS: bool = false;
}
impl<T> NotTermSer for TermSerProbe<T> {}
impl<T: serde::Serialize> TermSerProbe<T> {
    const IS: bool = true;
}

struct TermDeProbe<T>(std::marker::PhantomData<T>);
trait NotTermDe {
    const IS: bool = false;
}
impl<T> NotTermDe for TermDeProbe<T> {}
impl<T: serde::de::DeserializeOwned> TermDeProbe<T> {
    const IS: bool = true;
}

#[test]
fn modifier_and_parsed_term_absence_of_serde_derive_pinned() {
    assert!(!TermSerProbe::<Modifier>::IS);
    assert!(!TermDeProbe::<Modifier>::IS);
    assert!(!TermSerProbe::<ParsedTerm>::IS);
    assert!(!TermDeProbe::<ParsedTerm>::IS);
    assert!(TermSerProbe::<usize>::IS);
    assert!(TermDeProbe::<usize>::IS);
}

#[test]
fn modifier_exhaustive_match_admits_exactly_three_variants() {
    fn describe(m: &Modifier) -> &'static str {
        match m {
            Modifier::Required => "required",
            Modifier::Excluded => "excluded",
            Modifier::Optional => "optional",
        }
    }
    assert_eq!(describe(&Modifier::Required), "required");
    assert_eq!(describe(&Modifier::Excluded), "excluded");
    assert_eq!(describe(&Modifier::Optional), "optional");
}

#[test]
fn modifier_discriminants_pinned_in_declaration_order() {
    assert_eq!(Modifier::Required as isize, 0);
    assert_eq!(Modifier::Excluded as isize, 1);
    assert_eq!(Modifier::Optional as isize, 2);
}

#[test]
fn modifier_and_parsed_term_shapes() {
    assert_modifier_derives::<Modifier>();
    assert_parsed_term_derives::<ParsedTerm>();
    assert_eq!(Modifier::Required, Modifier::Required);
    assert_ne!(Modifier::Required, Modifier::Excluded);
    let t = ParsedTerm { modifier: Modifier::Optional, pattern: "x".to_string(), is_regex: false };
    assert_eq!(t.modifier, Modifier::Optional);
    assert_eq!(t.pattern, "x");
    assert!(!t.is_regex);
}

#[test]
fn empty_and_ascii_whitespace_input_returns_empty_vec() {
    assert!(parse("").unwrap().is_empty());
    assert!(parse("   \t\n  ").unwrap().is_empty());
}

#[test]
fn nbsp_only_input_returns_empty_vec_via_unicode_trim() {
    let terms = parse("\u{00A0}").unwrap();
    assert!(terms.is_empty());
}

#[test]
fn nbsp_prefixed_word_is_not_trimmed_away_and_lexer_keeps_the_nbsp() {
    let terms = parse("\u{00A0}foo").unwrap();
    assert_eq!(terms.len(), 1);
    assert_eq!(terms[0].modifier, Modifier::Optional);
    assert!(!terms[0].is_regex);
    assert_eq!(terms[0].pattern, "\u{00A0}foo");
}

#[test]
fn plus_word_produces_required_escaped_term() {
    let terms = parse("+foo.bar").unwrap();
    assert_eq!(terms.len(), 1);
    assert_eq!(terms[0].modifier, Modifier::Required);
    assert_eq!(terms[0].pattern, "foo\\.bar");
    assert!(!terms[0].is_regex);
}

#[test]
fn minus_quoted_produces_excluded_escaped_term() {
    let terms = parse("-\"a.b\"").unwrap();
    assert_eq!(terms.len(), 1);
    assert_eq!(terms[0].modifier, Modifier::Excluded);
    assert_eq!(terms[0].pattern, regex::escape("a.b"));
    assert!(!terms[0].is_regex);
}

#[test]
fn bare_word_and_quoted_string_produce_optional_escaped_terms() {
    let terms = parse("foo.bar \"a.b\"").unwrap();
    assert_eq!(terms.len(), 2);
    assert_eq!(terms[0].modifier, Modifier::Optional);
    assert_eq!(terms[0].pattern, regex::escape("foo.bar"));
    assert!(!terms[0].is_regex);
    assert_eq!(terms[1].modifier, Modifier::Optional);
    assert_eq!(terms[1].pattern, "a\\.b");
}

#[test]
fn dangling_plus_minus_at_eof_produce_no_term() {
    assert!(parse("+").unwrap().is_empty());
    assert!(parse("-").unwrap().is_empty());
}

#[test]
fn plus_followed_by_plus_swallows_the_second_plus_as_content_then_reprocesses_foo() {
    let terms = parse("+ +foo").unwrap();
    assert_eq!(terms.len(), 1);
    assert_eq!(terms[0].modifier, Modifier::Optional);
    assert!(!terms[0].is_regex);
    assert_eq!(terms[0].pattern, regex::escape("foo"));
}

#[test]
fn plus_and_minus_are_whitespace_insensitive_before_their_term() {
    let with_space = parse("+ foo").unwrap();
    let without_space = parse("+foo").unwrap();
    assert_eq!(with_space.len(), 1);
    assert_eq!(with_space[0].modifier, without_space[0].modifier);
    assert_eq!(with_space[0].pattern, without_space[0].pattern);
    assert_eq!(with_space[0].is_regex, without_space[0].is_regex);

    let with_space_m = parse("- foo").unwrap();
    let without_space_m = parse("-foo").unwrap();
    assert_eq!(with_space_m[0].modifier, without_space_m[0].modifier);
    assert_eq!(with_space_m[0].pattern, without_space_m[0].pattern);
}

#[test]
fn regex_prefix_word_produces_optional_regex_term_raw_pattern() {
    let terms = parse("regex:fo.o").unwrap();
    assert_eq!(terms.len(), 1);
    assert_eq!(terms[0].modifier, Modifier::Optional);
    assert!(terms[0].is_regex);
    assert_eq!(terms[0].pattern, "fo.o");
}

#[test]
fn regex_prefix_quoted_produces_optional_regex_term_raw_pattern() {
    let terms = parse("regex:\"a.b\"").unwrap();
    assert_eq!(terms.len(), 1);
    assert!(terms[0].is_regex);
    assert_eq!(terms[0].pattern, "a.b");
}

#[test]
fn bare_trailing_regex_prefix_produces_zero_terms() {
    assert!(parse("regex:").unwrap().is_empty());
}

#[test]
fn uppercase_regex_prefix_is_not_special_cased_by_the_parser() {
    let terms = parse("REGEX:foo").unwrap();
    assert_eq!(terms.len(), 1);
    assert_eq!(terms[0].modifier, Modifier::Optional);
    assert!(!terms[0].is_regex);
    assert_eq!(terms[0].pattern, regex::escape("REGEX:foo"));
}

#[test]
fn regex_prefix_followed_by_minus_swallows_the_minus_and_reprocesses_foo() {
    let terms = parse("regex: -foo").unwrap();
    assert_eq!(terms.len(), 1);
    assert_eq!(terms[0].modifier, Modifier::Optional);
    assert!(!terms[0].is_regex);
    assert_eq!(terms[0].pattern, "foo");
}

#[test]
fn plus_regex_prefix_degrades_to_optional_escaped_literal_foo() {
    let terms = parse("+regex:foo").unwrap();
    assert_eq!(terms.len(), 1);
    assert_eq!(terms[0].modifier, Modifier::Optional);
    assert!(!terms[0].is_regex);
    assert_eq!(terms[0].pattern, regex::escape("foo"));
}

#[test]
fn minus_regex_prefix_degrades_to_optional_escaped_literal_foo() {
    let terms = parse("-regex:foo").unwrap();
    assert_eq!(terms.len(), 1);
    assert_eq!(terms[0].modifier, Modifier::Optional);
    assert!(!terms[0].is_regex);
    assert_eq!(terms[0].pattern, regex::escape("foo"));
}

#[test]
fn exactly_64_terms_succeeds() {
    let input: Vec<String> = (0..64).map(|i| format!("w{i}")).collect();
    let terms = parse(&input.join(" ")).unwrap();
    assert_eq!(terms.len(), 64);
}

#[test]
fn sixty_five_terms_fails_with_too_many_terms() {
    let input: Vec<String> = (0..65).map(|i| format!("w{i}")).collect();
    let err = parse(&input.join(" ")).unwrap_err();
    match err {
        MonoklError::TooManyTerms { count, limit } => {
            assert_eq!(count, 65);
            assert_eq!(limit, 64);
        }
        other => panic!("expected TooManyTerms, got {other:?}"),
    }
    assert_eq!(err.message(), "query has too many terms: 65 > 64");
}

#[test]
fn limit_check_runs_after_full_loop_with_true_total_count_not_capped() {
    let input: Vec<String> = (0..100).map(|i| format!("w{i}")).collect();
    let err = parse(&input.join(" ")).unwrap_err();
    match err {
        MonoklError::TooManyTerms { count, limit } => {
            assert_eq!(count, 100);
            assert_eq!(limit, 64);
        }
        other => panic!("expected TooManyTerms, got {other:?}"),
    }
    assert_eq!(err.message(), "query has too many terms: 100 > 64");
}

#[test]
fn invalid_regex_syntax_still_parses_successfully_unvalidated() {
    let terms = parse("regex:(unclosed").unwrap();
    assert_eq!(terms.len(), 1);
    assert!(terms[0].is_regex);
    assert_eq!(terms[0].pattern, "(unclosed");
}

// Every regex meta char is escaped, other chars are not.
#[test]
fn literal_terms_escape_every_regex_meta_char() {
    let terms = parse("a\\.+*?()|[]{}^$#&-~%/!e").unwrap();
    assert_eq!(terms.len(), 1);
    assert_eq!(terms[0].pattern, "a\\\\\\.\\+\\*\\?\\(\\)\\|\\[\\]\\{\\}\\^\\$\\#\\&\\-\\~%/!e");
}

#[test]
fn every_regex_term_is_optional_even_after_a_modifier() {
    let terms = parse("+regex:a -regex:\"b\" regex:c +d -e").unwrap();
    assert_eq!(terms.len(), 5);
    for t in &terms {
        if t.is_regex {
            assert_eq!(t.modifier, Modifier::Optional);
        }
    }
    assert_eq!(terms[0].pattern, "a");
    assert!(!terms[0].is_regex);
    assert_eq!(terms[1].pattern, "b");
    assert!(!terms[1].is_regex);
    assert_eq!(terms[2].pattern, "c");
    assert!(terms[2].is_regex);
    assert_eq!(terms[3].modifier, Modifier::Required);
    assert_eq!(terms[4].modifier, Modifier::Excluded);
}

#[test]
fn modifier_before_end_of_input_or_sign_drops_only_itself() {
    let terms = parse("foo - +").unwrap();
    assert_eq!(terms.len(), 1);
    assert_eq!(terms[0].pattern, "foo");
}

#[test]
fn any_whitespace_run_after_a_modifier_is_ignored() {
    let a = parse("-  \t\n\"a b\" x").unwrap();
    let b = parse("-\"a b\" x").unwrap();
    assert_eq!(a.len(), 2);
    assert_eq!(a.len(), b.len());
    for (s, t) in a.iter().zip(b.iter()) {
        assert_eq!(s.modifier, t.modifier);
        assert_eq!(s.pattern, t.pattern);
        assert_eq!(s.is_regex, t.is_regex);
    }
    assert_eq!(a[0].modifier, Modifier::Excluded);
    assert_eq!(a[0].pattern, "a b");
}

#[test]
fn unicode_whitespace_mixed_with_ascii_whitespace_is_blank() {
    assert!(parse("\u{2003} \u{3000}\t\u{85}").unwrap().is_empty());
    let terms = parse("\u{2003}x").unwrap();
    assert_eq!(terms.len(), 1);
    assert_eq!(terms[0].pattern, "\u{2003}x");
}
