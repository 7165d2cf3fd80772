use monokl::error::MonoklError;

#[test]
fn message_of_too_many_terms_spells_both_numbers() {
    let e = MonoklError::TooManyTerms { count: 0, limit: 1234567 };
    assert_eq!(e.message(), "query has too many terms: 0 > 1234567");
    let e = MonoklError::TooManyTerms { count: usize::MAX, limit: 10 };
    assert_eq!(e.message(), format!("query has too many terms: {} > 10", usize::MAX));
}

#[test]
fn message_of_fixed_text_errors() {
    assert_eq!(MonoklError::TokenizerInit.message(), "tokenizer init failed");
    let e = MonoklError::NonUtf8Path { path: std::path::PathBuf::from("a/b") };
    assert_eq!(e.message(), "non-UTF-8 path encountered: \"a/b\"");
}

#[test]
fn message_of_walk_names_the_walk_root() {
    let e = MonoklError::Walk {
        path: camino::Utf8PathBuf::from("src/dir"),
        source: ignore::Error::Io(std::io::Error::new(std::io::ErrorKind::Other, "x")),
    };
    assert_eq!(e.message(), "walker error at src/dir");
}
