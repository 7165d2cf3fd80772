//! The crate's single error type and its `Result` alias.
use crate::text::push_char;
use vstd::prelude::*;
use vstd::string::StringExecFns;

verus! {

/// `camino::Utf8PathBuf`, carried opaquely.
#[verifier::external_type_specification]
#[verifier::external_body]
pub struct ExUtf8PathBuf(camino::Utf8PathBuf);

/// `ignore::Error`, carried opaquely.
#[verifier::external_type_specification]
#[verifier::external_body]
pub struct ExIgnoreError(ignore::Error);

/// `grep_regex::Error`, carried opaquely.
#[verifier::external_type_specification]
#[verifier::external_body]
pub struct ExGrepRegexError(grep_regex::Error);

/// `std::path::PathBuf`, carried opaquely.
#[verifier::external_type_specification]
#[verifier::external_body]
pub struct ExPathBuf(std::path::PathBuf);

/// Every failure this crate reports.
#[derive(Debug)]
#[non_exhaustive]
pub enum MonoklError {
    /// A directory walk failed; `path` is the root of the walk in progress.
    Walk { path: camino::Utf8PathBuf, source: ignore::Error },
    /// A search pattern did not compile.
    RegexBuild(grep_regex::Error),
    /// A path that is not valid UTF-8 was met.
    NonUtf8Path { path: std::path::PathBuf },
    /// A query held more terms than the limit allows.
    TooManyTerms { count: usize, limit: usize },
    /// The tokenizer could not be initialized.
    TokenizerInit,
}

/// The crate-wide result type.
pub type Result<T> = core::result::Result<T, MonoklError>;

/// The ASCII digit for `d`, which is below ten.
pub open spec fn digit_char(d: nat) -> char {
    (48 + d) as char
}

/// Decimal notation of `n`, without leading zeros.
pub open spec fn decimal(n: nat) -> Seq<char>
    decreases n,
{
    if n < 10 {
        seq![digit_char(n)]
    } else {
        decimal(n / 10).push(digit_char(n % 10))
    }
}

/// Appends the decimal notation of `n` to `s`.
pub fn push_decimal(s: &mut String, n: usize)
    ensures
        final(s)@ == old(s)@ + decimal(n as nat),
    decreases n,
{
    if n >= 10 {
        push_decimal(s, n / 10);
    }
    let d: u8 = (n % 10) as u8;
    let c: char = (48u8 + d) as char;
    assert(c == digit_char((n % 10) as nat));
    push_char(s, c);
    assert(final(s)@ =~= old(s)@ + decimal(n as nat)) by {
        if n >= 10 {
            assert(old(s)@ + decimal(n as nat) =~= old(s)@ + decimal((n / 10) as nat) + seq![c]);
        }
    }
}

/// The text of a UTF-8 path, which is also what its `Display` prints.
pub uninterp spec fn utf8_path_str(p: camino::Utf8PathBuf) -> Seq<char>;

/// The `Debug` rendering of a path.
pub uninterp spec fn path_debug_str(p: std::path::PathBuf) -> Seq<char>;

/// Calls `camino::Utf8Path::as_str`; the contract claims only that the text
/// is a function of the path (named `utf8_path_str`).
#[verifier::external_body]
fn utf8_path_text(p: &camino::Utf8PathBuf) -> (s: &str)
    ensures
        s@ == utf8_path_str(*p),
{
    p.as_str()
}

/// Formats a `std::path::PathBuf` with `Debug`; the contract claims only
/// that the text is a function of the path (named `path_debug_str`).
#[verifier::external_body]
fn path_debug_text(p: &std::path::PathBuf) -> (s: String)
    ensures
        s@ == path_debug_str(*p),
{
    format!("{p:?}")
}

impl MonoklError {
    /// The text of the message for `TooManyTerms`.
    pub open spec fn too_many_terms_text(count: usize, limit: usize) -> Seq<char> {
        "query has too many terms: "@ + decimal(count as nat) + " > "@ + decimal(limit as nat)
    }

    /// Human-readable description of the error.
    pub fn message(&self) -> (m: String)
        ensures
            self matches MonoklError::TooManyTerms { count, limit } ==> m@
                == Self::too_many_terms_text(*count, *limit),
            self is RegexBuild ==> m@ == "regex compilation failed"@,
            self is TokenizerInit ==> m@ == "tokenizer init failed"@,
            self matches MonoklError::Walk { path, .. } ==> m@ == "walker error at "@
                + utf8_path_str(*path),
            self matches MonoklError::NonUtf8Path { path } ==> m@
                == "non-UTF-8 path encountered: "@ + path_debug_str(*path),
    {
        match self {
            MonoklError::Walk { path, .. } => {
                let mut m = String::from_str("walker error at ");
                let text = utf8_path_text(path);
                m.append(text);
                m
            },
            MonoklError::RegexBuild(_) => String::from_str("regex compilation failed"),
            MonoklError::NonUtf8Path { path } => {
                let mut m = String::from_str("non-UTF-8 path encountered: ");
                let text = path_debug_text(path);
                m.append(text.as_str());
                m
            },
            MonoklError::TooManyTerms { count, limit } => {
                let mut m = String::from_str("query has too many terms: ");
                push_decimal(&mut m, *count);
                m.append(" > ");
                push_decimal(&mut m, *limit);
                m
            },
            MonoklError::TokenizerInit => String::from_str("tokenizer init failed"),
        }
    }
}

} // verus!
