//! The two pattern engines, and what this crate takes on trust about them.
//!
//! Nothing in this file is proved. The engines are the `regex` crate and
//! the `pcre2` crate; what they compute is given names here, and each
//! function below says over those names what the engine's documentation
//! and source promise of one call. The rest of the crate is proved from
//! these statements alone.

use vstd::prelude::*;

verus! {

/// `regex::Regex`: a pattern that the default engine compiled. Nothing of
/// its inside is visible here.
#[verifier::external_type_specification]
#[verifier::external_body]
pub struct ExRegex(regex::Regex);

/// `regex::Error`: why the default engine did not compile a pattern.
#[verifier::external_type_specification]
#[verifier::external_body]
pub struct ExRegexError(regex::Error);

/// `pcre2::bytes::Regex`: a pattern that the extended engine compiled.
/// Nothing of its inside is visible here.
#[verifier::external_type_specification]
#[verifier::external_body]
pub struct ExPcre2Regex(pcre2::bytes::Regex);

/// `pcre2::Error`: why the extended engine did not compile a pattern, or
/// gave a search up.
#[verifier::external_type_specification]
#[verifier::external_body]
pub struct ExPcre2Error(pcre2::Error);

/// The diagnostic with which the default engine's builder turns `pattern`
/// down when it is asked to compile it with the given case flag and
/// otherwise default settings; `None` where it compiles the pattern.
pub uninterp spec fn regex_refusal(pattern: Seq<char>, ignore_case: bool) -> Option<Seq<char>>;

/// Whether the default engine, reading `pattern` with the given case flag,
/// finds a match anywhere in `haystack`.
pub uninterp spec fn regex_semantics(
    pattern: Seq<char>,
    ignore_case: bool,
    haystack: Seq<char>,
) -> bool;

/// What `regex::Regex::is_match` answers for a compiled expression and a
/// haystack.
pub uninterp spec fn regex_finds(re: regex::Regex, haystack: Seq<char>) -> bool;

/// The text that a `regex::Error` displays.
pub uninterp spec fn regex_error_display(e: regex::Error) -> Seq<char>;

/// `regex::RegexBuilder::new(pattern).case_insensitive(ignore_case).build()`.
///
/// Trusted: whether the builder fails, and with which error, depends on
/// the pattern and the flag alone, as `regex_refusal` names it; and an
/// expression it hands back answers every haystack as `regex_semantics`
/// does for the pattern and flag it was built from.
#[verifier::external_body]
pub(crate) fn regex_build(pattern: &str, ignore_case: bool) -> (r: Result<
    regex::Regex,
    regex::Error,
>)
    ensures
        match r {
            Ok(re) => {
                &&& regex_refusal(pattern@, ignore_case) is None
                &&& forall|h: Seq<char>| #[trigger]
                    regex_finds(re, h) == regex_semantics(pattern@, ignore_case, h)
            },
            Err(e) => regex_refusal(pattern@, ignore_case) == Some(regex_error_display(e)),
        },
{
    regex::RegexBuilder::new(pattern).case_insensitive(ignore_case).build()
}

/// `regex::Regex::is_match`.
///
/// Trusted: the answer depends on the compiled expression and the haystack
/// alone.
#[verifier::external_body]
pub(crate) fn regex_is_match(re: &regex::Regex, haystack: &str) -> (r: bool)
    ensures
        r == regex_finds(*re, haystack@),
{
    re.is_match(haystack)
}

/// `to_string` on a `regex::Error`, which writes what its `Display` writes.
///
/// Trusted: the text depends on the error alone.
#[verifier::external_body]
pub(crate) fn regex_error_text(e: &regex::Error) -> (s: String)
    ensures
        s@ == regex_error_display(*e),
{
    e.to_string()
}

/// The diagnostic with which the extended engine's builder turns
/// `pattern` down when it is asked to compile it with the given case flag
/// and otherwise default settings; `None` where it compiles the pattern.
pub uninterp spec fn pcre2_refusal(pattern: Seq<char>, caseless: bool) -> Option<Seq<char>>;

/// Whether the extended engine, reading `pattern` with the given case flag,
/// finds a match anywhere in `subject`; `None` where the engine gives the
/// search up with a match-time error.
pub uninterp spec fn pcre2_semantics(
    pattern: Seq<char>,
    caseless: bool,
    subject: Seq<u8>,
) -> Option<bool>;

/// What `pcre2::bytes::Regex::is_match` answers for a compiled expression
/// and a subject; `None` stands for a match-time error.
pub uninterp spec fn pcre2_finds(re: pcre2::bytes::Regex, subject: Seq<u8>) -> Option<bool>;

/// The text that a `pcre2::Error` displays.
pub uninterp spec fn pcre2_error_display(e: pcre2::Error) -> Seq<char>;

/// `pcre2::bytes::RegexBuilder::new().caseless(caseless).build(pattern)`.
///
/// Trusted: whether the builder fails, and with which error, depends on
/// the pattern and the flag alone, as `pcre2_refusal` names it; and an
/// expression it hands back answers every subject as `pcre2_semantics`
/// does for the pattern and flag it was built from.
#[verifier::external_body]
pub(crate) fn pcre2_build(pattern: &str, caseless: bool) -> (r: Result<
    pcre2::bytes::Regex,
    pcre2::Error,
>)
    ensures
        match r {
            Ok(re) => {
                &&& pcre2_refusal(pattern@, caseless) is None
                &&& forall|s: Seq<u8>| #[trigger]
                    pcre2_finds(re, s) == pcre2_semantics(pattern@, caseless, s)
            },
            Err(e) => pcre2_refusal(pattern@, caseless) == Some(pcre2_error_display(e)),
        },
{
    pcre2::bytes::RegexBuilder::new().caseless(caseless).build(pattern)
}

/// `pcre2::bytes::Regex::is_match`.
///
/// Trusted: the outcome, a match-time error included, depends on the
/// compiled expression and the subject alone.
#[verifier::external_body]
pub(crate) fn pcre2_is_match(re: &pcre2::bytes::Regex, subject: &[u8]) -> (r: Result<
    bool,
    pcre2::Error,
>)
    ensures
        match r {
            Ok(found) => pcre2_finds(*re, subject@) == Some(found),
            Err(_) => pcre2_finds(*re, subject@) is None,
        },
{
    re.is_match(subject)
}

/// `to_string` on a `pcre2::Error`, which writes what its `Display` writes.
///
/// Trusted: the text depends on the error alone.
#[verifier::external_body]
pub(crate) fn pcre2_error_text(e: &pcre2::Error) -> (s: String)
    ensures
        s@ == pcre2_error_display(*e),
{
    e.to_string()
}

} // verus!
