//! Compiling a pattern into a matcher, and asking the matcher about a line.

use crate::engines::{
    pcre2_build, pcre2_error_text, pcre2_finds, pcre2_is_match, pcre2_refusal, pcre2_semantics,
    regex_build, regex_error_text, regex_finds, regex_is_match, regex_refusal, regex_semantics,
};
use crate::error::SearchError;
use vstd::prelude::*;
use vstd::utf8::encode_utf8;

verus! {

/// The pattern-matching capabilities a pattern can be compiled against.
#[derive(Clone, Copy, Debug, PartialEq, Eq, Structural)]
pub enum Engine {
    /// The engine that every build carries.
    Default,
    /// The optional second engine, with the richer pattern syntax.
    Extended,
}

/// Whether this build of the crate carries the extended engine.
pub const EXTENDED_ENGINE: bool = true;

/// The diagnostic with which `engine` turns `pattern` down under the given
/// case flag; `None` where it compiles the pattern.
pub open spec fn refusal(engine: Engine, pattern: Seq<char>, ignore_case: bool) -> Option<
    Seq<char>,
> {
    match engine {
        Engine::Default => regex_refusal(pattern, ignore_case),
        Engine::Extended => pcre2_refusal(pattern, ignore_case),
    }
}

/// Whether asking for `engine` fails because the engine is not there: the
/// extended engine where it is not enabled.
pub open spec fn unavailable(engine: Engine, extended_enabled: bool) -> bool {
    engine == Engine::Extended && !extended_enabled
}

/// `r` is what compiling `pattern` gives: where the engine is not there,
/// the error that says so and no matcher; else a matcher for the pattern
/// where the engine compiles it, and the engine's diagnostic where it does
/// not.
pub open spec fn compiled(
    r: Result<MatcherWrapper, SearchError>,
    pattern: Seq<char>,
    ignore_case: bool,
    engine: Engine,
    extended_enabled: bool,
) -> bool {
    match r {
        Ok(m) => {
            &&& !unavailable(engine, extended_enabled)
            &&& refusal(engine, pattern, ignore_case) is None
            &&& m.compiled_from(engine, pattern, ignore_case)
        },
        Err(SearchError::EngineUnavailable) => unavailable(engine, extended_enabled),
        Err(SearchError::InvalidPattern { engine: by, diagnostic }) => {
            &&& !unavailable(engine, extended_enabled)
            &&& by == engine
            &&& refusal(engine, pattern, ignore_case) == Some(diagnostic@)
        },
        Err(SearchError::Io(_)) => false,
    }
}

/// Whether `pattern`, as `engine` reads it under the given case flag, has a
/// match somewhere in `text`. The extended engine searches the UTF-8 bytes
/// of the text, and a search that it gives up counts as no match.
pub open spec fn reference_match(
    engine: Engine,
    pattern: Seq<char>,
    ignore_case: bool,
    text: Seq<char>,
) -> bool {
    match engine {
        Engine::Default => regex_semantics(pattern, ignore_case, text),
        Engine::Extended => pcre2_semantics(pattern, ignore_case, encode_utf8(text)) == Some(true),
    }
}

impl Engine {
    /// The engine that a selector names: the extended one for `"pcre2"`,
    /// the default one for any other name and for none.
    pub open spec fn named(name: Option<Seq<char>>) -> Engine {
        if name == Some("pcre2"@) {
            Engine::Extended
        } else {
            Engine::Default
        }
    }

    /// Reads an engine selector.
    pub fn from_name(name: Option<&str>) -> (engine: Engine)
        ensures
            engine == Engine::named(
                match name {
                    Some(n) => Some(n@),
                    None => None,
                },
            ),
    {
        match name {
            Some(n) => {
                let given: String = n.to_owned();
                let extended: String = "pcre2".to_owned();
                if given == extended {
                    Engine::Extended
                } else {
                    Engine::Default
                }
            },
            None => Engine::Default,
        }
    }
}

/// A compiled pattern, tagged by the engine that compiled it.
pub enum MatcherType {
    /// A pattern of the default engine.
    Regex(regex::Regex),
    /// A pattern of the extended engine.
    Pcre2(pcre2::bytes::Regex),
}

impl MatcherType {
    /// The engine behind this matcher.
    pub open spec fn engine(&self) -> Engine {
        match self {
            MatcherType::Regex(_) => Engine::Default,
            MatcherType::Pcre2(_) => Engine::Extended,
        }
    }

    /// Whether this matcher finds its pattern in `text`.
    pub open spec fn matches(&self, text: Seq<char>) -> bool {
        match self {
            MatcherType::Regex(re) => regex_finds(*re, text),
            MatcherType::Pcre2(re) => pcre2_finds(*re, encode_utf8(text)) == Some(true),
        }
    }

    /// Whether this matcher finds its pattern in `text`.
    pub fn is_match(&self, text: &str) -> (found: bool)
        ensures
            found == self.matches(text@),
    {
        match self {
            MatcherType::Regex(re) => regex_is_match(re, text),
            MatcherType::Pcre2(re) => match pcre2_is_match(re, text.as_bytes()) {
                Ok(found) => found,
                Err(_) => false,
            },
        }
    }
}

/// A pattern compiled once, to be applied to any number of lines and files.
/// It never changes after it is made.
pub struct MatcherWrapper {
    matcher: MatcherType,
}

impl MatcherWrapper {
    /// The engine that compiled this matcher.
    pub closed spec fn engine(&self) -> Engine {
        self.matcher.engine()
    }

    /// Whether this matcher finds its pattern in `text`.
    pub closed spec fn matches(&self, text: Seq<char>) -> bool {
        self.matcher.matches(text)
    }

    /// This matcher is `pattern` compiled by `engine` under the given case
    /// flag: it answers every text as that engine's reading of the pattern
    /// does.
    pub open spec fn compiled_from(
        &self,
        engine: Engine,
        pattern: Seq<char>,
        ignore_case: bool,
    ) -> bool {
        &&& self.engine() == engine
        &&& forall|text: Seq<char>| #[trigger]
            self.matches(text) == reference_match(engine, pattern, ignore_case, text)
    }

    /// Compiles `pattern` for `engine`. Case is folded by the engine itself,
    /// as an option of the compilation.
    ///
    /// `extended_enabled` says whether the extended engine may be used.
    /// Where it may not, asking for it fails at once: the default engine
    /// never stands in for it.
    pub fn build(pattern: &str, ignore_case: bool, engine: Engine, extended_enabled: bool) -> (r:
        Result<MatcherWrapper, SearchError>)
        ensures
            compiled(r, pattern@, ignore_case, engine, extended_enabled),
    {
        match engine {
            Engine::Extended => {
                if !extended_enabled {
                    return Err(SearchError::EngineUnavailable);
                }
                match pcre2_build(pattern, ignore_case) {
                    Ok(re) => {
                        let m = MatcherWrapper { matcher: MatcherType::Pcre2(re) };
                        assert forall|text: Seq<char>| #[trigger]
                            m.matches(text) == reference_match(
                                engine,
                                pattern@,
                                ignore_case,
                                text,
                            ) by {
                            assert(pcre2_finds(re, encode_utf8(text)) == pcre2_semantics(
                                pattern@,
                                ignore_case,
                                encode_utf8(text),
                            ));
                        }
                        Ok(m)
                    },
                    Err(e) => Err(
                        SearchError::InvalidPattern { engine, diagnostic: pcre2_error_text(&e) },
                    ),
                }
            },
            Engine::Default => match regex_build(pattern, ignore_case) {
                Ok(re) => {
                    let m = MatcherWrapper { matcher: MatcherType::Regex(re) };
                    assert forall|text: Seq<char>| #[trigger]
                        m.matches(text) == reference_match(
                            engine,
                            pattern@,
                            ignore_case,
                            text,
                        ) by {
                        assert(regex_finds(re, text) == regex_semantics(
                            pattern@,
                            ignore_case,
                            text,
                        ));
                    }
                    Ok(m)
                },
                Err(e) => Err(
                    SearchError::InvalidPattern { engine, diagnostic: regex_error_text(&e) },
                ),
            },
        }
    }

    /// The options of [`MatcherWrapper::new`] with their defaults filled in.
    pub open spec fn selected(ignore_case: Option<bool>, engine: Option<&str>) -> (bool, Engine) {
        (
            match ignore_case {
                Some(fold) => fold,
                None => false,
            },
            Engine::named(
                match engine {
                    Some(n) => Some(n@),
                    None => None,
                },
            ),
        )
    }

    /// Compiles `pattern` with the engines of this build. `ignore_case`
    /// defaults to `false`, `engine` to `"regex"`, the default engine;
    /// `"pcre2"` selects the extended engine.
    pub fn new(pattern: &str, ignore_case: Option<bool>, engine: Option<&str>) -> (r: Result<
        MatcherWrapper,
        SearchError,
    >)
        ensures
            compiled(
                r,
                pattern@,
                Self::selected(ignore_case, engine).0,
                Self::selected(ignore_case, engine).1,
                EXTENDED_ENGINE,
            ),
    {
        let fold = match ignore_case {
            Some(fold) => fold,
            None => false,
        };
        MatcherWrapper::build(pattern, fold, Engine::from_name(engine), EXTENDED_ENGINE)
    }

    /// Whether this matcher finds its pattern in `text`.
    pub fn is_match_py(&self, text: &str) -> (found: bool)
        ensures
            found == self.matches(text@),
    {
        self.matcher.is_match(text)
    }
}

/// Compiles `pattern`: the same as [`MatcherWrapper::new`].
pub fn compile(pattern: &str, ignore_case: Option<bool>, engine: Option<&str>) -> (r: Result<
    MatcherWrapper,
    SearchError,
>)
    ensures
        compiled(
            r,
            pattern@,
            MatcherWrapper::selected(ignore_case, engine).0,
            MatcherWrapper::selected(ignore_case, engine).1,
            EXTENDED_ENGINE,
        ),
{
    MatcherWrapper::new(pattern, ignore_case, engine)
}

} // verus!
