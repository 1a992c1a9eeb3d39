//! Scanning the lines of files with a compiled matcher.

use crate::error::SearchError;
use crate::matcher::{
    compile, reference_match, refusal, unavailable, Engine, MatcherWrapper, EXTENDED_ENGINE,
};
use crate::parallel::par_map;
use crate::text::{file_lines, read_lines, views, Line, LineModel};
use vstd::prelude::*;

verus! {

/// One reported line: where it stands and what it says.
#[derive(Debug)]
pub struct MatchEntry {
    /// The path of the file that holds the line.
    pub path: String,
    /// The position of the line in that file, counted from 1.
    pub line_number: usize,
    /// The line without its terminator.
    pub text: String,
}

/// The mathematical value of a [`MatchEntry`].
pub struct Hit {
    pub path: Seq<char>,
    pub line_number: nat,
    pub text: Seq<char>,
}

impl View for MatchEntry {
    type V = Hit;

    open spec fn view(&self) -> Hit {
        Hit { path: self.path@, line_number: self.line_number as nat, text: self.text@ }
    }
}

/// Whether the line at index `i` counts as matched: a line without an
/// outcome of its own does not.
pub open spec fn matched_at(outcomes: Seq<bool>, i: int) -> bool {
    0 <= i < outcomes.len() && outcomes[i]
}

/// The lines to report, in the order of the file: a line is reported when
/// its outcome differs from `invert`, that is, when exactly one of "it
/// matched" and "the search is inverted" holds.
pub open spec fn select(
    path: Seq<char>,
    lines: Seq<LineModel>,
    outcomes: Seq<bool>,
    invert: bool,
) -> Seq<Hit>
    decreases lines.len(),
{
    if lines.len() == 0 {
        Seq::empty()
    } else {
        let before = select(path, lines.drop_last(), outcomes, invert);
        let line = lines.last();
        if matched_at(outcomes, lines.len() - 1) != invert {
            before.push(Hit { path, line_number: line.number, text: line.text })
        } else {
            before
        }
    }
}

/// Builds the report of one file from its lines and the matcher's answer
/// for each of them.
pub fn select_lines(path: &str, lines: &Vec<Line>, outcomes: &Vec<bool>, invert: bool) -> (entries:
    Vec<MatchEntry>)
    ensures
        views(entries@) == select(path@, views(lines@), outcomes@, invert),
{
    let mut entries: Vec<MatchEntry> = Vec::new();
    let mut i: usize = 0;
    proof {
        assert(views(lines@).take(0) =~= Seq::<LineModel>::empty());
        assert(views(entries@) =~= Seq::<Hit>::empty());
    }
    while i < lines.len()
        invariant
            i <= lines.len(),
            views(entries@) == select(path@, views(lines@).take(i as int), outcomes@, invert),
        decreases lines.len() - i,
    {
        let matched = i < outcomes.len() && outcomes[i];
        let ghost shorter = views(lines@).take(i as int);
        let ghost longer = views(lines@).take(i + 1);
        proof {
            assert(longer.drop_last() =~= shorter);
            assert(longer.last() == lines@[i as int]@);
        }
        if matched ^ invert {
            let ghost before = entries@;
            let entry = MatchEntry {
                path: path.to_owned(),
                line_number: lines[i].number,
                text: lines[i].text.clone(),
            };
            entries.push(entry);
            proof {
                assert(views(entries@) =~= views(before).push(entry@));
            }
        }
        i = i + 1;
    }
    proof {
        assert(views(lines@).take(lines@.len() as int) =~= views(lines@));
    }
    entries
}

/// What a search hands back: the lines themselves, or how many there are.
#[derive(Debug)]
pub enum SearchOutput {
    /// The reported lines.
    Matches(Vec<MatchEntry>),
    /// The number of lines that would be reported.
    Count(u64),
}

impl SearchOutput {
    /// This output reports `hits` in the mode that `count` selects.
    pub open spec fn reports(self, hits: Seq<Hit>, count: bool) -> bool {
        match self {
            SearchOutput::Matches(entries) => !count && views(entries@) == hits,
            SearchOutput::Count(n) => count && n == hits.len(),
        }
    }
}

/// A file of a tree, with what reading it gave: its bytes, or the reason
/// why it could not be read.
pub struct SourceFile {
    /// The path of the file.
    pub path: String,
    /// The outcome of reading it.
    pub read: Result<Vec<u8>, String>,
}

/// An option with its default filled in.
pub open spec fn flag(option: Option<bool>) -> bool {
    match option {
        Some(value) => value,
        None => false,
    }
}

/// Fills in the default of an option.
fn flag_of(option: Option<bool>) -> (value: bool)
    ensures
        value == flag(option),
{
    match option {
        Some(value) => value,
        None => false,
    }
}

/// Puts a list of entries into the mode that was asked for.
fn output_of(entries: Vec<MatchEntry>, count: bool) -> (out: SearchOutput)
    ensures
        out.reports(views(entries@), count),
{
    if count {
        SearchOutput::Count(entries.len() as u64)
    } else {
        SearchOutput::Matches(entries)
    }
}

/// The answer of `found` for the text of each of `lines`.
pub open spec fn outcomes(found: spec_fn(Seq<char>) -> bool, lines: Seq<LineModel>) -> Seq<bool> {
    Seq::new(lines.len(), |i: int| found(lines[i].text))
}

/// The lines of a file that a scan reports, where `found` says which texts
/// match: those lines of text whose match differs from `invert`, in the
/// order of the file, each with the file's path and its own number in the
/// file.
pub open spec fn scan(
    found: spec_fn(Seq<char>) -> bool,
    path: Seq<char>,
    content: Seq<u8>,
    invert: bool,
) -> Seq<Hit> {
    select(path, file_lines(content), outcomes(found, file_lines(content)), invert)
}

/// What one file of a tree adds to the result of a scan: nothing where the
/// file could not be read.
pub open spec fn scan_source(
    found: spec_fn(Seq<char>) -> bool,
    file: SourceFile,
    invert: bool,
) -> Seq<Hit> {
    match file.read {
        Ok(content) => scan(found, file.path@, content@, invert),
        Err(_) => Seq::empty(),
    }
}

/// The result of scanning the files of a tree: the results of the files
/// one after the other, in the order of `files`.
pub open spec fn scan_all(
    found: spec_fn(Seq<char>) -> bool,
    files: Seq<SourceFile>,
    invert: bool,
) -> Seq<Hit>
    decreases files.len(),
{
    if files.len() == 0 {
        Seq::empty()
    } else {
        scan_all(found, files.drop_last(), invert) + scan_source(found, files.last(), invert)
    }
}

/// What `engine` finds when it reads `pattern` under the given case flag,
/// as a predicate on texts.
pub open spec fn reference(engine: Engine, pattern: Seq<char>, ignore_case: bool) -> spec_fn(
    Seq<char>,
) -> bool {
    |text: Seq<char>| reference_match(engine, pattern, ignore_case, text)
}

impl MatcherWrapper {
    /// What this matcher finds, as a predicate on texts.
    pub open spec fn found(&self) -> spec_fn(Seq<char>) -> bool {
        |text: Seq<char>| self.matches(text)
    }

    /// A matcher compiled from a pattern finds what the engine's reading
    /// of that pattern finds.
    pub proof fn lemma_found(&self, engine: Engine, pattern: Seq<char>, ignore_case: bool)
        requires
            self.compiled_from(engine, pattern, ignore_case),
        ensures
            self.found() == reference(engine, pattern, ignore_case),
    {
        assert(self.found() =~= reference(engine, pattern, ignore_case));
    }

    /// Asks the matcher about every line, the lines spread over the worker
    /// pool. The answers come back in the order of the lines.
    pub fn match_lines(&self, lines: &Vec<Line>) -> (answers: Vec<bool>)
        ensures
            answers@ == outcomes(self.found(), views(lines@)),
    {
        let ask = |line: &Line| -> (found: bool)
            ensures
                found == self.matches(line.text@),
            { self.is_match_py(line.text.as_str()) };
        let answers = par_map(lines, ask);
        proof {
            assert(answers@ =~= outcomes(self.found(), views(lines@)));
        }
        answers
    }

    /// Scans the bytes of one file.
    pub fn scan_content(&self, path: &str, content: &[u8], invert: bool) -> (entries: Vec<
        MatchEntry,
    >)
        ensures
            views(entries@) == scan(self.found(), path@, content@, invert),
    {
        let lines = read_lines(content);
        let answers = self.match_lines(&lines);
        select_lines(path, &lines, &answers, invert)
    }

    /// Scans one file of a tree. A file that could not be read is passed
    /// over.
    pub fn scan_file(&self, file: &SourceFile, invert: bool) -> (entries: Vec<MatchEntry>)
        ensures
            views(entries@) == scan_source(self.found(), *file, invert),
    {
        match &file.read {
            Ok(content) => self.scan_content(file.path.as_str(), content.as_slice(), invert),
            Err(_) => {
                let entries: Vec<MatchEntry> = Vec::new();
                proof {
                    assert(views(entries@) =~= Seq::<Hit>::empty());
                }
                entries
            },
        }
    }

    /// Searches the one file at `path`, of which `read` is what reading it
    /// gave. `count` and `invert_match` default to `false`.
    ///
    /// The caller asked for this file, so a failed read fails the call.
    pub fn search_file(
        &self,
        path: &str,
        read: &Result<Vec<u8>, String>,
        count: Option<bool>,
        invert_match: Option<bool>,
    ) -> (r: Result<SearchOutput, SearchError>)
        ensures
            match (*read, r) {
                (Ok(content), Ok(out)) => out.reports(
                    scan(self.found(), path@, content@, flag(invert_match)),
                    flag(count),
                ),
                (Err(reason), Err(SearchError::Io(detail))) => detail@ == reason@,
                _ => false,
            },
    {
        match read {
            Ok(content) => {
                let entries = self.scan_content(path, content.as_slice(), flag_of(invert_match));
                Ok(output_of(entries, flag_of(count)))
            },
            Err(reason) => Err(SearchError::Io(reason.clone())),
        }
    }

    /// Searches the files of a tree, each given with what reading it gave.
    /// `count` and `invert_match` default to `false`.
    ///
    /// The files are scanned on the worker pool. A file that could not be
    /// read adds nothing and fails nothing.
    pub fn search_dir(
        &self,
        files: &Vec<SourceFile>,
        count: Option<bool>,
        invert_match: Option<bool>,
    ) -> (out: SearchOutput)
        ensures
            out.reports(scan_all(self.found(), files@, flag(invert_match)), flag(count)),
    {
        let invert = flag_of(invert_match);
        let scan_one = |file: &SourceFile| -> (entries: Vec<MatchEntry>)
            ensures
                views(entries@) == scan_source(self.found(), *file, invert),
            { self.scan_file(file, invert) };
        let mut parts = par_map(files, scan_one);
        let mut all: Vec<MatchEntry> = Vec::new();
        let mut i: usize = 0;
        proof {
            assert(files@.take(0) =~= Seq::<SourceFile>::empty());
            assert(views(all@) =~= Seq::<Hit>::empty());
        }
        while i < parts.len()
            invariant
                i <= parts.len(),
                parts.len() == files.len(),
                forall|k: int|
                    i <= k < files@.len() ==> views(#[trigger] parts@[k]@) == scan_source(
                        self.found(),
                        files@[k],
                        invert,
                    ),
                views(all@) == scan_all(self.found(), files@.take(i as int), invert),
            decreases parts.len() - i,
        {
            let ghost before = all@;
            let ghost part = parts@[i as int]@;
            let mut taken: Vec<MatchEntry> = Vec::new();
            core::mem::swap(&mut parts[i], &mut taken);
            all.append(&mut taken);
            proof {
                assert(views(all@) =~= views(before) + views(part));
                assert(files@.take(i + 1).drop_last() =~= files@.take(i as int));
                assert(files@.take(i + 1).last() == files@[i as int]);
            }
            i = i + 1;
        }
        proof {
            assert(files@.take(files@.len() as int) =~= files@);
        }
        output_of(all, flag_of(count))
    }
}

/// Compiles `pattern` and searches one file with it: the same as
/// [`compile`] followed by [`MatcherWrapper::search_file`]. A pattern that
/// does not compile fails the call, whatever reading the file gave.
pub fn search_file(
    pattern: &str,
    path: &str,
    read: &Result<Vec<u8>, String>,
    ignore_case: Option<bool>,
    engine: Option<&str>,
    count: Option<bool>,
    invert_match: Option<bool>,
) -> (r: Result<SearchOutput, SearchError>)
    ensures
        ({
            let (fold, by) = MatcherWrapper::selected(ignore_case, engine);
            if unavailable(by, EXTENDED_ENGINE) {
                r matches Err(e) && e is EngineUnavailable
            } else {
                match refusal(by, pattern@, fold) {
                    Some(text) => r matches Err(
                        SearchError::InvalidPattern { engine: of, diagnostic },
                    ) && of == by && diagnostic@ == text,
                    None => match (*read, r) {
                        (Ok(content), Ok(out)) => out.reports(
                            scan(
                                reference(by, pattern@, fold),
                                path@,
                                content@,
                                flag(invert_match),
                            ),
                            flag(count),
                        ),
                        (Err(reason), Err(SearchError::Io(detail))) => detail@ == reason@,
                        _ => false,
                    },
                }
            }
        }),
{
    match compile(pattern, ignore_case, engine) {
        Ok(matcher) => {
            proof {
                let (fold, by) = MatcherWrapper::selected(ignore_case, engine);
                matcher.lemma_found(by, pattern@, fold);
            }
            matcher.search_file(path, read, count, invert_match)
        },
        Err(e) => Err(e),
    }
}

/// Compiles `pattern` and searches the files of a tree with it: the same
/// as [`compile`] followed by [`MatcherWrapper::search_dir`].
pub fn search_dir(
    pattern: &str,
    files: &Vec<SourceFile>,
    ignore_case: Option<bool>,
    engine: Option<&str>,
    count: Option<bool>,
    invert_match: Option<bool>,
) -> (r: Result<SearchOutput, SearchError>)
    ensures
        ({
            let (fold, by) = MatcherWrapper::selected(ignore_case, engine);
            if unavailable(by, EXTENDED_ENGINE) {
                r matches Err(e) && e is EngineUnavailable
            } else {
                match refusal(by, pattern@, fold) {
                    Some(text) => r matches Err(
                        SearchError::InvalidPattern { engine: of, diagnostic },
                    ) && of == by && diagnostic@ == text,
                    None => r matches Ok(out) && out.reports(
                        scan_all(reference(by, pattern@, fold), files@, flag(invert_match)),
                        flag(count),
                    ),
                }
            }
        }),
{
    match compile(pattern, ignore_case, engine) {
        Ok(matcher) => {
            proof {
                let (fold, by) = MatcherWrapper::selected(ignore_case, engine);
                matcher.lemma_found(by, pattern@, fold);
            }
            Ok(matcher.search_dir(files, count, invert_match))
        },
        Err(e) => Err(e),
    }
}

} // verus!
