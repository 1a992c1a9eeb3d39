//! What holds of every search, proved from the definitions.

use crate::error::SearchError;
use crate::matcher::{compiled, reference_match, Engine, MatcherWrapper};
use crate::scan::{
    matched_at, outcomes, scan, scan_all, scan_source, select, Hit, SearchOutput, SourceFile,
};
use crate::text::{file_lines, line_len, numbered, split_lines, LineModel, LINE_FEED};
use vstd::prelude::*;
use vstd::utf8::{decode_utf8, valid_utf8};

verus! {

/// The first line of `bytes` runs up to the first line feed: no byte
/// before the place that `line_len` gives is a line feed, and the byte at
/// that place is one, unless the bytes end there.
pub proof fn lemma_first_line(bytes: Seq<u8>)
    ensures
        line_len(bytes) <= bytes.len(),
        forall|i: int| 0 <= i < line_len(bytes) ==> bytes[i] != LINE_FEED,
        line_len(bytes) < bytes.len() ==> bytes[line_len(bytes) as int] == LINE_FEED,
    decreases bytes.len(),
{
    if bytes.len() > 0 && bytes[0] != LINE_FEED {
        let rest = bytes.drop_first();
        lemma_first_line(rest);
        assert forall|i: int| 0 <= i < line_len(bytes) implies bytes[i] != LINE_FEED by {
            if i > 0 {
                assert(bytes[i] == rest[i - 1]);
            }
        }
        if line_len(bytes) < bytes.len() {
            assert(bytes[line_len(bytes) as int] == rest[line_len(rest) as int]);
        }
    }
}

/// No line of a file holds a line feed.
pub proof fn law_lines_hold_no_line_feed(bytes: Seq<u8>)
    ensures
        forall|i: int, j: int|
            0 <= i < split_lines(bytes).len() && 0 <= j < split_lines(bytes)[i].len()
                ==> #[trigger] split_lines(bytes)[i][j] != LINE_FEED,
    decreases bytes.len(),
{
    if bytes.len() > 0 {
        let n = line_len(bytes) as int;
        lemma_first_line(bytes);
        if n < bytes.len() {
            let rest = split_lines(bytes.skip(n + 1));
            law_lines_hold_no_line_feed(bytes.skip(n + 1));
            assert forall|i: int, j: int|
                0 <= i < split_lines(bytes).len() && 0 <= j < split_lines(bytes)[i].len()
                    implies #[trigger] split_lines(bytes)[i][j] != LINE_FEED by {
                if i > 0 {
                    assert(split_lines(bytes)[i] == rest[i - 1]);
                }
            }
        }
    }
}

/// `line` is the text of the raw line of `raw` that its number points at.
pub open spec fn is_line_of(raw: Seq<Seq<u8>>, line: LineModel) -> bool {
    &&& 1 <= line.number <= raw.len()
    &&& valid_utf8(raw[line.number - 1])
    &&& line.text == decode_utf8(raw[line.number - 1])
}

/// `hit` reports the line `line` of the file at `path`.
pub open spec fn is_hit_of(path: Seq<char>, line: LineModel, hit: Hit) -> bool {
    hit == Hit { path, line_number: line.number, text: line.text }
}

/// `hits` holds an entry for the line with the number `number`.
pub open spec fn reports_line(hits: Seq<Hit>, number: int) -> bool {
    exists|k: int| 0 <= k < hits.len() && #[trigger] hits[k].line_number == number
}

/// The numbers of `lines` grow from each line to the next.
pub open spec fn ascending(lines: Seq<LineModel>) -> bool {
    forall|j: int, k: int| 0 <= j < k < lines.len() ==> lines[j].number < lines[k].number
}

/// The lines of text of a file are its raw lines that decode, each under
/// its own position, in the order of the file, and none is left out.
pub proof fn lemma_numbered(raw: Seq<Seq<u8>>)
    ensures
        forall|k: int| 0 <= k < numbered(raw).len() ==> is_line_of(raw, #[trigger] numbered(raw)[k]),
        ascending(numbered(raw)),
        forall|i: int|
            0 <= i < raw.len() && valid_utf8(#[trigger] raw[i]) ==> exists|k: int|
                0 <= k < numbered(raw).len() && #[trigger] numbered(raw)[k].number == i + 1,
    decreases raw.len(),
{
    if raw.len() > 0 {
        let shorter = raw.drop_last();
        let before = numbered(shorter);
        let all = numbered(raw);
        lemma_numbered(shorter);
        assert forall|k: int| 0 <= k < all.len() implies is_line_of(raw, #[trigger] all[k]) by {
            if k < before.len() {
                assert(all[k] == before[k]);
                assert(is_line_of(shorter, before[k]));
                assert(shorter[before[k].number - 1] == raw[before[k].number - 1]);
            }
        }
        assert forall|j: int, k: int| 0 <= j < k < all.len() implies all[j].number
            < all[k].number by {
            assert(all[j] == before[j]);
            assert(is_line_of(shorter, before[j]));
            if k < before.len() {
                assert(all[k] == before[k]);
            }
        }
        assert forall|i: int| 0 <= i < raw.len() && valid_utf8(#[trigger] raw[i]) implies exists|
            k: int,
        |
            0 <= k < all.len() && #[trigger] all[k].number == i + 1 by {
            if i < shorter.len() {
                assert(shorter[i] == raw[i]);
                let k = choose|k: int|
                    0 <= k < before.len() && #[trigger] before[k].number == i + 1;
                assert(all[k] == before[k]);
            } else {
                assert(all[all.len() - 1].number == i + 1);
            }
        }
    }
}

/// `hit` reports one of `lines`, and one whose outcome differs from
/// `invert`.
pub open spec fn has_origin(
    path: Seq<char>,
    lines: Seq<LineModel>,
    outcomes: Seq<bool>,
    invert: bool,
    hit: Hit,
) -> bool {
    exists|j: int|
        0 <= j < lines.len() && matched_at(outcomes, j) != invert && is_hit_of(
            path,
            #[trigger] lines[j],
            hit,
        )
}

/// `hits` holds the entry that reports `line`.
pub open spec fn is_reported(path: Seq<char>, line: LineModel, hits: Seq<Hit>) -> bool {
    exists|k: int| 0 <= k < hits.len() && is_hit_of(path, line, #[trigger] hits[k])
}

/// A selection holds exactly the lines whose outcome differs from
/// `invert`, in the order of the lines.
pub proof fn lemma_select(path: Seq<char>, lines: Seq<LineModel>, outcomes: Seq<bool>, invert: bool)
    ensures
        select(path, lines, outcomes, invert).len() <= lines.len(),
        forall|k: int|
            0 <= k < select(path, lines, outcomes, invert).len() ==> has_origin(
                path,
                lines,
                outcomes,
                invert,
                #[trigger] select(path, lines, outcomes, invert)[k],
            ),
        forall|j: int|
            0 <= j < lines.len() && matched_at(outcomes, j) != invert ==> is_reported(
                path,
                #[trigger] lines[j],
                select(path, lines, outcomes, invert),
            ),
        ascending(lines) ==> forall|j: int, k: int|
            0 <= j < k < select(path, lines, outcomes, invert).len() ==> select(
                path,
                lines,
                outcomes,
                invert,
            )[j].line_number < select(path, lines, outcomes, invert)[k].line_number,
    decreases lines.len(),
{
    if lines.len() > 0 {
        let shorter = lines.drop_last();
        let before = select(path, shorter, outcomes, invert);
        let all = select(path, lines, outcomes, invert);
        let last = lines.len() - 1;
        lemma_select(path, shorter, outcomes, invert);
        assert forall|k: int| 0 <= k < all.len() implies has_origin(
            path,
            lines,
            outcomes,
            invert,
            #[trigger] all[k],
        ) by {
            if k < before.len() {
                assert(all[k] == before[k]);
                assert(has_origin(path, shorter, outcomes, invert, before[k]));
                let j = choose|j: int|
                    0 <= j < shorter.len() && matched_at(outcomes, j) != invert && is_hit_of(
                        path,
                        #[trigger] shorter[j],
                        before[k],
                    );
                assert(shorter[j] == lines[j]);
                assert(is_hit_of(path, lines[j], all[k]));
            } else {
                assert(is_hit_of(path, lines[last], all[k]));
            }
        }
        assert forall|j: int|
            0 <= j < lines.len() && matched_at(outcomes, j) != invert implies is_reported(
            path,
            #[trigger] lines[j],
            all,
        ) by {
            if j < last {
                assert(shorter[j] == lines[j]);
                assert(is_reported(path, shorter[j], before));
                let k = choose|k: int|
                    0 <= k < before.len() && is_hit_of(path, shorter[j], #[trigger] before[k]);
                assert(all[k] == before[k]);
                assert(is_hit_of(path, lines[j], all[k]));
            } else {
                assert(is_hit_of(path, lines[j], all[all.len() - 1]));
            }
        }
        if ascending(lines) {
            assert(ascending(shorter)) by {
                assert forall|j: int, k: int| 0 <= j < k < shorter.len() implies shorter[j].number
                    < shorter[k].number by {
                    assert(shorter[j] == lines[j]);
                    assert(shorter[k] == lines[k]);
                }
            }
            assert forall|j: int, k: int| 0 <= j < k < all.len() implies all[j].line_number
                < all[k].line_number by {
                assert(all[j] == before[j]);
                if k < before.len() {
                    assert(all[k] == before[k]);
                } else {
                    assert(has_origin(path, shorter, outcomes, invert, before[j]));
                    let i = choose|i: int|
                        0 <= i < shorter.len() && matched_at(outcomes, i) != invert && is_hit_of(
                            path,
                            #[trigger] shorter[i],
                            before[j],
                        );
                    assert(shorter[i] == lines[i]);
                    assert(lines[i].number < lines[last].number);
                }
            }
        }
    }
}

/// Every line is selected either by a search or by the inverted search.
pub proof fn lemma_select_both(path: Seq<char>, lines: Seq<LineModel>, outcomes: Seq<bool>)
    ensures
        select(path, lines, outcomes, false).len() + select(path, lines, outcomes, true).len()
            == lines.len(),
    decreases lines.len(),
{
    if lines.len() > 0 {
        lemma_select_both(path, lines.drop_last(), outcomes);
    }
}


/// Where every raw line decodes, every raw line is a line of text.
pub proof fn lemma_numbered_all(raw: Seq<Seq<u8>>)
    requires
        forall|i: int| 0 <= i < raw.len() ==> valid_utf8(#[trigger] raw[i]),
    ensures
        numbered(raw).len() == raw.len(),
    decreases raw.len(),
{
    if raw.len() > 0 {
        let shorter = raw.drop_last();
        assert forall|i: int| 0 <= i < shorter.len() implies valid_utf8(#[trigger] shorter[i]) by {
            assert(shorter[i] == raw[i]);
        }
        lemma_numbered_all(shorter);
        assert(valid_utf8(raw[raw.len() - 1]));
    }
}

/// A matcher answers as the engine's reading of its pattern does: for a
/// matcher compiled by `engine` from `pattern` under `ignore_case`, a text
/// matches exactly when that reading finds the pattern in it.
pub proof fn law_matcher_follows_reference(
    m: MatcherWrapper,
    engine: Engine,
    pattern: Seq<char>,
    ignore_case: bool,
    text: Seq<char>,
)
    requires
        m.compiled_from(engine, pattern, ignore_case),
    ensures
        m.matches(text) == reference_match(engine, pattern, ignore_case, text),
{
}

/// Two matchers compiled by one engine from one pattern under one case
/// flag give the same answer on every text.
pub proof fn law_same_pattern_same_answers(
    a: MatcherWrapper,
    b: MatcherWrapper,
    engine: Engine,
    pattern: Seq<char>,
    ignore_case: bool,
    text: Seq<char>,
)
    requires
        a.compiled_from(engine, pattern, ignore_case),
        b.compiled_from(engine, pattern, ignore_case),
    ensures
        a.matches(text) == b.matches(text),
{
    assert(a.matches(text) == reference_match(engine, pattern, ignore_case, text));
    assert(b.matches(text) == reference_match(engine, pattern, ignore_case, text));
}

/// Where the extended engine is not enabled, compiling a pattern for it
/// gives no matcher, whatever the pattern: the call fails, and with the
/// error that names the missing engine.
pub proof fn law_missing_engine_is_never_replaced(
    r: Result<MatcherWrapper, SearchError>,
    pattern: Seq<char>,
    ignore_case: bool,
)
    requires
        compiled(r, pattern, ignore_case, Engine::Extended, false),
    ensures
        r matches Err(e) && e is EngineUnavailable,
{
}

/// The entries of a scan are exactly the lines of the file that decode
/// and whose match differs from `invert`: each entry carries the file's
/// path, the 1-based position of its line in the file and that line's
/// text; the entries stand in the order of the file; and no such line is
/// left out.
pub proof fn law_line_numbers_are_positions(
    found: spec_fn(Seq<char>) -> bool,
    path: Seq<char>,
    content: Seq<u8>,
    invert: bool,
)
    ensures
        ({
            let raw = split_lines(content);
            let hits = scan(found, path, content, invert);
            &&& forall|k: int|
                0 <= k < hits.len() ==> {
                    let hit = #[trigger] hits[k];
                    &&& hit.path == path
                    &&& 1 <= hit.line_number <= raw.len()
                    &&& valid_utf8(raw[hit.line_number - 1])
                    &&& hit.text == decode_utf8(raw[hit.line_number - 1])
                    &&& found(hit.text) != invert
                }
            &&& forall|j: int, k: int|
                0 <= j < k < hits.len() ==> hits[j].line_number < hits[k].line_number
            &&& forall|i: int|
                0 <= i < raw.len() && valid_utf8(#[trigger] raw[i]) && found(decode_utf8(raw[i]))
                    != invert ==> reports_line(hits, i + 1)
        }),
{
    let raw = split_lines(content);
    let lines = file_lines(content);
    let answers = outcomes(found, lines);
    let hits = scan(found, path, content, invert);
    lemma_numbered(raw);
    lemma_select(path, lines, answers, invert);
    assert forall|k: int| 0 <= k < hits.len() implies {
        let hit = #[trigger] hits[k];
        &&& hit.path == path
        &&& 1 <= hit.line_number <= raw.len()
        &&& valid_utf8(raw[hit.line_number - 1])
        &&& hit.text == decode_utf8(raw[hit.line_number - 1])
        &&& found(hit.text) != invert
    } by {
        assert(has_origin(path, lines, answers, invert, hits[k]));
        let j = choose|j: int|
            0 <= j < lines.len() && matched_at(answers, j) != invert && is_hit_of(
                path,
                #[trigger] lines[j],
                hits[k],
            );
        assert(is_line_of(raw, lines[j]));
    }
    assert forall|i: int|
        0 <= i < raw.len() && valid_utf8(#[trigger] raw[i]) && found(decode_utf8(raw[i]))
            != invert implies reports_line(hits, i + 1) by {
        let j = choose|j: int| 0 <= j < lines.len() && #[trigger] lines[j].number == i + 1;
        assert(is_line_of(raw, lines[j]));
        assert(matched_at(answers, j) != invert);
        assert(is_reported(path, lines[j], hits));
        let k = choose|k: int| 0 <= k < hits.len() && is_hit_of(path, lines[j], #[trigger] hits[k]);
        assert(hits[k].line_number == i + 1);
    }
}

/// A search and the inverted search share the lines of text of a file out
/// between them: each line that decodes is reported by exactly one of the
/// two, a line that does not decode by neither, and the two results
/// together are as long as the file has lines of text.
pub proof fn law_inverted_search_takes_the_rest(
    found: spec_fn(Seq<char>) -> bool,
    path: Seq<char>,
    content: Seq<u8>,
)
    ensures
        ({
            let raw = split_lines(content);
            let plain = scan(found, path, content, false);
            let inverted = scan(found, path, content, true);
            &&& forall|n: int|
                1 <= n <= raw.len() && valid_utf8(#[trigger] raw[n - 1]) ==> reports_line(plain, n)
                    != reports_line(inverted, n)
            &&& forall|n: int|
                #![trigger reports_line(plain, n)]
                #![trigger reports_line(inverted, n)]
                reports_line(plain, n) || reports_line(inverted, n) ==> 1 <= n <= raw.len()
                    && valid_utf8(raw[n - 1])
            &&& plain.len() + inverted.len() == file_lines(content).len()
        }),
{
    let raw = split_lines(content);
    let lines = file_lines(content);
    let plain = scan(found, path, content, false);
    let inverted = scan(found, path, content, true);
    law_line_numbers_are_positions(found, path, content, false);
    law_line_numbers_are_positions(found, path, content, true);
    lemma_select_both(path, lines, outcomes(found, lines));
    assert forall|n: int|
        1 <= n <= raw.len() && valid_utf8(#[trigger] raw[n - 1]) implies reports_line(plain, n)
        != reports_line(inverted, n) by {
        let text = decode_utf8(raw[n - 1]);
        if reports_line(plain, n) {
            let k = choose|k: int| 0 <= k < plain.len() && #[trigger] plain[k].line_number == n;
            assert(found(text));
        }
        if reports_line(inverted, n) {
            let k = choose|k: int|
                0 <= k < inverted.len() && #[trigger] inverted[k].line_number == n;
            assert(!found(text));
        }
        if found(text) {
            assert(reports_line(plain, (n - 1) + 1));
        } else {
            assert(reports_line(inverted, (n - 1) + 1));
        }
    }
    assert forall|n: int|
        #![trigger reports_line(plain, n)]
        #![trigger reports_line(inverted, n)]
        reports_line(plain, n) || reports_line(inverted, n) implies 1 <= n <= raw.len()
            && valid_utf8(raw[n - 1]) by {
        if reports_line(plain, n) {
            let k = choose|k: int| 0 <= k < plain.len() && #[trigger] plain[k].line_number == n;
        } else {
            let k = choose|k: int|
                0 <= k < inverted.len() && #[trigger] inverted[k].line_number == n;
        }
    }
}

/// In a file whose lines all decode, the inverted search reports exactly
/// the lines that the search does not: every line number from 1 to the
/// number of lines stands in exactly one of the two results, no other
/// number stands in either, and the two counts add up to the number of
/// lines of the file.
pub proof fn law_inverted_search_is_the_complement(
    found: spec_fn(Seq<char>) -> bool,
    path: Seq<char>,
    content: Seq<u8>,
)
    requires
        forall|i: int|
            0 <= i < split_lines(content).len() ==> valid_utf8(#[trigger] split_lines(content)[i]),
    ensures
        ({
            let total = split_lines(content).len();
            let plain = scan(found, path, content, false);
            let inverted = scan(found, path, content, true);
            &&& forall|n: int|
                #![trigger reports_line(plain, n)]
                #![trigger reports_line(inverted, n)]
                1 <= n <= total ==> reports_line(plain, n) != reports_line(inverted, n)
            &&& forall|n: int|
                #![trigger reports_line(plain, n)]
                #![trigger reports_line(inverted, n)]
                reports_line(plain, n) || reports_line(inverted, n) ==> 1 <= n <= total
            &&& plain.len() + inverted.len() == total
        }),
{
    let raw = split_lines(content);
    let plain = scan(found, path, content, false);
    let inverted = scan(found, path, content, true);
    law_inverted_search_takes_the_rest(found, path, content);
    lemma_numbered_all(raw);
    assert forall|n: int|
        #![trigger reports_line(plain, n)]
        #![trigger reports_line(inverted, n)]
        1 <= n <= raw.len() implies reports_line(plain, n) != reports_line(inverted, n) by {
        assert(valid_utf8(raw[n - 1]));
    }
}

/// The count of a search is the length of the list that the same search
/// gives: of two outputs that report one result, the one in count mode
/// and the other not, the first holds the number of entries of the second.
pub proof fn law_count_is_length_of_list(listed: SearchOutput, counted: SearchOutput, hits: Seq<Hit>)
    requires
        listed.reports(hits, false),
        counted.reports(hits, true),
    ensures
        listed matches SearchOutput::Matches(entries) && counted matches SearchOutput::Count(n) && n
            == entries@.len(),
{
}

/// The files of a tree that could be read, in their order.
pub open spec fn readable(files: Seq<SourceFile>) -> Seq<SourceFile>
    decreases files.len(),
{
    if files.len() == 0 {
        Seq::empty()
    } else if files.last().read is Ok {
        readable(files.drop_last()).push(files.last())
    } else {
        readable(files.drop_last())
    }
}

/// A tree with files that cannot be read gives what its readable files
/// give: the result of the scan is the result of scanning those alone.
pub proof fn law_unreadable_files_add_nothing(
    found: spec_fn(Seq<char>) -> bool,
    files: Seq<SourceFile>,
    invert: bool,
)
    ensures
        scan_all(found, files, invert) == scan_all(found, readable(files), invert),
    decreases files.len(),
{
    if files.len() > 0 {
        let shorter = files.drop_last();
        law_unreadable_files_add_nothing(found, shorter, invert);
        if files.last().read is Ok {
            assert(readable(files).drop_last() =~= readable(shorter));
        } else {
            assert(scan_all(found, shorter, invert) + Seq::<Hit>::empty() =~= scan_all(
                found,
                shorter,
                invert,
            ));
        }
    }
}

/// The result for a tree does not depend on how its files are shared out:
/// scanning two parts of the file list and joining the results gives the
/// result of scanning the whole list.
pub proof fn law_results_merge(
    found: spec_fn(Seq<char>) -> bool,
    first: Seq<SourceFile>,
    second: Seq<SourceFile>,
    invert: bool,
)
    ensures
        scan_all(found, first + second, invert) == scan_all(found, first, invert) + scan_all(
            found,
            second,
            invert,
        ),
    decreases second.len(),
{
    if second.len() == 0 {
        assert(first + second =~= first);
        assert(scan_all(found, first, invert) + Seq::<Hit>::empty() =~= scan_all(
            found,
            first,
            invert,
        ));
    } else {
        law_results_merge(found, first, second.drop_last(), invert);
        assert((first + second).drop_last() =~= first + second.drop_last());
        assert((first + second).last() == second.last());
        assert((scan_all(found, first, invert) + scan_all(found, second.drop_last(), invert))
            + scan_source(found, second.last(), invert) =~= scan_all(found, first, invert) + (
        scan_all(found, second.drop_last(), invert) + scan_source(found, second.last(), invert)));
    }
}

} // verus!
