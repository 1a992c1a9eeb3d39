use rgpy::error::SearchError;
use rgpy::matcher::{compile, Engine, MatcherWrapper};
use rgpy::scan::{search_dir, search_file, select_lines, MatchEntry, SearchOutput, SourceFile};
use rgpy::text::{read_lines, Line};
use rgpy::walk::{regular_files, EntryKind, WalkEntry};

fn sample() -> Result<Vec<u8>, String> {
    Ok(b"foo\nbar\nfoobar\n".to_vec())
}

fn pairs(out: SearchOutput) -> Vec<(String, usize, String)> {
    match out {
        SearchOutput::Matches(entries) => entries
            .into_iter()
            .map(|e: MatchEntry| (e.path, e.line_number, e.text))
            .collect(),
        SearchOutput::Count(n) => panic!("expected lines, got the count {}", n),
    }
}

fn number(out: SearchOutput) -> u64 {
    match out {
        SearchOutput::Count(n) => n,
        SearchOutput::Matches(entries) => panic!("expected a count, got {} lines", entries.len()),
    }
}

fn hit(path: &str, line_number: usize, text: &str) -> (String, usize, String) {
    (path.to_string(), line_number, text.to_string())
}

fn lines_of(content: &[u8]) -> Vec<(usize, String)> {
    read_lines(content).into_iter().map(|l: Line| (l.number, l.text)).collect()
}

#[test]
fn default_search_reports_the_matching_lines() {
    let m = compile("foo", None, None).unwrap();
    let out = m.search_file("a.txt", &sample(), None, None).unwrap();
    assert_eq!(pairs(out), vec![hit("a.txt", 1, "foo"), hit("a.txt", 3, "foobar")]);
}

#[test]
fn inverted_search_reports_the_other_lines() {
    let m = compile("foo", None, None).unwrap();
    let out = m.search_file("a.txt", &sample(), None, Some(true)).unwrap();
    assert_eq!(pairs(out), vec![hit("a.txt", 2, "bar")]);
}

#[test]
fn count_mode_gives_the_number_of_matches() {
    let m = compile("foo", None, None).unwrap();
    let out = m.search_file("a.txt", &sample(), Some(true), None).unwrap();
    assert_eq!(number(out), 2);
}

#[test]
fn upper_case_pattern_matches_when_case_is_ignored() {
    let m = compile("FOO", Some(true), None).unwrap();
    let out = m.search_file("a.txt", &sample(), None, None).unwrap();
    assert_eq!(pairs(out), vec![hit("a.txt", 1, "foo"), hit("a.txt", 3, "foobar")]);
}

#[test]
fn upper_case_pattern_matches_nothing_when_case_counts() {
    let m = compile("FOO", Some(false), None).unwrap();
    let out = m.search_file("a.txt", &sample(), None, None).unwrap();
    assert_eq!(pairs(out), vec![]);
    let m = compile("FOO", None, None).unwrap();
    assert_eq!(number(m.search_file("a.txt", &sample(), Some(true), None).unwrap()), 0);
}

#[test]
fn case_folding_works_both_ways() {
    let folded = compile("foo", Some(true), None).unwrap();
    assert!(folded.is_match_py("foo"));
    assert!(folded.is_match_py("FOO"));
    assert!(folded.is_match_py("a FoO b"));
    assert!(!folded.is_match_py("bar"));
    let upper = compile("FOO", Some(true), None).unwrap();
    assert!(upper.is_match_py("foo"));
    assert!(upper.is_match_py("fOo"));
    let exact = compile("foo", None, None).unwrap();
    assert!(exact.is_match_py("foo"));
    assert!(!exact.is_match_py("FOO"));
}

#[test]
fn is_match_follows_the_pattern() {
    let m = compile(r"^\d{3}-\d{4}$", None, None).unwrap();
    assert!(m.is_match_py("555-1234"));
    assert!(!m.is_match_py("555-12345"));
    assert!(!m.is_match_py(""));
    let any = compile("", None, None).unwrap();
    assert!(any.is_match_py(""));
    assert!(any.is_match_py("anything"));
}

#[test]
fn a_matcher_is_reused_across_files() {
    let m = compile("b", None, None).unwrap();
    let first = m.search_file("one", &Ok(b"abc\nxyz\n".to_vec()), None, None).unwrap();
    let second = m.search_file("two", &Ok(b"xyz\nbcd".to_vec()), None, None).unwrap();
    assert_eq!(pairs(first), vec![hit("one", 1, "abc")]);
    assert_eq!(pairs(second), vec![hit("two", 2, "bcd")]);
}

#[test]
fn invalid_pattern_is_refused_by_the_default_engine() {
    match compile("foo(bar", None, None) {
        Err(SearchError::InvalidPattern { engine, diagnostic }) => {
            assert_eq!(engine, Engine::Default);
            assert!(!diagnostic.is_empty());
            let e = SearchError::InvalidPattern { engine, diagnostic: diagnostic.clone() };
            assert_eq!(e.message(), format!("Invalid regex: {}", diagnostic));
        }
        Err(other) => panic!("unexpected error: {}", other.message()),
        Ok(_) => panic!("the pattern compiled"),
    }
}

#[test]
fn invalid_pattern_is_refused_by_the_extended_engine() {
    match compile("foo(bar", None, Some("pcre2")) {
        Err(SearchError::InvalidPattern { engine, diagnostic }) => {
            assert_eq!(engine, Engine::Extended);
            assert!(!diagnostic.is_empty());
            let e = SearchError::InvalidPattern { engine, diagnostic: diagnostic.clone() };
            assert_eq!(e.message(), format!("Invalid PCRE pattern: {}", diagnostic));
        }
        Err(other) => panic!("unexpected error: {}", other.message()),
        Ok(_) => panic!("the pattern compiled"),
    }
}

#[test]
fn extended_engine_that_is_not_enabled_is_never_replaced() {
    match MatcherWrapper::build("foo", false, Engine::Extended, false) {
        Err(SearchError::EngineUnavailable) => {}
        Err(other) => panic!("unexpected error: {}", other.message()),
        Ok(_) => panic!("a matcher was made"),
    }
    match MatcherWrapper::build("foo(bar", true, Engine::Extended, false) {
        Err(SearchError::EngineUnavailable) => {}
        Err(other) => panic!("unexpected error: {}", other.message()),
        Ok(_) => panic!("a matcher was made"),
    }
    assert_eq!(SearchError::EngineUnavailable.message(), "pcre2 engine not enabled");
    assert!(MatcherWrapper::build("foo", false, Engine::Default, false).is_ok());
}

#[test]
fn extended_engine_reads_its_own_syntax() {
    let look = compile("foo(?=bar)", None, Some("pcre2")).unwrap();
    assert!(look.is_match_py("foobar"));
    assert!(!look.is_match_py("foobaz"));
    assert!(compile("foo(?=bar)", None, None).is_err());
    assert!(compile("foo(?=bar)", None, Some("regex")).is_err());
    let out = look
        .search_file("a.txt", &sample(), None, None)
        .unwrap();
    assert_eq!(pairs(out), vec![hit("a.txt", 3, "foobar")]);
}

#[test]
fn extended_engine_folds_case_when_asked() {
    let folded = compile("FOO", Some(true), Some("pcre2")).unwrap();
    assert!(folded.is_match_py("foo"));
    let exact = compile("FOO", None, Some("pcre2")).unwrap();
    assert!(!exact.is_match_py("foo"));
    assert!(exact.is_match_py("FOO"));
}

#[test]
fn engine_names_select_engines() {
    assert_eq!(Engine::from_name(None), Engine::Default);
    assert_eq!(Engine::from_name(Some("regex")), Engine::Default);
    assert_eq!(Engine::from_name(Some("pcre2")), Engine::Extended);
    assert_eq!(Engine::from_name(Some("PCRE2")), Engine::Default);
    assert_eq!(Engine::from_name(Some("")), Engine::Default);
    assert_eq!(Engine::from_name(Some("pcre2 ")), Engine::Default);
}

#[test]
fn unreadable_file_fails_a_file_search() {
    let m = compile("foo", None, None).unwrap();
    let read: Result<Vec<u8>, String> = Err("No such file or directory (os error 2)".to_string());
    match m.search_file("gone.txt", &read, None, None) {
        Err(SearchError::Io(detail)) => {
            assert_eq!(detail, "No such file or directory (os error 2)");
            assert_eq!(
                SearchError::Io(detail).message(),
                "No such file or directory (os error 2)"
            );
        }
        Err(other) => panic!("unexpected error: {}", other.message()),
        Ok(_) => panic!("the search went through"),
    }
    assert!(m.search_file("gone.txt", &read, Some(true), Some(true)).is_err());
}

#[test]
fn unreadable_file_is_passed_over_in_a_tree() {
    let m = compile("foo", None, None).unwrap();
    let files = vec![
        SourceFile { path: "d/a.txt".to_string(), read: sample() },
        SourceFile { path: "d/locked".to_string(), read: Err("Permission denied".to_string()) },
        SourceFile { path: "d/sub/b.txt".to_string(), read: Ok(b"nothing\nfood".to_vec()) },
    ];
    let out = m.search_dir(&files, None, None);
    assert_eq!(
        pairs(out),
        vec![hit("d/a.txt", 1, "foo"), hit("d/a.txt", 3, "foobar"), hit("d/sub/b.txt", 2, "food")]
    );
    assert_eq!(number(m.search_dir(&files, Some(true), None)), 3);
    let inverted = m.search_dir(&files, None, Some(true));
    assert_eq!(pairs(inverted), vec![hit("d/a.txt", 2, "bar"), hit("d/sub/b.txt", 1, "nothing")]);
    assert_eq!(number(m.search_dir(&files, Some(true), Some(true))), 2);
}

#[test]
fn tree_without_readable_files_gives_an_empty_result() {
    let m = compile("foo", None, None).unwrap();
    let none: Vec<SourceFile> = vec![];
    assert_eq!(pairs(m.search_dir(&none, None, None)), vec![]);
    assert_eq!(number(m.search_dir(&none, Some(true), None)), 0);
    let bad = vec![SourceFile { path: "x".to_string(), read: Err("denied".to_string()) }];
    assert_eq!(pairs(m.search_dir(&bad, None, Some(true))), vec![]);
    assert_eq!(number(m.search_dir(&bad, Some(true), Some(true))), 0);
}

#[test]
fn count_equals_the_length_of_the_list() {
    let m = compile("o", None, None).unwrap();
    let contents: Vec<&[u8]> = vec![b"", b"\n", b"foo\nbar\nfoobar\n", b"one\r\ntwo\r\nthree", b"o\xff\no\n\xfe"];
    for content in contents {
        for invert in [false, true] {
            let read = Ok(content.to_vec());
            let list = pairs(m.search_file("f", &read, None, Some(invert)).unwrap());
            let n = number(m.search_file("f", &read, Some(true), Some(invert)).unwrap());
            assert_eq!(n, list.len() as u64);
        }
    }
}

#[test]
fn inverted_search_is_the_complement_by_line_number() {
    let m = compile("a", None, None).unwrap();
    let content = b"a\nb\nab\n\nba\nc".to_vec();
    let read = Ok(content);
    let plain = pairs(m.search_file("f", &read, None, None).unwrap());
    let inverted = pairs(m.search_file("f", &read, None, Some(true)).unwrap());
    let plain_numbers: Vec<usize> = plain.iter().map(|h| h.1).collect();
    let inverted_numbers: Vec<usize> = inverted.iter().map(|h| h.1).collect();
    assert_eq!(plain_numbers, vec![1, 3, 5]);
    assert_eq!(inverted_numbers, vec![2, 4, 6]);
    assert_eq!(plain.len() + inverted.len(), 6);
}

#[test]
fn line_that_is_not_text_is_never_reported_or_counted() {
    let m = compile("foo", None, None).unwrap();
    let read = Ok(b"foo\n\xff\xfe\nfoo\n".to_vec());
    let plain = pairs(m.search_file("f", &read, None, None).unwrap());
    assert_eq!(plain, vec![hit("f", 1, "foo"), hit("f", 3, "foo")]);
    let inverted = pairs(m.search_file("f", &read, None, Some(true)).unwrap());
    assert_eq!(inverted, vec![]);
    assert_eq!(number(m.search_file("f", &read, Some(true), None).unwrap()), 2);
    assert_eq!(number(m.search_file("f", &read, Some(true), Some(true)).unwrap()), 0);
}

#[test]
fn line_numbers_are_positions_in_the_file() {
    let m = compile("x", None, None).unwrap();
    let read = Ok(b"\n\nx\n\n\nxx\ny\nx".to_vec());
    let out = pairs(m.search_file("p", &read, None, None).unwrap());
    assert_eq!(out, vec![hit("p", 3, "x"), hit("p", 6, "xx"), hit("p", 8, "x")]);
}

#[test]
fn lines_end_at_line_feeds() {
    assert_eq!(lines_of(b""), vec![]);
    assert_eq!(lines_of(b"\n"), vec![(1, "".to_string())]);
    assert_eq!(lines_of(b"\n\n"), vec![(1, "".to_string()), (2, "".to_string())]);
    assert_eq!(lines_of(b"abc"), vec![(1, "abc".to_string())]);
    assert_eq!(lines_of(b"abc\n"), vec![(1, "abc".to_string())]);
    assert_eq!(lines_of(b"abc\ndef"), vec![(1, "abc".to_string()), (2, "def".to_string())]);
    assert_eq!(lines_of(b"abc\r\ndef\r\n"), vec![(1, "abc".to_string()), (2, "def".to_string())]);
    assert_eq!(lines_of(b"abc\r"), vec![(1, "abc\r".to_string())]);
    assert_eq!(lines_of(b"a\rb\n"), vec![(1, "a\rb".to_string())]);
    assert_eq!(lines_of(b"\r\n"), vec![(1, "".to_string())]);
    assert_eq!(lines_of(b"a\r\r\n"), vec![(1, "a\r".to_string())]);
}

#[test]
fn lines_that_do_not_decode_leave_gaps() {
    assert_eq!(lines_of(b"\xff"), vec![]);
    assert_eq!(lines_of(b"a\n\xc3\nb"), vec![(1, "a".to_string()), (3, "b".to_string())]);
    assert_eq!(
        lines_of("h\u{e9}llo\nw\u{f6}rld\n".as_bytes()),
        vec![(1, "h\u{e9}llo".to_string()), (2, "w\u{f6}rld".to_string())]
    );
    assert_eq!(lines_of(b"\xe2\x82\n\xe2\x82\xac\n"), vec![(2, "\u{20ac}".to_string())]);
}

#[test]
fn selection_follows_the_outcomes_it_is_given() {
    let lines = vec![
        Line { number: 1, text: "one".to_string() },
        Line { number: 4, text: "four".to_string() },
        Line { number: 5, text: "five".to_string() },
    ];
    let picked = select_lines("f", &lines, &vec![true, false, true], false);
    let got: Vec<(String, usize, String)> =
        picked.into_iter().map(|e| (e.path, e.line_number, e.text)).collect();
    assert_eq!(got, vec![hit("f", 1, "one"), hit("f", 5, "five")]);
    let others = select_lines("f", &lines, &vec![true, false, true], true);
    let got: Vec<(String, usize, String)> =
        others.into_iter().map(|e| (e.path, e.line_number, e.text)).collect();
    assert_eq!(got, vec![hit("f", 4, "four")]);
    let short = select_lines("f", &lines, &vec![true], false);
    assert_eq!(short.len(), 1);
    let short_inverted = select_lines("f", &lines, &vec![true], true);
    assert_eq!(short_inverted.len(), 2);
    let long = select_lines("f", &lines, &vec![false, true, false, true, true], false);
    assert_eq!(long.len(), 1);
    assert_eq!(long[0].line_number, 4);
}

#[test]
fn answers_come_back_in_the_order_of_the_lines() {
    let m = compile("7$", None, None).unwrap();
    let lines: Vec<Line> =
        (1..=5000usize).map(|n| Line { number: n, text: n.to_string() }).collect();
    let answers = m.match_lines(&lines);
    assert_eq!(answers.len(), 5000);
    for (i, found) in answers.iter().enumerate() {
        assert_eq!(*found, (i + 1) % 10 == 7);
    }
    let mut content = String::new();
    for n in 1..=5000usize {
        content.push_str(&n.to_string());
        content.push('\n');
    }
    let out = pairs(m.search_file("n", &Ok(content.into_bytes()), None, None).unwrap());
    assert_eq!(out.len(), 500);
    for (k, h) in out.iter().enumerate() {
        assert_eq!(h.1, 10 * k + 7);
        assert_eq!(h.2, (10 * k + 7).to_string());
    }
}

#[test]
fn files_of_a_tree_keep_their_order_and_paths() {
    let m = compile("^k", None, None).unwrap();
    let files: Vec<SourceFile> = (0..200usize)
        .map(|i| SourceFile {
            path: format!("t/{}", i),
            read: if i % 7 == 0 { Err("gone".to_string()) } else { Ok(format!("k{}\nz\n", i).into_bytes()) },
        })
        .collect();
    let out = pairs(m.search_dir(&files, None, None));
    let expected: Vec<(String, usize, String)> = (0..200usize)
        .filter(|i| i % 7 != 0)
        .map(|i| (format!("t/{}", i), 1, format!("k{}", i)))
        .collect();
    assert_eq!(out, expected);
}

#[test]
fn one_shot_search_of_a_file() {
    let out = search_file("foo", "a.txt", &sample(), None, None, None, None).unwrap();
    assert_eq!(pairs(out), vec![hit("a.txt", 1, "foo"), hit("a.txt", 3, "foobar")]);
    let out = search_file("FOO", "a.txt", &sample(), Some(true), Some("regex"), Some(true), Some(true)).unwrap();
    assert_eq!(number(out), 1);
    let out = search_file("o(?=b)", "a.txt", &sample(), None, Some("pcre2"), None, None).unwrap();
    assert_eq!(pairs(out), vec![hit("a.txt", 3, "foobar")]);
    let gone: Result<Vec<u8>, String> = Err("gone".to_string());
    assert!(matches!(
        search_file("foo", "a.txt", &gone, None, None, None, None),
        Err(SearchError::Io(_))
    ));
    assert!(matches!(
        search_file("foo(", "a.txt", &gone, None, None, None, None),
        Err(SearchError::InvalidPattern { .. })
    ));
    assert!(matches!(
        search_file("foo(", "a.txt", &sample(), None, None, None, None),
        Err(SearchError::InvalidPattern { .. })
    ));
}

#[test]
fn one_shot_search_of_a_tree() {
    let files = vec![
        SourceFile { path: "a".to_string(), read: sample() },
        SourceFile { path: "b".to_string(), read: Err("denied".to_string()) },
    ];
    let out = search_dir("bar", &files, None, None, None, None).unwrap();
    assert_eq!(pairs(out), vec![hit("a", 2, "bar"), hit("a", 3, "foobar")]);
    let out = search_dir("BAR", &files, Some(true), None, Some(true), None).unwrap();
    assert_eq!(number(out), 2);
    assert!(matches!(
        search_dir("[", &files, None, None, None, None),
        Err(SearchError::InvalidPattern { .. })
    ));
}

#[test]
fn only_regular_files_are_scanned() {
    let walked = vec![
        WalkEntry::Found { path: "d".to_string(), kind: EntryKind::Directory },
        WalkEntry::Found { path: "d/a.txt".to_string(), kind: EntryKind::File },
        WalkEntry::Unreadable,
        WalkEntry::Found { path: "d/link".to_string(), kind: EntryKind::Symlink },
        WalkEntry::Found { path: "d/dev".to_string(), kind: EntryKind::Other },
        WalkEntry::Found { path: "d/sub/b.txt".to_string(), kind: EntryKind::File },
    ];
    assert_eq!(regular_files(&walked), vec!["d/a.txt".to_string(), "d/sub/b.txt".to_string()]);
    assert_eq!(regular_files(&vec![]), Vec::<String>::new());
    assert_eq!(regular_files(&vec![WalkEntry::Unreadable]), Vec::<String>::new());
}

#[test]
fn same_pattern_gives_the_same_answers() {
    let a = compile(r"b[aeiou]+t", None, None).unwrap();
    let b = compile(r"b[aeiou]+t", None, None).unwrap();
    for text in ["bat", "boot", "bt", "a beat b", "", "BAT"] {
        assert_eq!(a.is_match_py(text), b.is_match_py(text));
    }
    assert!(a.is_match_py("bat"));
    assert!(a.is_match_py("a beat b"));
    assert!(!a.is_match_py("bt"));
    assert!(!a.is_match_py("BAT"));
}

#[test]
fn negated_class_is_folded_before_it_is_negated() {
    let exact = compile("[^A]", None, None).unwrap();
    let folded = compile("[^A]", Some(true), None).unwrap();
    assert!(exact.is_match_py("a"));
    assert!(!folded.is_match_py("a"));
    assert!(!folded.is_match_py("A"));
    assert!(folded.is_match_py("b"));
}

#[test]
fn matcher_type_asks_its_own_engine() {
    let default = rgpy::MatcherType::Regex(regex::Regex::new("a+b").unwrap());
    assert!(default.is_match("caab"));
    assert!(!default.is_match("ca"));
    let extended = rgpy::MatcherType::Pcre2(pcre2::bytes::Regex::new(r"a(?!b)").unwrap());
    assert!(extended.is_match("ac"));
    assert!(!extended.is_match("ab"));
    assert!(extended.is_match("h\u{e9} a"));
}

#[test]
fn items_are_reachable_from_the_crate_root() {
    let m: rgpy::MatcherWrapper = rgpy::compile("x", None, None).unwrap();
    let out = m.search_file("f", &Ok(b"x\ny".to_vec()), None, None).unwrap();
    match out {
        rgpy::SearchOutput::Matches(entries) => {
            let first: &rgpy::MatchEntry = &entries[0];
            assert_eq!(entries.len(), 1);
            assert_eq!(first.path, "f");
            assert_eq!(first.line_number, 1);
            assert_eq!(first.text, "x");
        }
        rgpy::SearchOutput::Count(_) => panic!("expected lines"),
    }
    let err: rgpy::SearchError = rgpy::SearchError::EngineUnavailable;
    assert_eq!(err.message(), "pcre2 engine not enabled");
    assert_eq!(rgpy::Engine::from_name(Some("pcre2")), rgpy::Engine::Extended);
}
