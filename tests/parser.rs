use rfp::parser::{match_from_captures, parse_line_number, post_processing, FilePathParser, MatchResult, Matcher, RegexMatcher, SingleFileMatcher};

fn found(path: &str, line_number: Option<u32>) -> MatchResult {
    MatchResult { path: String::from(path), line_number }
}

#[test]
fn can_match_standard_path_no_line_number() {
    let parser = RegexMatcher::new().unwrap();
    assert_eq!(parser.match_line("/abc/def/g.e").unwrap(), found("/abc/def/g.e", None));
}

#[test]
fn can_match_standard_path_with_line_number() {
    let parser = RegexMatcher::new().unwrap();
    assert_eq!(parser.match_line("/abc/def/g.e:123").unwrap(), found("/abc/def/g.e", Some(123)));
}

#[test]
fn can_match_standard_path_without_extension() {
    let parser = RegexMatcher::new().unwrap();
    assert_eq!(parser.match_line("/abc/def/g").unwrap(), found("/abc/def/g", None));
}

#[test]
fn can_match_homedir_default() {
    let parser = RegexMatcher::new().unwrap();
    assert_eq!(parser.match_line("~/a/b/c.rs").unwrap(), found("~/a/b/c.rs", None));
}

#[test]
fn can_match_homedir_single_file_with_extension() {
    let parser = RegexMatcher::new().unwrap();
    assert_eq!(parser.match_line("~/file.rs:42").unwrap(), found("~/file.rs", Some(42)));
}

#[test]
fn can_match_homedir_single_file_without_extension() {
    let parser = RegexMatcher::new().unwrap();
    assert_eq!(parser.match_line("~/file").unwrap(), found("~/file", None));
}

#[test]
fn can_match_git_diff_path() {
    let parser = RegexMatcher::new().unwrap();
    assert_eq!(parser.match_line("a/abc/d/e.rs:123").unwrap(), found("abc/d/e.rs", Some(123)));
}

#[test]
fn can_match_a_single_file_with_extension() {
    let parser = RegexMatcher::new().unwrap();
    assert_eq!(parser.match_line("file.rs").unwrap(), found("file.rs", None));
}

#[test]
fn can_match_a_single_file_at_root_with_extension() {
    let parser = RegexMatcher::new().unwrap();
    assert_eq!(parser.match_line("/file.rs").unwrap(), found("/file.rs", None));
}

#[test]
fn can_match_a_file_with_long_extension() {
    let parser = RegexMatcher::new().unwrap();
    assert_eq!(
        parser.match_line("f.l.i.l.e.asomehowsuperduperlongextension").unwrap(),
        found("f.l.i.l.e.asomehowsuperduperlongextension", None)
    );
}

#[test]
fn can_match_in_an_error_message() {
    let parser = RegexMatcher::new().unwrap();
    assert_eq!(
        parser.match_line("error: file not found in project/file.txt").unwrap(),
        found("project/file.txt", None)
    );
}

#[test]
fn can_match_single_extensionless_file_in_the_directory() {
    let parser = SingleFileMatcher::new(vec![String::from("LICENSE"), String::from("Cargo.toml")]).unwrap();
    assert_eq!(
        parser.match_line("you might want to read the LICENSE").unwrap(),
        found("LICENSE", None)
    );
}

#[test]
fn strips_b_prefix_of_diff_paths() {
    let parser = RegexMatcher::new().unwrap();
    assert_eq!(parser.match_line("b/abc/d/e.rs:123").unwrap(), found("abc/d/e.rs", Some(123)));
}

#[test]
fn line_number_after_dash() {
    let parser = RegexMatcher::new().unwrap();
    assert_eq!(parser.match_line("file.rs-17").unwrap(), found("file.rs", Some(17)));
}

#[test]
fn path_with_extension_and_line_number_in_text() {
    let parser = RegexMatcher::new().unwrap();
    assert_eq!(
        parser.match_line("warning at src/lib/mod.rs:9001 here").unwrap(),
        found("src/lib/mod.rs", Some(9001))
    );
}

#[test]
fn oversized_line_number_is_dropped() {
    let parser = RegexMatcher::new().unwrap();
    assert_eq!(parser.match_line("x/y.rs:99999999999").unwrap(), found("x/y.rs", None));
}

#[test]
fn leftmost_candidate_wins() {
    let parser = RegexMatcher::new().unwrap();
    assert_eq!(parser.match_line("one/a.rs two/b.rs").unwrap(), found("one/a.rs", None));
}

#[test]
fn home_tier_comes_before_generic_paths() {
    let parser = RegexMatcher::new().unwrap();
    assert_eq!(parser.match_line("x/y.rs then ~/z.rs:3").unwrap(), found("~/z.rs", Some(3)));
}

#[test]
fn plain_words_match_nothing() {
    let parser = FilePathParser::new(vec![]).unwrap();
    assert_eq!(parser.match_line("hello world"), None);
    let regex = RegexMatcher::new().unwrap();
    assert_eq!(regex.match_line("hello world"), None);
}

#[test]
fn extensionless_word_needs_listing() {
    let empty = SingleFileMatcher::new(vec![]).unwrap();
    assert_eq!(empty.match_line("see the LICENSE"), None);
    let listed = SingleFileMatcher::new(vec![String::from("LICENSE")]).unwrap();
    assert_eq!(listed.match_line("see the LICENSE"), Some(found("LICENSE", None)));
    let full = FilePathParser::new(vec![String::from("LICENSE")]).unwrap();
    assert_eq!(full.match_line("see the LICENSE:12"), Some(found("LICENSE", Some(12))));
    let bare = FilePathParser::new(vec![]).unwrap();
    assert_eq!(bare.match_line("see the LICENSE:12"), None);
}

#[test]
fn listing_names_with_a_dot_are_not_cached() {
    let m = SingleFileMatcher::new(vec![String::from("notes.txt"), String::from("Makefile")]).unwrap();
    assert_eq!(m.match_line("run Makefile now"), Some(found("Makefile", None)));
    assert_eq!(m.match_line("notes"), None);
}

#[test]
fn path_tiers_come_before_the_listing() {
    let parser = FilePathParser::new(vec![String::from("LICENSE")]).unwrap();
    assert_eq!(parser.match_line("LICENSE and src/a.rs"), Some(found("src/a.rs", None)));
}

#[test]
fn reads_line_numbers() {
    assert_eq!(parse_line_number("123"), Some(123));
    assert_eq!(parse_line_number("0"), Some(0));
    assert_eq!(parse_line_number("+7"), Some(7));
    assert_eq!(parse_line_number("4294967295"), Some(4294967295));
    assert_eq!(parse_line_number("4294967296"), None);
    assert_eq!(parse_line_number(""), None);
    assert_eq!(parse_line_number("+"), None);
    assert_eq!(parse_line_number("12a"), None);
    assert_eq!(parse_line_number("١٢"), None);
}

#[test]
fn removes_diff_prefixes() {
    assert_eq!(post_processing("a/x/y.rs"), "x/y.rs");
    assert_eq!(post_processing("b/x"), "x");
    assert_eq!(post_processing("c/x"), "c/x");
    assert_eq!(post_processing("a"), "a");
    assert_eq!(post_processing("ab/x"), "ab/x");
}

#[test]
fn builds_a_match_from_groups() {
    let groups = vec![
        Some(String::from("a/p/q.rs:5")),
        Some(String::from("a/p/q.rs")),
        None,
        None,
        Some(String::from("5")),
    ];
    assert_eq!(match_from_captures(&groups, 4), Some(found("p/q.rs", Some(5))));
    assert_eq!(match_from_captures(&groups, 2), Some(found("p/q.rs", None)));
    assert_eq!(match_from_captures(&groups, 9), Some(found("p/q.rs", None)));
    let no_path = vec![Some(String::from("x")), None];
    assert_eq!(match_from_captures(&no_path, 1), None);
    assert_eq!(match_from_captures(&vec![Some(String::from("x"))], 0), None);
}

#[test]
fn dash_digits_are_the_line_number() {
    let parser = RegexMatcher::new().unwrap();
    assert_eq!(parser.match_line("x/y.rs-12").unwrap(), found("x/y.rs", Some(12)));
    assert_eq!(parser.match_line("~/a-b/c-3").unwrap(), found("~/a-b/c", Some(3)));
    assert_eq!(parser.match_line("a/x/y.rs-7").unwrap(), found("x/y.rs", Some(7)));
    assert_eq!(parser.match_line("x/y.rs-99999999999").unwrap(), found("x/y.rs", None));
    assert_eq!(parser.match_line("x/-12").unwrap(), found("x/-12", None));
    assert_eq!(parser.match_line("x/my-file.rs").unwrap(), found("x/my-file.rs", None));
}

#[test]
fn dash_digits_after_a_cached_word() {
    let m = SingleFileMatcher::new(vec![String::from("LICENSE"), String::from("build-2")]).unwrap();
    assert_eq!(m.match_line("see LICENSE-12"), Some(found("LICENSE", Some(12))));
    assert_eq!(m.match_line("run build-2 now"), Some(found("build-2", None)));
    assert_eq!(m.match_line("see NOTICE-12"), None);
}

#[test]
fn builds_a_match_from_dash_groups() {
    let groups = vec![Some(String::from("p/q.rs-5")), Some(String::from("p/q.rs-5")), None, None, None];
    assert_eq!(match_from_captures(&groups, 4), Some(found("p/q.rs", Some(5))));
    let with_number = vec![Some(String::from("p/q-5:6")), Some(String::from("p/q-5")), None, None, Some(String::from("6"))];
    assert_eq!(match_from_captures(&with_number, 4), Some(found("p/q-5", Some(6))));
}

#[test]
fn every_matcher_is_built() {
    assert!(RegexMatcher::new().is_some());
    assert!(SingleFileMatcher::new(vec![]).is_some());
    assert!(FilePathParser::new(vec![]).is_some());
}
