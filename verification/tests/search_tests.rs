use ide_engine::classify::{is_likely_binary, relativize};
use ide_engine::pattern::{CompiledMatcher, SearchOptions};
use ide_engine::search::{run_search, scan_content, FileEntry};
use ide_engine::text::{replace_all, str_contains_sub, u32_to_decimal};

fn opts(case_sensitive: bool, whole_word: bool, use_regex: bool) -> SearchOptions {
    SearchOptions {
        case_sensitive,
        whole_word,
        use_regex,
        exclude_patterns: Vec::new(),
        include_ignored: false,
    }
}

fn entry(path: &str, content: &str) -> FileEntry {
    FileEntry { path: path.to_string(), content: Some(content.to_string()) }
}

#[test]
fn regex_mode_matches_regardless_of_case_flag() {
    for case_sensitive in [false, true] {
        let o = opts(case_sensitive, false, true);
        let m = CompiledMatcher::compile("foo.*bar", &o).unwrap();
        let starts = m.find_in_line("foo123bar");
        assert_eq!(starts, vec![0]);
    }
}

#[test]
fn whole_word_matches_word_not_substring() {
    let o = opts(false, true, false);
    let m = CompiledMatcher::compile("cat", &o).unwrap();
    assert_eq!(m.find_in_line("Cat "), vec![0]);
    assert!(m.find_in_line("category").is_empty());
}

#[test]
fn whole_word_case_sensitive_keeps_case() {
    let o = opts(true, true, false);
    let m = CompiledMatcher::compile("Cat", &o).unwrap();
    assert_eq!(m.find_in_line("a Cat sat"), vec![2]);
    assert!(m.find_in_line("a cat sat").is_empty());
    assert!(m.find_in_line("Cats").is_empty());
}

#[test]
fn case_insensitive_literal_matches_both_cases() {
    let o = opts(false, false, false);
    let m = CompiledMatcher::compile("Test", &o).unwrap();
    assert_eq!(m.find_in_line("test"), vec![0]);
    assert_eq!(m.find_in_line("TEST"), vec![0]);
}

#[test]
fn case_sensitive_literal_is_exact() {
    let o = opts(true, false, false);
    let m = CompiledMatcher::compile("Test", &o).unwrap();
    assert!(m.find_in_line("test").is_empty());
    assert_eq!(m.find_in_line("a Test"), vec![2]);
}

#[test]
fn literal_mode_escapes_metacharacters() {
    let o = opts(true, false, false);
    let m = CompiledMatcher::compile("a.b", &o).unwrap();
    assert!(m.find_in_line("axb").is_empty());
    assert_eq!(m.find_in_line("a.b"), vec![0]);
}

#[test]
fn invalid_regex_returns_error_not_result() {
    let o = opts(true, false, true);
    assert!(CompiledMatcher::compile("(", &o).is_err());
    let r = run_search("/p", "(", &o, vec![entry("/p/a.txt", "(((")]);
    assert!(r.is_err());
}

#[test]
fn invalid_pattern_is_fine_as_literal() {
    let o = opts(true, false, false);
    let m = CompiledMatcher::compile("(", &o).unwrap();
    assert_eq!(m.find_in_line("x(y"), vec![1]);
}

#[test]
fn excluded_pattern_never_appears_in_results() {
    let mut o = opts(true, false, false);
    o.exclude_patterns = vec!["node_modules".to_string()];
    let entries = vec![
        entry("/p/node_modules/a.txt", "hit"),
        entry("/p/src/a.txt", "hit"),
    ];
    let r = run_search("/p", "hit", &o, entries).unwrap();
    assert_eq!(r.files_searched, 1);
    assert_eq!(r.matches.len(), 1);
    assert_eq!(r.matches[0].file_path, "src/a.txt");
    for fm in &r.matches {
        assert!(!fm.file_path.contains("node_modules"));
    }
}

#[test]
fn png_is_counted_but_never_scanned() {
    let o = opts(true, false, false);
    let entries = vec![entry("/p/img.png", "hit"), entry("/p/a.txt", "hit")];
    let r = run_search("/p", "hit", &o, entries).unwrap();
    assert_eq!(r.files_searched, 2);
    assert_eq!(r.matches.len(), 1);
    assert_eq!(r.matches[0].file_path, "a.txt");
}

#[test]
fn binary_extension_heuristic() {
    assert!(is_likely_binary("img.png"));
    assert!(is_likely_binary("IMG.PNG"));
    assert!(is_likely_binary("a/b/c.tar"));
    assert!(is_likely_binary("x.7z"));
    assert!(!is_likely_binary("main.rs"));
    assert!(!is_likely_binary("Makefile"));
    assert!(!is_likely_binary(".gitignore"));
    assert!(!is_likely_binary("archive.tar.txt"));
    assert!(is_likely_binary("archive.txt.gz"));
}

#[test]
fn counters_are_consistent() {
    let o = opts(true, false, false);
    let entries = vec![
        entry("/p/one.txt", "a a\na"),
        entry("/p/two.txt", "nothing here"),
        FileEntry { path: "/p/unreadable.txt".to_string(), content: None },
    ];
    let r = run_search("/p", "a", &o, entries).unwrap();
    assert_eq!(r.files_searched, 3);
    assert_eq!(r.matches.len(), 1);
    let sum: usize = r.matches.iter().map(|fm| fm.matches.len()).sum();
    assert_eq!(r.total_matches, sum);
    assert_eq!(r.total_matches, 3);
    assert!(r.files_searched >= r.matches.len());
}

#[test]
fn match_records_carry_line_and_offset() {
    let o = opts(true, false, false);
    let r = run_search("/p", "b", &o, vec![entry("/p/f.txt", "abc\nxb\nno")]).unwrap();
    let ms = &r.matches[0].matches;
    assert_eq!(ms.len(), 2);
    assert_eq!(ms[0].line_number, 1);
    assert_eq!(ms[0].match_index, 1);
    assert_eq!(ms[0].line_content, "abc");
    assert_eq!(ms[1].line_number, 2);
    assert_eq!(ms[1].match_index, 1);
    assert_eq!(ms[1].line_content, "xb");
}

#[test]
fn crlf_lines_are_chomped() {
    let o = opts(true, false, false);
    let m = CompiledMatcher::compile("x", &o).unwrap();
    let ms = scan_content(&m, "ax\r\nbx\ncx");
    assert_eq!(ms.len(), 3);
    assert_eq!(ms[0].line_content, "ax");
    assert_eq!(ms[1].line_content, "bx");
    assert_eq!(ms[2].line_content, "cx");
    assert_eq!(ms[2].line_number, 3);
}

#[test]
fn multiple_matches_in_one_line_are_left_to_right() {
    let o = opts(true, false, false);
    let m = CompiledMatcher::compile("ab", &o).unwrap();
    let ms = scan_content(&m, "ab ab ab");
    let offsets: Vec<usize> = ms.iter().map(|mm| mm.match_index).collect();
    assert_eq!(offsets, vec![0, 3, 6]);
}

#[test]
fn relativize_strips_root_and_normalizes_slashes() {
    assert_eq!(relativize("/proj/src\\main.rs", "/proj"), "src/main.rs");
    assert_eq!(relativize("/proj/a.txt", "/proj/"), "a.txt");
    assert_eq!(relativize("C:\\other\\a.txt", "/proj"), "C:/other/a.txt");
}

#[test]
fn replace_all_substitutes_every_occurrence() {
    assert_eq!(replace_all("a-b-c", "-", "+"), "a+b+c");
    assert_eq!(replace_all("abc", "xyz", "q"), "abc");
    assert_eq!(replace_all("aaa", "aa", "b"), "ba");
}

#[test]
fn containment_is_raw_substring() {
    assert!(str_contains_sub("a/node_modules/b", "node_modules"));
    assert!(!str_contains_sub("a/node_module/b", "node_modules"));
    assert!(str_contains_sub("anything", ""));
}

#[test]
fn decimal_rendering() {
    assert_eq!(u32_to_decimal(0), "0");
    assert_eq!(u32_to_decimal(90210), "90210");
    assert_eq!(u32_to_decimal(u32::MAX), "4294967295");
}

#[test]
fn empty_project_yields_empty_results() {
    let o = opts(true, false, false);
    let r = run_search("/p", "x", &o, Vec::new()).unwrap();
    assert_eq!(r.files_searched, 0);
    assert_eq!(r.total_matches, 0);
    assert!(r.matches.is_empty());
}

#[test]
fn excluding_everything_searches_nothing() {
    let mut o = opts(true, false, false);
    o.exclude_patterns = vec!["/p".to_string()];
    let r = run_search("/p", "hit", &o, vec![entry("/p/a.txt", "hit")]).unwrap();
    assert_eq!(r.files_searched, 0);
    assert!(r.matches.is_empty());
}

#[test]
fn empty_content_has_no_matches() {
    let o = opts(true, false, false);
    let m = CompiledMatcher::compile("a", &o).unwrap();
    assert!(scan_content(&m, "").is_empty());
}
