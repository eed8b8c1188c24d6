use unearth::pattern::{
    expand_home_path, is_explicit_search_dir_selector, is_implicit_content_path_token,
    parse_name_pattern, parse_search_dir, pattern_prefers_full_path, term_selectivity_score,
    wildcard_to_regex, SearchDirMode, TypeFlag,
};
use unearth::text::{chars_of, string_of};

fn regex_of(raw: &str, regex_mode: bool) -> (Option<TypeFlag>, String) {
    let p = parse_name_pattern(raw, regex_mode);
    (p.type_flag, p.regex)
}

#[test]
fn matrix_contains_plain_word() {
    assert_eq!(regex_of("abc", false), (None, "abc".to_string()));
}

#[test]
fn matrix_exact_dir_shorthand() {
    assert_eq!(regex_of("/abc/", false), (Some(TypeFlag::Dir), "^abc$".to_string()));
}

#[test]
fn matrix_starts_shorthand() {
    assert_eq!(regex_of("/abc", false), (None, "^abc".to_string()));
}

#[test]
fn matrix_ends_dir_shorthand() {
    assert_eq!(regex_of("abc/", false), (Some(TypeFlag::Dir), "abc$".to_string()));
}

#[test]
fn matrix_wildcard_forms() {
    assert_eq!(regex_of("*abc*", false), (None, ".*abc.*".to_string()));
    assert_eq!(regex_of("abc*", false), (None, "^abc.*".to_string()));
    assert_eq!(regex_of("*abc", false), (None, ".*abc$".to_string()));
}

#[test]
fn matrix_regex_mode_is_verbatim() {
    assert_eq!(regex_of("^abc$", true), (None, "^abc$".to_string()));
}

#[test]
fn plain_word_meta_characters_are_escaped() {
    assert_eq!(regex_of("a.b", false), (None, "a\\.b".to_string()));
    assert_eq!(regex_of("x+y", false), (None, "x\\+y".to_string()));
}

#[test]
fn quoted_pattern_is_wildcard_of_inner_text() {
    assert_eq!(regex_of("\"abc\"", false), (None, "^abc$".to_string()));
    assert_eq!(regex_of("'/src/'", false), (None, "^src$".to_string()));
}

#[test]
fn escaped_star_stays_literal() {
    let r = wildcard_to_regex(chars_of("a\\*b").as_slice());
    assert_eq!(string_of(r.as_slice()), "^a\\*b$");
}

#[test]
fn full_path_preference() {
    assert!(pattern_prefers_full_path("src/main", false));
    assert!(!pattern_prefers_full_path("main", false));
    assert!(pattern_prefers_full_path("main", true));
}

#[test]
fn selectivity_scores() {
    // 3 meaningful characters, no stars: 72 + 300
    assert_eq!(term_selectivity_score("abc", false), 372);
    // exact directory form: 72 + 1700 + 300
    assert_eq!(term_selectivity_score("/abc/", false), 2072);
    // a lone star
    assert_eq!(term_selectivity_score("*", false), -5500);
    // anchored regex: 72 + 1200 + 1200
    assert_eq!(term_selectivity_score("^abc$", true), 2472);
}

#[test]
fn implicit_path_token_contains_slash() {
    assert!(is_implicit_content_path_token("/x"));
    assert!(is_implicit_content_path_token("./x"));
    assert!(is_implicit_content_path_token("a/b"));
    assert!(!is_implicit_content_path_token("folder1"));
}

#[test]
fn explicit_selectors() {
    assert!(is_explicit_search_dir_selector("/abc"));
    assert!(is_explicit_search_dir_selector("abc/"));
    assert!(is_explicit_search_dir_selector("*abc*"));
    assert!(is_explicit_search_dir_selector("\"abc\""));
    assert!(!is_explicit_search_dir_selector("abc"));
    assert!(is_explicit_search_dir_selector("/"));
}

#[test]
fn search_dir_existing_directory_wins() {
    match parse_search_dir("src", false, false, Some("/home/u/src".to_string()), None) {
        SearchDirMode::Path(p) => assert_eq!(p, "/home/u/src"),
        SearchDirMode::Pattern(_) => panic!("expected a path"),
    }
}

#[test]
fn search_dir_matrix_shorthands() {
    let pat = |raw: &str| match parse_search_dir(raw, false, false, None, None) {
        SearchDirMode::Pattern(x) => x,
        SearchDirMode::Path(p) => panic!("unexpected path {}", p),
    };
    assert_eq!(pat("abc"), "abc");
    assert_eq!(pat("/abc/"), "^abc$");
    assert_eq!(pat("/abc"), "^abc");
    assert_eq!(pat("abc/"), "abc$");
    assert_eq!(pat("abc*"), "^abc.*");
}

#[test]
fn bypass_forces_pattern_mode() {
    match parse_search_dir("src", false, true, Some("/home/u/src".to_string()), None) {
        SearchDirMode::Pattern(x) => assert_eq!(x, "src"),
        SearchDirMode::Path(_) => panic!("expected a pattern"),
    }
}

#[test]
fn home_expansion() {
    assert_eq!(expand_home_path("~", Some("/home/u".to_string())), "/home/u");
    assert_eq!(expand_home_path("~/x", Some("/home/u".to_string())), "/home/u/x");
    assert_eq!(expand_home_path("~/x", None), "~/x");
    assert_eq!(expand_home_path("/abs", Some("/home/u".to_string())), "/abs");
}
