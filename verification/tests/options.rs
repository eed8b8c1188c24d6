use unearth::options::{parse_args, parse_color_when, parse_duration, ArgsOutcome, ColorWhen, Options, SortField, SortOrder, usage, version_line};
use unearth::modes::{choose_run_mode, contains_all_spec_from_opts, resolve_literal_search_root, style_enabled, can_stream_direct, RunMode};

fn args(v: &[&str]) -> Vec<String> {
    v.iter().map(|s| s.to_string()).collect()
}

fn run(v: &[&str]) -> Options {
    match parse_args(&args(v)) {
        Ok(ArgsOutcome::Run(o)) => o,
        Ok(ArgsOutcome::Help) => panic!("help"),
        Ok(ArgsOutcome::Version) => panic!("version"),
        Err(e) => panic!("error {}", e),
    }
}

fn fail(v: &[&str]) -> String {
    match parse_args(&args(v)) {
        Err(e) => e,
        Ok(_) => panic!("expected an error"),
    }
}

#[test]
fn defaults_when_only_a_pattern() {
    let o = run(&["abc"]);
    assert_eq!(o.positional, vec!["abc".to_string()]);
    assert_eq!(o.settings.timeout_secs, 6);
    assert_eq!(o.settings.threads_override, 8);
    assert!(!o.settings.visible_only);
    assert_eq!(o.settings.color_when, ColorWhen::Auto);
    assert!(o.path_override.is_none());
}

#[test]
fn no_pattern_gives_usage() {
    assert_eq!(fail(&[]), usage());
    assert_eq!(fail(&["-d"]), usage());
}

#[test]
fn help_and_version() {
    assert!(matches!(parse_args(&args(&["-h"])), Ok(ArgsOutcome::Help)));
    assert!(matches!(parse_args(&args(&["--version"])), Ok(ArgsOutcome::Version)));
    assert!(matches!(parse_args(&args(&["-dV"])), Ok(ArgsOutcome::Version)));
    assert_eq!(version_line(), "unearth 0.8.6");
}

#[test]
fn short_flag_bundle() {
    let o = run(&["-dfr", "x"]);
    assert!(o.settings.force_dir && o.settings.force_file && o.settings.regex_mode);
    let o = run(&["-L", "x"]);
    assert!(o.settings.long_format && o.settings.long_extended);
}

#[test]
fn threads_must_be_positive() {
    assert_eq!(fail(&["--threads", "0", "x"]), "--threads requires a positive integer");
    assert_eq!(fail(&["--threads=abc", "x"]), "Invalid threads count");
    assert_eq!(run(&["--threads", "3", "x"]).settings.threads_override, 3);
}

#[test]
fn timeout_forms() {
    assert_eq!(run(&["--timeout", "10", "x"]).settings.timeout_secs, 10);
    assert_eq!(run(&["--timeout=10s", "x"]).settings.timeout_secs, 10);
    assert_eq!(run(&["--timeout", "2m", "x"]).settings.timeout_secs, 120);
    assert_eq!(parse_duration("2m"), Ok(120));
    assert!(parse_duration("2h").is_err());
}

#[test]
fn sort_options() {
    let o = run(&["--sort", "size", "desc", "x"]);
    assert_eq!(o.settings.sort_field, Some(SortField::Size));
    assert_eq!(o.settings.sort_order, Some(SortOrder::Desc));
    assert_eq!(fail(&["--sort", "colour", "asc", "x"]), "Unsupported sort field 'colour'");
    assert_eq!(fail(&["--sort", "name", "up", "x"]), "Unsupported sort order 'up'");
}

#[test]
fn color_options() {
    assert_eq!(run(&["--color=never", "x"]).settings.color_when, ColorWhen::Never);
    assert_eq!(parse_color_when("always"), Ok(ColorWhen::Always));
    assert!(parse_color_when("sometimes").is_err());
}

#[test]
fn renamed_options_are_refused() {
    assert_eq!(fail(&["--cache", "x"]), "--cache was renamed to --cache-raw");
    assert_eq!(fail(&["-i", "x"]), "--info/-i was renamed to --long/-l");
}

#[test]
fn double_dash_ends_options() {
    let o = run(&["--", "-d", "x"]);
    assert_eq!(o.positional, vec!["-d".to_string(), "x".to_string()]);
    assert!(!o.settings.force_dir);
}

#[test]
fn path_option() {
    let o = run(&["--path", "dir", "x"]);
    assert_eq!(o.path_override, Some("dir".to_string()));
    assert_eq!(fail(&["--path=", "x"]), "--path requires a non-empty directory argument");
    assert_eq!(fail(&["x", "--path"]), "--path requires a directory argument");
}

#[test]
fn visible_only_and_hidden() {
    assert!(run(&["--visible-only", "x"]).settings.visible_only);
    assert!(!run(&["--visible-only", "-H", "x"]).settings.visible_only);
}

#[test]
fn counts_flag() {
    assert!(run(&["--counts", "x"]).settings.counts);
}

#[test]
fn contains_all_implicit_with_two_words() {
    let o = run(&["alpha", "beta"]);
    let plan = contains_all_spec_from_opts(&o).unwrap().unwrap();
    assert_eq!(plan.terms, vec!["alpha".to_string(), "beta".to_string()]);
    assert_eq!(plan.root_raw, None);
}

#[test]
fn contains_all_trailing_path() {
    let o = run(&["alpha", "beta", "./src"]);
    let plan = contains_all_spec_from_opts(&o).unwrap().unwrap();
    assert_eq!(plan.terms, vec!["alpha".to_string(), "beta".to_string()]);
    assert_eq!(plan.root_raw, Some("./src".to_string()));
}

#[test]
fn legacy_search_dir_form_is_not_contains_all() {
    let o = run(&["alpha", "/src"]);
    assert!(contains_all_spec_from_opts(&o).unwrap().is_none());
    let o = run(&["alpha"]);
    assert!(contains_all_spec_from_opts(&o).unwrap().is_none());
}

#[test]
fn contains_all_needs_a_term() {
    let o = run(&["--contains-all", "./src"]);
    assert_eq!(
        contains_all_spec_from_opts(&o).err(),
        Some("contains-all mode requires at least one search term".to_string())
    );
}

#[test]
fn literal_root_resolution() {
    assert_eq!(resolve_literal_search_root("~/d", "/home/u/d".to_string(), true), Ok("/home/u/d".to_string()));
    assert_eq!(
        resolve_literal_search_root("nope", "nope".to_string(), false),
        Err("--path target 'nope' is not an existing directory".to_string())
    );
}

#[test]
fn run_mode_choice() {
    assert_eq!(choose_run_mode(true, true), RunMode::ContainsAll);
    assert_eq!(choose_run_mode(false, true), RunMode::Full);
    assert_eq!(choose_run_mode(false, false), RunMode::Standard);
}

#[test]
fn styling_and_streaming() {
    let o = run(&["x"]);
    assert!(style_enabled(&o.settings, true));
    assert!(!style_enabled(&o.settings, false));
    assert!(can_stream_direct(&o.settings, false));
    let o = run(&["--sort", "name", "asc", "x"]);
    assert!(!can_stream_direct(&o.settings, false));
    let o = run(&["--color", "never", "x"]);
    assert!(!style_enabled(&o.settings, true));
}
