use hgrep::printer::Error;
use hgrep::ripgrep::Config;
use regex::Regex;

#[test]
fn new_sets_the_context_sizes() {
    let config = Config::new(3, 6);
    assert_eq!(config.min_context, 3);
    assert_eq!(config.max_context, 6);
    assert!(!config.pcre2);
    assert!(config.max_count.is_none());
}

#[test]
fn case_flags_switch_each_other_off() {
    let mut config = Config::default();
    config.smart_case(true);
    assert!(config.smart_case);
    config.case_insensitive(true);
    assert!(config.case_insensitive && !config.smart_case);
    config.smart_case(true);
    assert!(config.smart_case && !config.case_insensitive);
}

#[test]
fn fixed_strings_switches_the_alternative_engine_off() {
    let mut config = Config::default();
    config.pcre2(true);
    config.fixed_strings(true);
    assert!(config.fixed_strings && !config.pcre2);
}

#[test]
fn word_and_line_matching_exclude_each_other() {
    let mut config = Config::default();
    config.word_regexp(true);
    config.line_regexp(true);
    assert!(config.line_regexp && !config.word_regexp);
    config.word_regexp(true);
    assert!(config.word_regexp && !config.line_regexp);
}

#[test]
fn fixed_string_patterns_are_escaped() {
    let mut config = Config::default();
    config.fixed_strings(true);
    // the pattern is taken literally: meta characters are escaped
    assert_eq!(config.build_pattern("a*b"), regex::escape("a*b"));
    assert_ne!(config.build_pattern("a*b"), "a*b");
    // and the escaped form really matches the literal text only
    let re = Regex::new(&config.build_pattern("a*b")).unwrap();
    assert!(re.is_match("xa*by"));
    assert!(!re.is_match("aab"));
}

#[test]
fn line_regexp_anchors_the_pattern() {
    let mut config = Config::default();
    config.line_regexp(true);
    assert_eq!(config.build_pattern("foo|bar"), "^(?:foo|bar)$");
    let re = Regex::new(&config.build_pattern("foo|bar")).unwrap();
    assert!(re.is_match("foo"));
    assert!(!re.is_match("afoo"));
}

#[test]
fn plain_patterns_pass_through() {
    let config = Config::default();
    assert_eq!(config.build_pattern(r"\w+"), r"\w+");
}

#[test]
fn matcher_settings_follow_the_multiline_flags() {
    let mut config = Config::default();
    let s = config.regex_matcher_settings();
    assert!(s.multi_line && !s.dot_matches_new_line);
    assert_eq!(s.line_terminator, Some(b'\n'));

    config.multiline(true);
    config.multiline_dotall(true);
    let s = config.regex_matcher_settings();
    assert!(s.dot_matches_new_line);
    assert_eq!(s.line_terminator, None);

    let p = config.pcre2_matcher_settings();
    assert!(p.multi_line && p.dotall);
}

#[test]
fn searcher_and_walker_settings_mirror_the_config() {
    let mut config = Config::default();
    config.hidden(true);
    config.no_ignore(true);
    config.follow_symlink(true);
    config.max_depth(4);
    config.mmap(true);
    let s = config.searcher_settings();
    assert!(s.line_number && s.mmap && !s.multi_line);
    let w = config.walker_settings();
    assert!(!w.skip_hidden && !w.read_ignore_files && !w.require_git);
    assert!(w.follow_links);
    assert_eq!(w.max_depth, Some(4));
    assert!(!w.custom_ignore_filename);
}

#[test]
fn test_print_types() {
    let config = Config::default();
    let output = config.print_types().unwrap();

    let re = Regex::new(r"^\w+: .+(, .+)*$").unwrap();
    for line in output.lines() {
        assert!(re.is_match(line), "{:?} did not match to {:?}", line, re);
    }
}

#[test]
fn unknown_type_filters_are_reported() {
    let mut config = Config::default();
    config.types(vec!["no-such-file-type".to_string()]);
    assert_eq!(config.print_types().unwrap_err(), Error::UnknownFileType);
}

#[test]
fn known_type_filters_are_accepted() {
    let mut config = Config::default();
    config.types(vec!["rust".to_string()]);
    config.types_not(vec!["py".to_string()]);
    let output = config.print_types().unwrap();
    assert!(output.lines().any(|l| l.starts_with("rust: ")));
}
