use git_selective_ignore::pattern::{IgnorePattern, PatternMatcher};

#[test]
fn test_regex_pattern_matching() {
    let pattern = IgnorePattern::new("line-regex".to_string(), "/^debug/".to_string()).unwrap();
    assert!(pattern.matches_line("debug: something happened", 1).unwrap());
    assert!(!pattern.matches_line("info: something happened", 2).unwrap());
}

#[test]
fn test_word_assignment_pattern_matching() {
    let pattern = IgnorePattern::new("line-regex".to_string(), "api_key".to_string()).unwrap();
    assert!(pattern.matches_line("api_key = \"secret\"", 1).unwrap());
    assert!(pattern.matches_line("  api_key = 'another-secret' ", 2).unwrap());
    assert!(!pattern.matches_line("not_an_api_key = \"val\"", 3).unwrap());
}

#[test]
fn test_line_number_matching() {
    let pattern = IgnorePattern::new("line-number".to_string(), "5".to_string()).unwrap();
    assert!(pattern.matches_line("any content", 5).unwrap());
    assert!(!pattern.matches_line("any content", 4).unwrap());
}

#[test]
fn test_line_range_matching() {
    let pattern = IgnorePattern::new("line-range".to_string(), "10-20".to_string()).unwrap();
    assert!(pattern.matches_line("line 10", 10).unwrap());
    assert!(pattern.matches_line("line 15", 15).unwrap());
    assert!(pattern.matches_line("line 20", 20).unwrap());
    assert!(!pattern.matches_line("line 9", 9).unwrap());
    assert!(!pattern.matches_line("line 21", 21).unwrap());
}

#[test]
fn test_block_pattern_matching() {
    let pattern = IgnorePattern::new(
        "block-start-end".to_string(),
        "BEGIN DEBUG|||END DEBUG".to_string(),
    )
    .unwrap();
    let content = "line 1\nBEGIN DEBUG\nline 3\nline 4\nEND DEBUG\nline 6";
    let ranges = pattern.get_block_range(content).unwrap();
    assert_eq!(ranges.len(), 1);
    assert_eq!(ranges[0], (2, 5));
}

#[test]
fn test_block_pattern_never_matches_single_lines() {
    let pattern = IgnorePattern::new(
        "block-start-end".to_string(),
        "BEGIN|||END".to_string(),
    )
    .unwrap();
    assert!(!pattern.matches_line("BEGIN", 1).unwrap());
    assert!(!pattern.matches_line("END", 2).unwrap());
}

#[test]
fn test_unclosed_block_is_not_matched() {
    let pattern = IgnorePattern::new(
        "block-start-end".to_string(),
        "BEGIN|||END".to_string(),
    )
    .unwrap();
    let ranges = pattern.get_block_range("a\nBEGIN\nb\nc").unwrap();
    assert_eq!(ranges.len(), 0);
}

#[test]
fn test_pattern_new_rejects_unknown_kind() {
    assert!(IgnorePattern::new("line-glob".to_string(), "x".to_string()).is_err());
}

#[test]
fn test_validate_accepts_good_patterns() {
    let p = IgnorePattern::new("line-regex".to_string(), "/a+b/".to_string()).unwrap();
    assert!(p.validate().is_ok());
    let p = IgnorePattern::new("line-number".to_string(), "12".to_string()).unwrap();
    assert!(p.validate().is_ok());
    let p = IgnorePattern::new("line-range".to_string(), "3-9".to_string()).unwrap();
    assert!(p.validate().is_ok());
    let p = IgnorePattern::new("block-start-end".to_string(), "A|||B".to_string()).unwrap();
    assert!(p.validate().is_ok());
}

#[test]
fn test_validate_rejects_bad_patterns() {
    let p = IgnorePattern::new("line-regex".to_string(), "/[unclosed/".to_string()).unwrap();
    assert!(p.validate().is_err());
    let p = IgnorePattern::new("line-number".to_string(), "abc".to_string()).unwrap();
    assert!(p.validate().is_err());
    let p = IgnorePattern::new("line-range".to_string(), "10".to_string()).unwrap();
    assert!(p.validate().is_err());
    let p = IgnorePattern::new("line-range".to_string(), "a-b".to_string()).unwrap();
    assert!(p.validate().is_err());
    let p = IgnorePattern::new("block-start-end".to_string(), "STARTEND".to_string()).unwrap();
    assert!(p.validate().is_err());
    let p = IgnorePattern::new("block-start-end".to_string(), "  |||END".to_string()).unwrap();
    assert!(p.validate().is_err());
}

#[test]
fn test_malformed_specifications_never_match_silently() {
    let p = IgnorePattern::new("line-range".to_string(), "1-2-3".to_string()).unwrap();
    assert!(p.matches_line("anything", 1).is_err());
    let p = IgnorePattern::new("line-number".to_string(), "two".to_string()).unwrap();
    assert!(p.matches_line("anything", 2).is_err());
    let p = IgnorePattern::new("line-regex".to_string(), "/[bad/".to_string()).unwrap();
    assert!(p.matches_line("anything", 1).is_err());
}
