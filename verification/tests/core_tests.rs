use git_selective_ignore::backup::{BackupData, MemoryStorage, StorageProvider, TempFileStorage};
use git_selective_ignore::config::{ConfigManager, FileMap};
use git_selective_ignore::engine::{
    applicable_patterns, clean_file_content, group_consecutive_lines, restore_decision,
    CleanOutcome, RestoreDecision,
};
use git_selective_ignore::hash::calculate_hash;
use git_selective_ignore::importer::{FileImporter, PatternImporter};
use git_selective_ignore::pattern::{IgnorePattern, PatternType};
use git_selective_ignore::reporter::{ConsoleReporter, FileStatus, StatusReporter};
use git_selective_ignore::strutil::{
    join_lines, parse_usize, split_lines, split_substr, trim_str, u64_to_dec,
};
use git_selective_ignore::transform::{process_file_content, LineMap};
use git_selective_ignore::error::IgnoreError;
use git_selective_ignore::validator::{ConfigValidator, StandardValidator};

fn patterns(kind_and_spec: &[(&str, &str)]) -> Vec<IgnorePattern> {
    kind_and_spec
        .iter()
        .map(|(k, s)| IgnorePattern::new(k.to_string(), s.to_string()).unwrap())
        .collect()
}

#[test]
fn test_block_transform_scenario() {
    let ps = patterns(&[("block-start-end", "BEGIN|||END")]);
    let (cleaned, ignored) = process_file_content("a\nBEGIN\nb\nc\nEND\nd", &ps).unwrap();
    assert_eq!(cleaned, "a\nd");
    assert_eq!(ignored.len(), 4);
    assert!(ignored.get(1).is_some());
    assert!(ignored.get(4).is_some());
    assert!(ignored.get(0).is_none());
    assert!(ignored.get(5).is_none());
}

#[test]
fn test_transform_preserves_trailing_newline() {
    let ps = patterns(&[("line-number", "2")]);
    let (cleaned, _) = process_file_content("A=1\nB=SECRET\nC=3\n", &ps).unwrap();
    assert_eq!(cleaned, "A=1\nC=3\n");
    let (cleaned, _) = process_file_content("A=1\nB=SECRET\nC=3", &ps).unwrap();
    assert_eq!(cleaned, "A=1\nC=3");
}

#[test]
fn test_transform_empty_content() {
    let ps = patterns(&[("line-regex", "/x/")]);
    let (cleaned, ignored) = process_file_content("", &ps).unwrap();
    assert_eq!(cleaned, "");
    assert!(ignored.is_empty());
}

#[test]
fn test_transform_collapses_blank_runs() {
    let ps = patterns(&[("line-regex", "/^secret/")]);
    let (cleaned, _) =
        process_file_content("a\n\nsecret one\n\nb\n", &ps).unwrap();
    assert_eq!(cleaned, "a\n\nb\n");
}

#[test]
fn test_transform_rejects_malformed_pattern() {
    let ps = patterns(&[("line-number", "two")]);
    assert!(process_file_content("x\n", &ps).is_err());
    // with no lines to test, a line-based pattern is never interpreted
    assert!(process_file_content("", &ps).is_ok());
}

#[test]
fn test_transform_idempotent_on_regex_patterns() {
    let ps = patterns(&[("line-regex", "/secret/"), ("block-start-end", "BEGIN|||END")]);
    let content = "keep\nsecret stuff\nBEGIN\ninner\nEND\n\n\ntail\n";
    let (once, _) = process_file_content(content, &ps).unwrap();
    let (twice, _) = process_file_content(&once, &ps).unwrap();
    assert_eq!(twice, once);
}

#[test]
fn test_line_number_patterns_can_shift_on_second_pass() {
    // removing line 2 renumbers the rest, so a second pass removes again
    let ps = patterns(&[("line-number", "2")]);
    let (once, _) = process_file_content("a\nb\nc", &ps).unwrap();
    assert_eq!(once, "a\nc");
    let (twice, _) = process_file_content(&once, &ps).unwrap();
    assert_eq!(twice, "a");
}

#[test]
fn test_clean_and_restore_round_trip() {
    let ps = patterns(&[("line-regex", "api_key")]);
    let content = "keep\napi_key = \"secret\"\n".to_string();
    let outcome = clean_file_content(&content, &ps).unwrap();
    match outcome {
        CleanOutcome::Cleaned(cleaned, backup) => {
            assert_eq!(cleaned, "keep\n");
            assert_eq!(backup.original_content, content);
            let mut storage = MemoryStorage::new();
            storage.store_backup("f.txt", backup).unwrap();
            let record = storage.restore_backup("f.txt").unwrap().unwrap();
            // a second restore finds nothing: exactly-once consumption
            assert!(storage.restore_backup("f.txt").unwrap().is_none());
            match restore_decision(&cleaned, &record) {
                RestoreDecision::Restore(original) => assert_eq!(original, content),
                RestoreDecision::IntegrityMismatch => panic!("an unmodified cleaned text must be restorable"),
            }
        }
        CleanOutcome::Unchanged => panic!("cleaning should change this content"),
    }
}

#[test]
fn test_integrity_gate_refuses_modified_content() {
    let backup = BackupData {
        original_content: "original\n".to_string(),
        ignored_lines: LineMap::new(),
        original_file_hash: calculate_hash("original\n"),
        cleaned_file_hash: calculate_hash("cleaned\n"),
    };
    match restore_decision(&"cleaned\n".to_string(), &backup) {
        RestoreDecision::Restore(original) => assert_eq!(original, "original\n"),
        RestoreDecision::IntegrityMismatch => panic!("unmodified content must pass"),
    }
    match restore_decision(&"cleaned but edited\n".to_string(), &backup) {
        RestoreDecision::Restore(_) => panic!("modified content must be refused"),
        RestoreDecision::IntegrityMismatch => {}
    }
}

#[test]
fn test_hash_is_deterministic_and_content_sensitive() {
    assert_eq!(calculate_hash("abc"), calculate_hash("abc"));
    assert_ne!(calculate_hash("abc"), calculate_hash("abd"));
    assert_eq!(calculate_hash(""), calculate_hash(""));
}

#[test]
fn test_memory_storage_keys_and_cleanup() {
    let mut storage = MemoryStorage::new();
    let record = |text: &str| BackupData {
        original_content: text.to_string(),
        ignored_lines: LineMap::new(),
        original_file_hash: calculate_hash(text),
        cleaned_file_hash: calculate_hash(""),
    };
    storage.store_backup("a.txt", record("a")).unwrap();
    storage.store_backup("b.txt", record("b")).unwrap();
    storage.store_backup("a.txt", record("a2")).unwrap();
    let mut keys = storage.get_all_backup_keys().unwrap();
    keys.sort();
    assert_eq!(keys, vec!["a.txt".to_string(), "b.txt".to_string()]);
    let got = storage.restore_backup("a.txt").unwrap().unwrap();
    assert_eq!(got.original_content, "a2");
    storage.cleanup().unwrap();
    assert!(storage.get_all_backup_keys().unwrap().is_empty());
}

#[test]
fn test_temp_file_storage_path_naming() {
    let storage = TempFileStorage::new(".git".to_string());
    let path = storage.get_backup_path("src/main.rs");
    assert_eq!(path, ".git/selective-ignore-backups/src_smain.rs.backup");
    let back = storage.restore_file_path_from_backup_name("src_smain.rs.backup");
    assert_eq!(back, "src/main.rs");
}

#[test]
fn test_backup_file_naming_is_reversible() {
    let storage = TempFileStorage::new(String::new());
    for path in ["my_file.txt", "a_b\\c/d", "nested/dir/with_underscores.rs", "_", "plain"] {
        let name = storage.get_backup_path(path);
        let file_name = name.strip_prefix("/selective-ignore-backups/").unwrap();
        assert_eq!(storage.restore_file_path_from_backup_name(file_name), path);
    }
}

#[test]
fn test_applicable_patterns_union() {
    let mut config_manager = ConfigManager::new(String::new());
    config_manager.initialize();
    config_manager
        .add_pattern("all".to_string(), "line-regex".to_string(), "/g/".to_string())
        .unwrap();
    config_manager
        .add_pattern("f.txt".to_string(), "line-number".to_string(), "1".to_string())
        .unwrap();
    let config = config_manager.load_config().unwrap();
    let ps = applicable_patterns(&config, &"f.txt".to_string());
    assert_eq!(ps.len(), 2);
    assert_eq!(ps[0].specification, "/g/");
    assert_eq!(ps[1].specification, "1");
    let only_wildcard = applicable_patterns(&config, &"other.txt".to_string());
    assert_eq!(only_wildcard.len(), 1);
    assert_eq!(only_wildcard[0].specification, "/g/");
}

#[test]
fn test_remove_pattern_by_id() {
    let mut config_manager = ConfigManager::new(String::new());
    config_manager.initialize();
    config_manager
        .add_pattern("f.txt".to_string(), "line-number".to_string(), "1".to_string())
        .unwrap();
    let config = config_manager.load_config().unwrap();
    let id = config.files.get("f.txt").unwrap()[0].id.clone();
    config_manager.remove_pattern("f.txt".to_string(), id).unwrap();
    let config = config_manager.load_config().unwrap();
    assert!(config.files.get("f.txt").is_none());
}

#[test]
fn test_validator_reports_each_issue() {
    let validator = StandardValidator::new();
    let mut config_manager = ConfigManager::new(String::new());
    config_manager.initialize();
    config_manager
        .add_pattern("gone.txt".to_string(), "line-number".to_string(), "0".to_string())
        .unwrap();
    config_manager
        .add_pattern("gone.txt".to_string(), "line-number".to_string(), "0".to_string())
        .unwrap();
    let config = config_manager.load_config().unwrap();
    let issues = validator
        .validate_config(&config, &Vec::new())
        .unwrap();
    assert!(issues.contains(&"File not found: gone.txt".to_string()));
    assert!(issues.contains(&"Duplicate line number pattern for line 0".to_string()));
    assert!(issues.contains(&"Line numbers start from 1, not 0".to_string()));
    assert_eq!(issues.iter().filter(|m| m.contains("start from 1")).count(), 2);
}

#[test]
fn test_validator_flags_match_all_regex() {
    let validator = StandardValidator::new();
    let p = IgnorePattern::new("line-regex".to_string(), ".*".to_string()).unwrap();
    let issues = validator.validate_pattern(&p).unwrap();
    assert!(issues.contains(&"Pattern '.*' will match all lines".to_string()));
}

#[test]
fn test_importer_custom_format() {
    let mut importer = FileImporter::new();
    let content = "# comment\n[app.cfg]\nline-regex:/token/\nline-number:3\n\n[other.cfg]\nline-range:1-2\n";
    let imported = importer
        .import_from_file(
            &content.to_string(),
            &"custom".to_string(),
            &String::new(),
        )
        .unwrap();
    let app_patterns = imported.get("app.cfg").unwrap();
    assert_eq!(app_patterns.len(), 2);
    assert!(matches!(app_patterns[0].pattern_type, PatternType::LineRegex));
    assert_eq!(app_patterns[0].specification, "/token/");
    assert_eq!(app_patterns[1].specification, "3");
    let other_patterns = imported.get("other.cfg").unwrap();
    assert_eq!(other_patterns.len(), 1);
    assert_eq!(other_patterns[0].specification, "1-2");
}

#[test]
fn test_importer_gitignore_style() {
    let importer = FileImporter::new();
    let ps = importer
        .parse_gitignore_style("# note\n*.log\ncache?\n\n", "f.txt")
        .unwrap();
    assert_eq!(ps.len(), 2);
    assert_eq!(ps[0].specification, ".*.log");
    assert_eq!(ps[1].specification, "cache.");
}

#[test]
fn test_group_consecutive_lines_runs() {
    let groups = group_consecutive_lines(&vec![5, 1, 2, 3, 7, 8]);
    assert_eq!(groups, vec![vec![1, 2, 3], vec![5], vec![7, 8]]);
    let empty = group_consecutive_lines(&Vec::new());
    assert!(empty.is_empty());
}

#[test]
fn test_split_and_join_lines() {
    let lines = split_lines("a\nb\nc\n");
    assert_eq!(lines, vec!["a", "b", "c"]);
    let lines = split_lines("a\nb\nc");
    assert_eq!(lines, vec!["a", "b", "c"]);
    assert!(split_lines("").is_empty());
    assert_eq!(split_lines("\n"), vec![""]);
    assert_eq!(join_lines(&vec!["a".to_string(), "b".to_string()]), "a\nb");
    let parts = split_substr("a|||b|||c", "|||");
    assert_eq!(parts, vec!["a", "b", "c"]);
}

#[test]
fn test_parse_usize_mirrors_standard_parsing() {
    assert_eq!(parse_usize("42"), Some(42));
    assert_eq!(parse_usize("+7"), Some(7));
    assert_eq!(parse_usize("0"), Some(0));
    assert_eq!(parse_usize(""), None);
    assert_eq!(parse_usize("+"), None);
    assert_eq!(parse_usize("4 2"), None);
    assert_eq!(parse_usize("-1"), None);
    assert_eq!(parse_usize("99999999999999999999999999"), None);
    assert_eq!("42".parse::<usize>().ok(), parse_usize("42"));
    assert_eq!("+7".parse::<usize>().ok(), parse_usize("+7"));
}

#[test]
fn test_decimal_formatting_and_trim() {
    assert_eq!(u64_to_dec(0), "0");
    assert_eq!(u64_to_dec(907), "907");
    assert_eq!(u64_to_dec(u64::MAX), u64::MAX.to_string());
    assert_eq!(trim_str("  padded\t"), "padded");
    assert_eq!(trim_str("   "), "");
}

#[test]
fn test_status_report_lists_covered_files() {
    let mut config_manager = ConfigManager::new(String::new());
    config_manager.initialize();
    config_manager
        .add_pattern("f.txt".to_string(), "line-number".to_string(), "1".to_string())
        .unwrap();
    let config = config_manager.load_config().unwrap();
    let reporter = ConsoleReporter::new();
    let statuses = vec![(
        "f.txt".to_string(),
        FileStatus { exists: true, has_ignored_lines: true, ignored_line_count: 1, total_lines: 4 },
    )];
    let report = reporter.generate_status_report(&config, &statuses).unwrap();
    assert!(report.contains("f.txt"));
    assert!(report.contains("1/4 lines ignored"));
    assert!(report.contains("25.0%"));
    assert!(report.contains("Total files: 1"));
}

#[test]
fn test_error_kinds_have_names() {
    assert_eq!(
        IgnoreError::ValidationError(String::new()).kind_name(),
        "validation error"
    );
    assert_eq!(IgnoreError::IoError(String::new()).kind_name(), "io error");
    assert_eq!(
        IgnoreError::IntegrityMismatch(String::new()).kind_name(),
        "integrity mismatch"
    );
    assert_eq!(
        IgnoreError::VerificationViolation(Vec::new()).kind_name(),
        "verification violation"
    );
}

#[test]
fn test_carriage_return_line_endings() {
    assert_eq!(split_lines("a\r\nb\r\n"), vec!["a", "b"]);
    assert_eq!(split_lines("a\r\nb"), vec!["a", "b"]);
    // a carriage return not followed by a newline stays in the line
    assert_eq!(split_lines("a\rb"), vec!["a\rb"]);
    assert_eq!(split_lines("a\r"), vec!["a\r"]);
    let ps = patterns(&[("line-regex", "/^B=/")]);
    let (cleaned, _) = process_file_content("A=1\r\nB=2\r\nC=3\r\n", &ps).unwrap();
    assert_eq!(cleaned, "A=1\nC=3\n");
}

#[test]
fn test_normalize_version() {
    let normalize_version = git_selective_ignore::strutil::normalize_version;
    assert_eq!(normalize_version("  v1.2.3 "), "1.2.3");
    assert_eq!(normalize_version("VV2.0-RC1"), "2.0-rc1");
    assert_eq!(normalize_version("3.1\u{fe0f}"), "3.1");
    // matches the plain character-level pipeline
    let reference = |v: &str| {
        v.trim()
            .trim_start_matches(['v', 'V'])
            .chars()
            .filter(|c| c.is_ascii())
            .collect::<String>()
            .to_ascii_lowercase()
    };
    for v in ["v1.0", " V0.9.9 ", "release", "vvvV7", "1.0\u{e9}x"] {
        assert_eq!(normalize_version(v), reference(v));
    }
}
