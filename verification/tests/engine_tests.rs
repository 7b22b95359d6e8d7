use std::cell::RefCell;
use std::collections::BTreeMap;
use std::rc::Rc;

use git_selective_ignore::backup::MemoryStorage;
use git_selective_ignore::config::ConfigManager;
use git_selective_ignore::config::FileMap;
use git_selective_ignore::config::SelectiveIgnoreConfig;
use git_selective_ignore::engine::GitClient;
use git_selective_ignore::engine::IgnoreEngine;
use git_selective_ignore::error::IgnoreError;
use git_selective_ignore::pattern::IgnorePattern;

/// An in-memory stand-in for the version-control capability: a working
/// tree and an index, both plain maps.
#[derive(Clone)]
struct MockGit {
    working: Rc<RefCell<BTreeMap<String, String>>>,
    index: Rc<RefCell<BTreeMap<String, String>>>,
}

impl MockGit {
    fn new() -> Self {
        MockGit {
            working: Rc::new(RefCell::new(BTreeMap::new())),
            index: Rc::new(RefCell::new(BTreeMap::new())),
        }
    }

    fn write_and_stage(&self, path: &str, content: &str) {
        self.working
            .borrow_mut()
            .insert(path.to_string(), content.to_string());
        self.index
            .borrow_mut()
            .insert(path.to_string(), content.to_string());
    }

    fn working_content(&self, path: &str) -> String {
        self.working.borrow().get(path).unwrap().clone()
    }

    fn staged_content(&self, path: &str) -> String {
        self.index.borrow().get(path).unwrap().clone()
    }
}

impl GitClient for MockGit {
    fn get_staged_files(&self) -> Result<Vec<String>, IgnoreError> {
        Ok(self.index.borrow().keys().cloned().collect())
    }

    fn read_staged_file_content(&self, path: &String) -> Result<String, IgnoreError> {
        self.index
            .borrow()
            .get(path)
            .cloned()
            .ok_or_else(|| IgnoreError::IoError(format!("not staged: {path}")))
    }

    fn stage_file(&self, path: &String) -> Result<(), IgnoreError> {
        let content = self
            .working
            .borrow()
            .get(path)
            .cloned()
            .ok_or_else(|| IgnoreError::IoError(format!("no such file: {path}")))?;
        self.index.borrow_mut().insert(path.clone(), content);
        Ok(())
    }

    fn get_repo_root(&self) -> String {
        String::new()
    }

    fn get_git_dir(&self) -> String {
        ".git".to_string()
    }

    fn file_exists(&self, path: &String) -> bool {
        self.working.borrow().contains_key(path)
    }

    fn read_working_file(&self, path: &String) -> Result<String, IgnoreError> {
        self.working
            .borrow()
            .get(path)
            .cloned()
            .ok_or_else(|| IgnoreError::IoError(format!("no such file: {path}")))
    }

    fn write_working_file(&self, path: &String, content: &String) -> Result<(), IgnoreError> {
        self.working.borrow_mut().insert(path.clone(), content.clone());
        Ok(())
    }

    fn get_tracked_files(&self) -> Result<Vec<String>, IgnoreError> {
        Ok(self.working.borrow().keys().cloned().collect())
    }
}

fn engine_with(
    config_manager: ConfigManager,
    git: MockGit,
) -> IgnoreEngine<MockGit, MemoryStorage> {
    IgnoreEngine::new(config_manager, git, MemoryStorage::new())
}

#[test]
fn test_dry_run_pre_commit() {
    let git = MockGit::new();
    git.write_and_stage("test.txt", "line1\nIGNORE ME\nline3\n");

    let mut config_manager = ConfigManager::new(String::new());
    config_manager.initialize();
    config_manager
        .add_pattern(
            "test.txt".to_string(),
            "line-regex".to_string(),
            "/IGNORE ME/".to_string(),
        )
        .unwrap();

    let mut engine = engine_with(config_manager, git.clone());
    engine.process_pre_commit(true).unwrap();

    assert_eq!(git.working_content("test.txt"), "line1\nIGNORE ME\nline3\n");
}

#[test]
fn test_actual_pre_commit() {
    let git = MockGit::new();
    git.write_and_stage("test.txt", "line1\nIGNORE ME\nline3\n");

    let mut config_manager = ConfigManager::new(String::new());
    config_manager.initialize();
    config_manager
        .add_pattern(
            "test.txt".to_string(),
            "line-regex".to_string(),
            "/IGNORE ME/".to_string(),
        )
        .unwrap();

    let mut engine = engine_with(config_manager, git.clone());
    engine.process_pre_commit(false).unwrap();

    assert_eq!(git.working_content("test.txt"), "line1\nline3\n");
}

#[test]
fn test_global_config_merge() {
    let git = MockGit::new();
    git.write_and_stage("test.txt", "line1\nGLOBAL\nLOCAL\n");

    let mut global_config = SelectiveIgnoreConfig::default();
    let mut global_files = FileMap::new();
    global_files.push_pattern(
        "all",
        IgnorePattern::new("line-regex".to_string(), "/GLOBAL/".to_string()).unwrap(),
    );
    global_config.files = global_files;

    let mut config_manager = ConfigManager::new(String::new());
    config_manager.set_global_config(global_config);
    config_manager.initialize();
    config_manager
        .add_pattern(
            "test.txt".to_string(),
            "line-regex".to_string(),
            "/LOCAL/".to_string(),
        )
        .unwrap();

    let mut engine = engine_with(config_manager, git.clone());
    engine.process_pre_commit(false).unwrap();

    assert_eq!(git.working_content("test.txt"), "line1\n");
}

#[test]
fn test_core_workflow() {
    let git = MockGit::new();

    let mut config_manager = ConfigManager::new(String::new());
    config_manager.initialize();
    config_manager
        .add_pattern(
            "test.txt".to_string(),
            "line-regex".to_string(),
            "/SECRET/".to_string(),
        )
        .unwrap();

    git.write_and_stage("test.txt", "line 1\nSECRET_KEY = \"12345\"\nline 3\n");

    let mut engine = engine_with(config_manager, git.clone());
    engine.process_pre_commit(false).unwrap();

    let staged_content = git.staged_content("test.txt");
    assert!(
        !staged_content.contains("SECRET_KEY"),
        "Staged content should not contain secret"
    );
    assert!(
        staged_content.contains("line 1"),
        "Staged content should contain line 1"
    );
    assert!(
        staged_content.contains("line 3"),
        "Staged content should contain line 3"
    );

    engine.process_post_commit(false).unwrap();

    let working_content = git.working_content("test.txt");
    assert!(
        working_content.contains("SECRET_KEY"),
        "Working directory content should be restored"
    );
}

#[test]
fn test_verify_command() {
    let git = MockGit::new();
    git.write_and_stage("test.txt", "FORBIDDEN CONTENT\n");

    let mut config_manager = ConfigManager::new(String::new());
    config_manager.initialize();
    config_manager
        .add_pattern(
            "test.txt".to_string(),
            "line-regex".to_string(),
            "/FORBIDDEN/".to_string(),
        )
        .unwrap();

    let mut engine = engine_with(config_manager, git.clone());

    let result = engine.verify_staging();
    assert!(
        result.is_err(),
        "Verify should fail when forbidden content is staged"
    );
}

#[test]
fn test_wildcard_only_file_backed_up_and_restored() {
    let git = MockGit::new();
    git.write_and_stage("alpha.cfg", "keep\ntoken = \"xyz\"\n");

    let mut config_manager = ConfigManager::new(String::new());
    config_manager.initialize();
    config_manager
        .add_pattern(
            "all".to_string(),
            "line-regex".to_string(),
            "token".to_string(),
        )
        .unwrap();

    let mut engine = engine_with(config_manager, git.clone());
    engine.process_pre_commit(false).unwrap();
    assert_eq!(git.working_content("alpha.cfg"), "keep\n");
    assert_eq!(git.staged_content("alpha.cfg"), "keep\n");

    let warnings = engine.process_post_commit(false).unwrap();
    assert!(warnings.is_empty());
    assert_eq!(git.working_content("alpha.cfg"), "keep\ntoken = \"xyz\"\n");
}

#[test]
fn test_restore_refused_after_tampering() {
    let git = MockGit::new();
    git.write_and_stage("secrets.env", "A=1\nB=SECRET\nC=3\n");

    let mut config_manager = ConfigManager::new(String::new());
    config_manager.initialize();
    config_manager
        .add_pattern(
            "secrets.env".to_string(),
            "line-number".to_string(),
            "2".to_string(),
        )
        .unwrap();

    let mut engine = engine_with(config_manager, git.clone());
    engine.process_pre_commit(false).unwrap();
    assert_eq!(git.working_content("secrets.env"), "A=1\nC=3\n");

    // a user edit lands between the clean and the restore
    git.working
        .borrow_mut()
        .insert("secrets.env".to_string(), "A=1\nC=3\nD=4\n".to_string());

    let warnings = engine.process_post_commit(false).unwrap();
    assert_eq!(warnings, vec!["secrets.env".to_string()]);
    assert_eq!(git.working_content("secrets.env"), "A=1\nC=3\nD=4\n");
}

#[test]
fn test_line_number_clean_and_restore_scenario() {
    let git = MockGit::new();
    git.write_and_stage("secrets.env", "A=1\nB=SECRET\nC=3\n");

    let mut config_manager = ConfigManager::new(String::new());
    config_manager.initialize();
    config_manager
        .add_pattern(
            "secrets.env".to_string(),
            "line-number".to_string(),
            "2".to_string(),
        )
        .unwrap();

    let mut engine = engine_with(config_manager, git.clone());
    engine.process_pre_commit(false).unwrap();
    assert_eq!(git.working_content("secrets.env"), "A=1\nC=3\n");
    assert_eq!(git.staged_content("secrets.env"), "A=1\nC=3\n");

    engine.process_post_commit(false).unwrap();
    assert_eq!(git.working_content("secrets.env"), "A=1\nB=SECRET\nC=3\n");
}

#[test]
fn test_show_status_reports_covered_files() {
    let git = MockGit::new();
    git.write_and_stage("noisy.log", "debug: x\ninfo: y\n");

    let mut config_manager = ConfigManager::new(String::new());
    config_manager.initialize();
    config_manager
        .add_pattern(
            "noisy.log".to_string(),
            "line-regex".to_string(),
            "/^debug/".to_string(),
        )
        .unwrap();

    let mut engine = engine_with(config_manager, git.clone());
    let statuses = engine.show_status().unwrap();
    assert_eq!(statuses.len(), 1);
    assert_eq!(statuses[0].0, "noisy.log");
    assert!(statuses[0].1.has_ignored_lines);
    assert_eq!(statuses[0].1.ignored_line_count, 1);
    assert_eq!(statuses[0].1.total_lines, 2);
}
