//! The lifecycle engine: the two-phase clean/restore protocol around a
//! commit, the read-only verification of the staging area, and the status
//! summary. All version-control reads and writes go through the
//! `GitClient` capability its caller supplies.

use vstd::prelude::*;

verus! {

use crate::backup::{BackupData, StorageProvider};
use crate::config::{
    ConfigManager, SelectiveIgnoreConfig, map_patterns_at, clone_patterns,
};
use crate::error::IgnoreError;
use crate::hash::{calculate_hash, spec_hash_string};
use crate::pattern::{IgnorePattern, spec_block_ok, spec_line_match_ok};
use crate::reporter::FileStatus;
use crate::strutil::{spec_lines, split_lines, str_eq};
use crate::transform::{
    process_file_content, spec_cleaned, spec_ignored_map, spec_pattern_ignores, spec_patterns_ok,
};
use vstd::string::StringExecFns;

/// The version-control operations the engine needs, supplied from outside:
/// listing and reading staged content, reading and writing the working
/// tree, and re-staging a path. Nothing is assumed of their results; every
/// decision taken on them is made by the verified code that calls them.
pub trait GitClient {
    /// The paths with staged changes.
    fn get_staged_files(&self) -> Result<Vec<String>, IgnoreError>;

    /// The content of a path as staged in the index.
    fn read_staged_file_content(&self, path: &String) -> Result<String, IgnoreError>;

    /// Adds the path's working-tree content to the index.
    fn stage_file(&self, path: &String) -> Result<(), IgnoreError>;

    /// The repository's root directory.
    fn get_repo_root(&self) -> String;

    /// The repository's metadata directory.
    fn get_git_dir(&self) -> String;

    /// Whether the path exists in the working tree.
    fn file_exists(&self, path: &String) -> bool;

    /// The path's working-tree content.
    fn read_working_file(&self, path: &String) -> Result<String, IgnoreError>;

    /// Overwrites the path's working-tree content.
    fn write_working_file(&self, path: &String, content: &String) -> Result<(), IgnoreError>;

    /// Every tracked path.
    fn get_tracked_files(&self) -> Result<Vec<String>, IgnoreError>;
}

/// The wildcard configuration key that applies to every candidate file.
pub open spec fn wildcard_key() -> Seq<char> {
    "all"@
}

/// The patterns in force for one file during cleaning and verification:
/// the wildcard-scope patterns, then the file's own.
pub open spec fn spec_applicable(
    files: Map<Seq<char>, Seq<IgnorePattern>>,
    path: Seq<char>,
) -> Seq<IgnorePattern> {
    map_patterns_at(files, wildcard_key()) + map_patterns_at(files, path)
}

/// Collects the wildcard-scope patterns followed by the file's own.
pub fn applicable_patterns(config: &SelectiveIgnoreConfig, path: &String) -> (r: Vec<
    IgnorePattern,
>)
    requires
        config.files.wf(),
    ensures
        r@ == spec_applicable(config.files@, path@),
{
    let mut out: Vec<IgnorePattern> = Vec::new();
    match config.files.get("all") {
        Some(g) => {
            let mut c = clone_patterns(g);
            out.append(&mut c);
        },
        None => {},
    }
    let ghost after_wildcard = out@;
    proof {
        assert(after_wildcard =~= map_patterns_at(config.files@, wildcard_key()));
    }
    match config.files.get(path.as_str()) {
        Some(f) => {
            let mut c = clone_patterns(f);
            out.append(&mut c);
        },
        None => {},
    }
    proof {
        assert(out@ =~= spec_applicable(config.files@, path@));
    }
    out
}

/// The patterns reported for one file in the status view: the file's own
/// patterns, then the wildcard-scope ones.
pub open spec fn spec_status_applicable(
    files: Map<Seq<char>, Seq<IgnorePattern>>,
    path: Seq<char>,
) -> Seq<IgnorePattern> {
    map_patterns_at(files, path) + map_patterns_at(files, wildcard_key())
}

/// Collects the file's own patterns followed by the wildcard-scope ones.
pub fn status_patterns(config: &SelectiveIgnoreConfig, path: &String) -> (r: Vec<IgnorePattern>)
    requires
        config.files.wf(),
    ensures
        r@ == spec_status_applicable(config.files@, path@),
{
    let mut out: Vec<IgnorePattern> = Vec::new();
    match config.files.get(path.as_str()) {
        Some(f) => {
            let mut c = clone_patterns(f);
            out.append(&mut c);
        },
        None => {},
    }
    let ghost after_own = out@;
    proof {
        assert(after_own =~= map_patterns_at(config.files@, path@));
    }
    match config.files.get("all") {
        Some(g) => {
            let mut c = clone_patterns(g);
            out.append(&mut c);
        },
        None => {},
    }
    proof {
        assert(out@ =~= spec_status_applicable(config.files@, path@));
    }
    out
}

/// What the clean phase decides for one file.
pub enum CleanOutcome {
    /// The patterns change nothing; the file is left alone.
    Unchanged,
    /// The cleaned text to write, and the record that restores the
    /// original.
    Cleaned(String, BackupData),
}

/// Decides the clean phase for one file: transforms the staged content
/// under the applicable patterns, and when that changes the text, builds
/// the cleaned text together with the backup record — the full original,
/// the removed lines, and the digests of both texts — that the restore
/// phase will consume.
pub fn clean_file_content(content: &String, patterns: &Vec<IgnorePattern>) -> (r: Result<
    CleanOutcome,
    IgnoreError,
>)
    ensures
        r is Ok <==> spec_patterns_ok(patterns@, content@),
        r matches Ok(CleanOutcome::Unchanged) ==> spec_cleaned(content@, patterns@) == content@,
        r matches Ok(CleanOutcome::Cleaned(cleaned, backup)) ==> {
            &&& cleaned@ == spec_cleaned(content@, patterns@)
            &&& cleaned@ != content@
            &&& backup.original_content@ == content@
            &&& backup.ignored_lines@ == spec_ignored_map(content@, patterns@)
            &&& backup.ignored_lines.wf()
            &&& backup.original_file_hash@ == spec_hash_string(content@)
            &&& backup.cleaned_file_hash@ == spec_hash_string(cleaned@)
        },
        r matches Err(e) ==> e is ValidationError,
{
    let (cleaned, ignored) = match process_file_content(content.as_str(), patterns) {
        Ok(pair) => pair,
        Err(e) => {
            return Err(e);
        },
    };
    if cleaned == *content {
        Ok(CleanOutcome::Unchanged)
    } else {
        let original_file_hash = calculate_hash(content.as_str());
        let cleaned_file_hash = calculate_hash(cleaned.as_str());
        let backup = BackupData {
            original_content: content.clone(),
            ignored_lines: ignored,
            original_file_hash,
            cleaned_file_hash,
        };
        Ok(CleanOutcome::Cleaned(cleaned, backup))
    }
}

/// What the restore phase decides for one file with a live record.
pub enum RestoreDecision {
    /// The working tree still holds the cleaned text: write this original
    /// content back.
    Restore(String),
    /// The working tree was modified since cleaning: restoring would lose
    /// those edits, so the restore is refused.
    IntegrityMismatch,
}

/// The integrity gate of the restore phase: the original content is handed
/// back exactly when the current working-tree content still hashes to the
/// record's cleaned-text digest; on any other content the restore is
/// refused.
pub fn restore_decision(current_content: &String, backup: &BackupData) -> (r: RestoreDecision)
    ensures
        r is Restore <==> spec_hash_string(current_content@) == backup.cleaned_file_hash@,
        r matches RestoreDecision::Restore(original) ==> original@ == backup.original_content@,
{
    let current_hash = calculate_hash(current_content.as_str());
    if current_hash == backup.cleaned_file_hash {
        RestoreDecision::Restore(backup.original_content.clone())
    } else {
        RestoreDecision::IntegrityMismatch
    }
}

/// The coverage summary the status path computes for one file: the line
/// total of the content, and exactly how many lines the given patterns
/// ignore. Fails, as the transformer does, exactly when some pattern
/// cannot be interpreted for its kind; with no patterns nothing runs.
pub fn status_for_content(content: &String, patterns: &Vec<IgnorePattern>) -> (r: Result<
    FileStatus,
    IgnoreError,
>)
    ensures
        r is Ok <==> (patterns@.len() == 0 || spec_patterns_ok(patterns@, content@)),
        r matches Ok(st) ==> {
            &&& st.exists
            &&& st.total_lines == spec_lines(content@).len()
            &&& st.ignored_line_count == crate::transform::spec_ignored_count(content@, patterns@)
            &&& st.has_ignored_lines == (st.ignored_line_count > 0)
        },
        r matches Err(e) ==> e is ValidationError,
{
    let lines = split_lines(content.as_str());
    let total_lines = lines.len();
    if patterns.len() == 0 {
        proof {
            assert(crate::transform::spec_ignored_set(content@, patterns@) =~= Set::<
                int,
            >::empty());
        }
        return Ok(
            FileStatus { exists: true, has_ignored_lines: false, ignored_line_count: 0, total_lines },
        );
    }
    match process_file_content(content.as_str(), patterns) {
        Ok((_, ignored)) => {
            let cnt = ignored.len();
            proof {
                crate::transform::lemma_ignored_map_count(ignored, content@, patterns@);
            }
            Ok(
                FileStatus {
                    exists: true,
                    has_ignored_lines: cnt > 0,
                    ignored_line_count: cnt,
                    total_lines,
                },
            )
        },
        Err(e) => Err(e),
    }
}

/// Whether a sequence of strings holds one viewing equal to `s`.
pub open spec fn contains_str(v: Seq<String>, s: Seq<char>) -> bool {
    exists|k: int| 0 <= k < v.len() && (#[trigger] v[k])@ == s
}

/// Linear search for a string among collected paths.
pub fn vec_contains_str(v: &Vec<String>, s: &str) -> (r: bool)
    ensures
        r == contains_str(v@, s@),
{
    let mut k: usize = 0;
    while k < v.len()
        invariant
            0 <= k <= v@.len(),
            forall|m: int| 0 <= m < k ==> (#[trigger] v@[m])@ != s@,
        decreases v@.len() - k,
    {
        if str_eq(v[k].as_str(), s) {
            return true;
        }
        k += 1;
    }
    false
}

/// The violation line the verify path reports for one file and pattern,
/// naming the pattern by its identifier and showing its rule text.
pub open spec fn spec_violation_msg(path: Seq<char>, id: Seq<char>, spec_text: Seq<char>) -> Seq<
    char,
> {
    "  - In file "@ + path + ": pattern "@ + id + " ('"@ + spec_text + "') is present."@
}

/// Whether one pattern, taken alone, still finds a line to ignore in the
/// content.
pub open spec fn spec_pattern_violates(p: IgnorePattern, content: Seq<char>) -> bool {
    exists|k: int|
        0 <= k < crate::strutil::spec_lines(content).len() && spec_pattern_ignores(p, content, k)
}

/// The violation lines for one file, in pattern order: one line for each
/// pattern that still finds something to ignore.
pub open spec fn spec_file_violations(
    path: Seq<char>,
    content: Seq<char>,
    ps: Seq<IgnorePattern>,
    i: int,
) -> Seq<Seq<char>>
    decreases ps.len() - i,
{
    if i < 0 || i >= ps.len() {
        Seq::empty()
    } else {
        let head: Seq<Seq<char>> = if spec_pattern_violates(ps[i], content) {
            seq![spec_violation_msg(path, ps[i].id@, ps[i].specification@)]
        } else {
            Seq::empty()
        };
        head + spec_file_violations(path, content, ps, i + 1)
    }
}

/// Checks one file's staged content against each applicable pattern
/// separately: exactly the patterns that still find lines to ignore are
/// reported, each as one violation line. Fails exactly when some
/// pattern's specification cannot be interpreted for its kind.
pub fn verify_file_content(path: &String, content: &String, patterns: &Vec<IgnorePattern>) -> (r:
    Result<Vec<String>, IgnoreError>)
    ensures
        r is Ok <==> spec_patterns_ok(patterns@, content@),
        r matches Ok(v) ==> v@.map_values(|s: String| s@) == spec_file_violations(
            path@,
            content@,
            patterns@,
            0,
        ),
        r matches Err(e) ==> e is ValidationError,
{
    let mut violations: Vec<String> = Vec::new();
    let mut pi: usize = 0;
    proof {
        assert(violations@.map_values(|s: String| s@) + spec_file_violations(
            path@,
            content@,
            patterns@,
            0,
        ) =~= spec_file_violations(path@, content@, patterns@, 0));
    }
    while pi < patterns.len()
        invariant
            0 <= pi <= patterns@.len(),
            spec_file_violations(path@, content@, patterns@, 0) == violations@.map_values(
                |s: String| s@,
            ) + spec_file_violations(path@, content@, patterns@, pi as int),
            forall|q: int|
                0 <= q < pi ==> spec_block_ok(#[trigger] patterns@[q]) && (spec_lines(
                    content@,
                ).len() == 0 || spec_line_match_ok(patterns@[q])),
        decreases patterns@.len() - pi,
    {
        let mut single: Vec<IgnorePattern> = Vec::new();
        single.push(patterns[pi].clone());
        proof {
            assert(single@ =~= seq![patterns@[pi as int]]);
        }
        match process_file_content(content.as_str(), &single) {
            Ok((_, ignored)) => {
                let has = !ignored.is_empty();
                proof {
                    let p = patterns@[pi as int];
                    assert(spec_patterns_ok(single@, content@));
                    assert(spec_block_ok(#[trigger] single@[0]) && (spec_lines(content@).len()
                        == 0 || spec_line_match_ok(single@[0])));
                    assert(spec_block_ok(p) && (spec_lines(content@).len() == 0
                        || spec_line_match_ok(p)));
                    if has {
                        assert(ignored@ != Map::<int, Seq<char>>::empty());
                        if !spec_pattern_violates(p, content@) {
                            assert(ignored@ =~= Map::<int, Seq<char>>::empty()) by {
                                assert forall|k: int| !(#[trigger] ignored@.contains_key(k)) by {
                                    if ignored@.contains_key(k) {
                                        assert(crate::transform::spec_ignored(
                                            single@,
                                            content@,
                                            k,
                                        ));
                                        let w = choose|qi: int|
                                            0 <= qi < single@.len() && spec_pattern_ignores(
                                                #[trigger] single@[qi],
                                                content@,
                                                k,
                                            );
                                        assert(single@[w] == p);
                                    }
                                }
                            }
                        }
                        assert(spec_pattern_violates(p, content@));
                    } else {
                        if spec_pattern_violates(p, content@) {
                            let k = choose|k: int|
                                0 <= k < spec_lines(content@).len() && spec_pattern_ignores(
                                    p,
                                    content@,
                                    k,
                                );
                            assert(spec_pattern_ignores(single@[0], content@, k));
                            assert(crate::transform::spec_ignored(single@, content@, k));
                            assert(ignored@.contains_key(k));
                        }
                        assert(!spec_pattern_violates(p, content@));
                    }
                }
                if has {
                    violations.push(
                        violation_message(path, &patterns[pi].id, &patterns[pi].specification),
                    );
                    proof {
                        assert(violations@.map_values(|s: String| s@) =~= violations@.subrange(
                            0,
                            violations@.len() - 1,
                        ).map_values(|s: String| s@).push(
                            spec_violation_msg(
                                path@,
                                patterns@[pi as int].id@,
                                patterns@[pi as int].specification@,
                            ),
                        ));
                    }
                }
            },
            Err(e) => {
                proof {
                    let p = patterns@[pi as int];
                    assert(!spec_patterns_ok(single@, content@));
                    assert(!(spec_block_ok(p) && (spec_lines(content@).len() == 0
                        || spec_line_match_ok(p)))) by {
                        if spec_block_ok(p) && (spec_lines(content@).len() == 0
                            || spec_line_match_ok(p)) {
                            assert(forall|q: int|
                                0 <= q < single@.len() ==> spec_block_ok(#[trigger] single@[q]) && (
                                spec_lines(content@).len() == 0 || spec_line_match_ok(
                                    single@[q],
                                )));
                        }
                    }
                }
                return Err(e);
            },
        }
        pi += 1;
    }
    proof {
        assert(spec_file_violations(path@, content@, patterns@, patterns@.len() as int) =~= Seq::<
            Seq<char>,
        >::empty());
        assert(violations@.map_values(|s: String| s@) =~= spec_file_violations(
            path@,
            content@,
            patterns@,
            0,
        ));
    }
    Ok(violations)
}

/// Builds one verify-path violation line.
fn violation_message(path: &String, id: &String, spec_text: &String) -> (r: String)
    ensures
        r@ == spec_violation_msg(path@, id@, spec_text@),
{
    let mut msg = String::from_str("  - In file ");
    msg.append(path.as_str());
    msg.append(": pattern ");
    msg.append(id.as_str());
    msg.append(" ('");
    msg.append(spec_text.as_str());
    msg.append("') is present.");
    msg
}

/// A record the clean phase may store for a path: each digest is the
/// digest of the record's own text, the cleaned text differs from the
/// original, and the removed lines are exactly the transformer's.
pub open spec fn record_coherent(b: BackupData, ps: Seq<IgnorePattern>) -> bool {
    &&& b.original_file_hash@ == spec_hash_string(b.original_content@)
    &&& b.cleaned_file_hash@ == spec_hash_string(spec_cleaned(b.original_content@, ps))
    &&& spec_cleaned(b.original_content@, ps) != b.original_content@
    &&& b.ignored_lines@ == spec_ignored_map(b.original_content@, ps)
}

/// What the clean phase does to the store: records are only added or
/// replaced, never consumed, and every added or replaced record is
/// coherent for its own path's applicable patterns.
pub open spec fn clean_phase_records_ok(
    old_store: Map<Seq<char>, BackupData>,
    new_store: Map<Seq<char>, BackupData>,
    files: Map<Seq<char>, Seq<IgnorePattern>>,
) -> bool {
    &&& forall|p: Seq<char>| old_store.contains_key(p) ==> #[trigger] new_store.contains_key(p)
    &&& forall|p: Seq<char>|
        #[trigger] new_store.contains_key(p) ==> ((old_store.contains_key(p) && new_store[p]
            == old_store[p]) || record_coherent(new_store[p], spec_applicable(files, p)))
}

/// What the restore phase does to the store: records are only consumed,
/// never added or changed.
pub open spec fn store_shrunk(
    old_store: Map<Seq<char>, BackupData>,
    new_store: Map<Seq<char>, BackupData>,
) -> bool {
    forall|p: Seq<char>|
        #[trigger] new_store.contains_key(p) ==> old_store.contains_key(p) && new_store[p]
            == old_store[p]
}

/// Normalizes an error handed up by the outside capability: a violation
/// report is only ever produced by the verify path itself, so an empty
/// one arriving from a capability is surfaced as an input/output failure.
fn capability_error(e: IgnoreError) -> (r: IgnoreError)
    ensures
        r matches IgnoreError::VerificationViolation(v) ==> v@.len() > 0,
{
    match e {
        IgnoreError::VerificationViolation(v) => {
            if v.len() > 0 {
                IgnoreError::VerificationViolation(v)
            } else {
                IgnoreError::IoError(String::from_str("the capability reported no detail"))
            }
        },
        other => other,
    }
}

/// Orchestrates the commit lifecycle for one repository: cleaning staged
/// files before a commit, restoring them afterwards, verifying that no
/// ignored content is staged, and summarizing coverage. Holds the merged
/// configuration source, a backup store, and the version-control
/// capability.
pub struct IgnoreEngine<G: GitClient, S: StorageProvider> {
    /// The configuration scopes in force.
    pub config_manager: ConfigManager,
    /// Where backup records live between the two phases.
    pub storage: S,
    /// The version-control capability.
    pub git_client: G,
}

impl<G: GitClient, S: StorageProvider> IgnoreEngine<G, S> {
    /// The configuration scopes and the store are well formed.
    pub open spec fn inv(&self) -> bool {
        self.config_manager.inv() && self.storage.inv()
    }

    /// An engine over the given configuration, store and capability.
    pub fn new(config_manager: ConfigManager, git_client: G, storage: S) -> (r: Self)
        requires
            config_manager.inv(),
            storage.inv(),
        ensures
            r.inv(),
            r.config_manager == config_manager,
            r.git_client == git_client,
            r.storage == storage,
    {
        IgnoreEngine { config_manager, storage, git_client }
    }

    /// The clean phase, run before a commit: for every staged file that
    /// carries applicable patterns, reads the staged content, and where
    /// the transform changes it, stores a backup record, writes the
    /// cleaned text to the working tree and re-stages the file. Returns
    /// the re-staged paths. A dry run decides everything but performs no
    /// store, write or re-stage.
    pub fn process_pre_commit(&mut self, dry_run: bool) -> (r: Result<Vec<String>, IgnoreError>)
        requires
            old(self).inv(),
        ensures
            final(self).inv(),
            final(self).config_manager == old(self).config_manager,
            final(self).git_client == old(self).git_client,
            dry_run ==> final(self).storage == old(self).storage,
            dry_run ==> (r matches Ok(v) ==> v@.len() == 0),
            clean_phase_records_ok(
                old(self).storage.backups_view(),
                final(self).storage.backups_view(),
                old(self).config_manager.merged_files(),
            ),
    {
        let ghost old_store = old(self).storage.backups_view();
        let ghost merged = old(self).config_manager.merged_files();
        let config = match self.config_manager.load_config() {
            Ok(c) => c,
            Err(e) => {
                return Err(e);
            },
        };
        let staged_files = match self.git_client.get_staged_files() {
            Ok(v) => v,
            Err(e) => {
                return Err(e);
            },
        };
        let mut files_to_add: Vec<String> = Vec::new();
        let mut idx: usize = 0;
        while idx < staged_files.len()
            invariant
                self.config_manager == old(self).config_manager,
                self.git_client == old(self).git_client,
                self.storage.inv(),
                self.config_manager.inv(),
                dry_run ==> self.storage == old(self).storage,
                dry_run ==> files_to_add@.len() == 0,
                config.files.wf(),
                config.files@ == merged,
                old_store == old(self).storage.backups_view(),
                merged == old(self).config_manager.merged_files(),
                clean_phase_records_ok(old_store, self.storage.backups_view(), merged),
            decreases staged_files@.len() - idx,
        {
            let file_path = &staged_files[idx];
            let all_patterns = applicable_patterns(&config, file_path);
            if all_patterns.len() > 0 {
                let original_content = match self.git_client.read_staged_file_content(file_path) {
                    Ok(c) => c,
                    Err(e) => {
                        return Err(e);
                    },
                };
                match clean_file_content(&original_content, &all_patterns) {
                    Ok(CleanOutcome::Unchanged) => {},
                    Ok(CleanOutcome::Cleaned(cleaned, backup)) => {
                        if !dry_run {
                            let ghost pre = self.storage.backups_view();
                            let ghost stored = backup;
                            match self.storage.store_backup(file_path.as_str(), backup) {
                                Ok(()) => {},
                                Err(e) => {
                                    return Err(e);
                                },
                            }
                            proof {
                                let now = self.storage.backups_view();
                                assert(now == pre.insert(file_path@, stored));
                                assert(record_coherent(stored, spec_applicable(merged, file_path@)));
                                assert forall|p: Seq<char>| #[trigger] now.contains_key(p) implies ((
                                old_store.contains_key(p) && now[p] == old_store[p])
                                    || record_coherent(now[p], spec_applicable(merged, p))) by {
                                    if p == file_path@ {
                                    } else {
                                        assert(pre.contains_key(p));
                                    }
                                }
                                assert(clean_phase_records_ok(old_store, now, merged));
                            }
                            match self.git_client.write_working_file(file_path, &cleaned) {
                                Ok(()) => {},
                                Err(e) => {
                                    return Err(e);
                                },
                            }
                            files_to_add.push(file_path.clone());
                        }
                    },
                    Err(e) => {
                        return Err(e);
                    },
                }
            }
            idx += 1;
        }
        if !dry_run {
            let mut k: usize = 0;
            while k < files_to_add.len()
                invariant
                    !dry_run,
                    self.config_manager == old(self).config_manager,
                    self.git_client == old(self).git_client,
                    self.storage.inv(),
                    self.config_manager.inv(),
                    old_store == old(self).storage.backups_view(),
                    merged == old(self).config_manager.merged_files(),
                    clean_phase_records_ok(old_store, self.storage.backups_view(), merged),
                decreases files_to_add@.len() - k,
            {
                match self.git_client.stage_file(&files_to_add[k]) {
                    Ok(()) => {},
                    Err(e) => {
                        return Err(e);
                    },
                }
                k += 1;
            }
        }
        Ok(files_to_add)
    }

    /// Restores one path from a consumed backup record, honouring the
    /// integrity condition; pushes the path onto `warnings` when the
    /// restore is refused.
    fn restore_one(
        &mut self,
        path: &String,
        backup: BackupData,
        dry_run: bool,
        warnings: &mut Vec<String>,
    ) -> (r: Result<(), IgnoreError>)
        requires
            old(self).inv(),
        ensures
            final(self).inv(),
            final(self).config_manager == old(self).config_manager,
            final(self).git_client == old(self).git_client,
            final(self).storage == old(self).storage,
            old(warnings)@.len() <= final(warnings)@.len(),
            forall|k: int|
                0 <= k < old(warnings)@.len()
                    ==> #[trigger] final(warnings)@[k] == old(warnings)@[k],
            forall|k: int|
                old(warnings)@.len() <= k < final(warnings)@.len()
                    ==> (#[trigger] final(warnings)@[k])@ == path@,
    {
        if self.git_client.file_exists(path) {
            let current = match self.git_client.read_working_file(path) {
                Ok(c) => c,
                Err(e) => {
                    return Err(e);
                },
            };
            match restore_decision(&current, &backup) {
                RestoreDecision::Restore(original) => {
                    if !dry_run {
                        match self.git_client.write_working_file(path, &original) {
                            Ok(()) => {},
                            Err(e) => {
                                return Err(e);
                            },
                        }
                    }
                },
                RestoreDecision::IntegrityMismatch => {
                    warnings.push(path.clone());
                },
            }
        }
        Ok(())
    }

    /// The restore phase, run after a commit: consumes the backup record
    /// of every explicitly configured path and, when wildcard patterns are
    /// in force, of every remaining recorded path, writing the original
    /// content back only where the working tree still holds the cleaned
    /// text. Returns the paths whose restore the integrity gate refused.
    /// Afterwards, when the auto-cleanup setting is on and this is not a
    /// dry run, discards all remaining records.
    pub fn process_post_commit(&mut self, dry_run: bool) -> (r: Result<Vec<String>, IgnoreError>)
        requires
            old(self).inv(),
        ensures
            final(self).inv(),
            final(self).config_manager == old(self).config_manager,
            final(self).git_client == old(self).git_client,
            store_shrunk(old(self).storage.backups_view(), final(self).storage.backups_view()),
            r is Ok ==> forall|p: Seq<char>|
                old(self).config_manager.merged_files().contains_key(p) && p != wildcard_key()
                    ==> !(#[trigger] final(self).storage.backups_view().contains_key(p)),
            r is Ok && old(self).config_manager.merged_files().contains_key(wildcard_key())
                ==> final(self).storage.backups_view() == Map::<Seq<char>, BackupData>::empty(),
            r matches Ok(w) ==> forall|k: int|
                0 <= k < w@.len() ==> old(self).storage.backups_view().contains_key(
                    (#[trigger] w@[k])@,
                ),
            r is Ok && !dry_run && old(self).config_manager.merged_settings().auto_cleanup
                ==> final(self).storage.backups_view() == Map::<Seq<char>, BackupData>::empty(),
    {
        let ghost old_store = old(self).storage.backups_view();
        let ghost merged = old(self).config_manager.merged_files();
        let config = match self.config_manager.load_config() {
            Ok(c) => c,
            Err(e) => {
                return Err(e);
            },
        };
        proof {
            crate::config::lemma_files_map_keys(config.files.entries@);
        }
        let mut warnings: Vec<String> = Vec::new();
        let mut idx: usize = 0;
        while idx < config.files.len()
            invariant
                self.config_manager == old(self).config_manager,
                self.git_client == old(self).git_client,
                self.storage.inv(),
                self.config_manager.inv(),
                config.files.wf(),
                config.files@ == merged,
                old_store == old(self).storage.backups_view(),
                merged == old(self).config_manager.merged_files(),
                idx <= config.files.entries@.len(),
                store_shrunk(old_store, self.storage.backups_view()),
                forall|k: int|
                    0 <= k < idx ==> (#[trigger] config.files.entries@[k]).path@ == wildcard_key()
                        || !self.storage.backups_view().contains_key(
                        config.files.entries@[k].path@,
                    ),
                forall|k: int|
                    0 <= k < warnings@.len() ==> old_store.contains_key((#[trigger] warnings@[k])@),
            decreases config.files.entries@.len() - idx,
        {
            let path = &config.files.entries[idx].path;
            if !str_eq(path.as_str(), "all") {
                let ghost pre = self.storage.backups_view();
                match self.storage.restore_backup(path.as_str()) {
                    Ok(Some(backup)) => {
                        proof {
                            assert(pre.contains_key(path@));
                            assert(old_store.contains_key(path@));
                            assert(store_shrunk(old_store, self.storage.backups_view()));
                        }
                        let p = path.clone();
                        match self.restore_one(&p, backup, dry_run, &mut warnings) {
                            Ok(()) => {},
                            Err(e) => {
                                return Err(e);
                            },
                        }
                    },
                    Ok(None) => {},
                    Err(e) => {
                        return Err(e);
                    },
                }
            } else {
                proof {
                    assert(config.files.entries@[idx as int].path@ == wildcard_key());
                }
            }
            idx += 1;
        }
        proof {
            assert forall|p: Seq<char>|
                merged.contains_key(p) && p != wildcard_key() implies !(
            #[trigger] self.storage.backups_view().contains_key(p)) by {
                let w = choose|k: int|
                    0 <= k < config.files.entries@.len() && (#[trigger] config.files.entries@[
                    k]).path@ == p;
                assert(config.files.entries@[w].path@ != wildcard_key());
            }
        }
        let ghost post_explicit = self.storage.backups_view();
        let has_wildcard = match config.files.get("all") {
            Some(_) => true,
            None => false,
        };
        if has_wildcard {
            let keys = match self.storage.get_all_backup_keys() {
                Ok(v) => v,
                Err(e) => {
                    return Err(e);
                },
            };
            let mut k: usize = 0;
            while k < keys.len()
                invariant
                    self.config_manager == old(self).config_manager,
                    self.git_client == old(self).git_client,
                    self.storage.inv(),
                    self.config_manager.inv(),
                    config.files.wf(),
                    config.files@ == merged,
                    old_store == old(self).storage.backups_view(),
                    merged == old(self).config_manager.merged_files(),
                    store_shrunk(old_store, self.storage.backups_view()),
                    store_shrunk(post_explicit, self.storage.backups_view()),
                    crate::backup::keys_cover(keys@, post_explicit),
                    forall|p: Seq<char>|
                        merged.contains_key(p) && p != wildcard_key()
                            ==> !(#[trigger] post_explicit.contains_key(p)),
                    forall|p: Seq<char>|
                        merged.contains_key(p) && p != wildcard_key() ==> !(
                        #[trigger] self.storage.backups_view().contains_key(p)),
                    forall|m: int|
                        0 <= m < k ==> !self.storage.backups_view().contains_key(
                            (#[trigger] keys@[m])@,
                        ),
                    forall|m: int|
                        0 <= m < warnings@.len() ==> old_store.contains_key(
                            (#[trigger] warnings@[m])@,
                        ),
                decreases keys@.len() - k,
            {
                let key = &keys[k];
                let is_specific = match config.files.get(key.as_str()) {
                    Some(_) => !str_eq(key.as_str(), "all"),
                    None => false,
                };
                if !is_specific {
                    let ghost pre = self.storage.backups_view();
                    match self.storage.restore_backup(key.as_str()) {
                        Ok(Some(backup)) => {
                            proof {
                                assert(old_store.contains_key(key@));
                            }
                            let p = key.clone();
                            match self.restore_one(&p, backup, dry_run, &mut warnings) {
                                Ok(()) => {},
                                Err(e) => {
                                    return Err(e);
                                },
                            }
                        },
                        Ok(None) => {},
                        Err(e) => {
                            return Err(e);
                        },
                    }
                } else {
                    proof {
                        // a path with its own entry was already consumed,
                        // so its record cannot still be listed
                        assert(merged.contains_key(key@) && key@ != wildcard_key());
                        assert(!post_explicit.contains_key(key@));
                        assert(post_explicit.contains_key(keys@[k as int]@));
                        assert(false);
                    }
                }
                k += 1;
            }
            proof {
                assert forall|p: Seq<char>|
                    !(#[trigger] self.storage.backups_view().contains_key(p)) by {
                    if self.storage.backups_view().contains_key(p) {
                        assert(post_explicit.contains_key(p));
                        let w = choose|m: int|
                            0 <= m < keys@.len() && (#[trigger] keys@[m])@ == p;
                        assert(!self.storage.backups_view().contains_key(keys@[w]@));
                    }
                }
                assert(self.storage.backups_view() =~= Map::<Seq<char>, BackupData>::empty());
            }
        }
        if config.global_settings.auto_cleanup && !dry_run {
            match self.storage.cleanup() {
                Ok(()) => {},
                Err(e) => {
                    return Err(e);
                },
            }
        }
        Ok(warnings)
    }

    /// The read-only verification path: transforms every staged file's
    /// content against each applicable pattern separately, and fails with
    /// the full list of violations if any pattern still finds lines to
    /// ignore. Nothing is mutated.
    pub fn verify_staging(&mut self) -> (r: Result<(), IgnoreError>)
        requires
            old(self).inv(),
        ensures
            *final(self) == *old(self),
            r matches Err(e) ==> (e matches IgnoreError::VerificationViolation(v) ==> v@.len()
                > 0),
    {
        let config = match self.config_manager.load_config() {
            Ok(c) => c,
            Err(e) => {
                return Err(capability_error(e));
            },
        };
        let staged_files = match self.git_client.get_staged_files() {
            Ok(v) => v,
            Err(e) => {
                return Err(capability_error(e));
            },
        };
        let mut violations: Vec<String> = Vec::new();
        let mut idx: usize = 0;
        while idx < staged_files.len()
            invariant
                config.files.wf(),
                *self == *old(self),
            decreases staged_files@.len() - idx,
        {
            let file_path = &staged_files[idx];
            let all_patterns = applicable_patterns(&config, file_path);
            if all_patterns.len() > 0 {
                let content = match self.git_client.read_staged_file_content(file_path) {
                    Ok(c) => c,
                    Err(e) => {
                        return Err(capability_error(e));
                    },
                };
                let mut file_violations = match verify_file_content(
                    file_path,
                    &content,
                    &all_patterns,
                ) {
                    Ok(v) => v,
                    Err(e) => {
                        return Err(e);
                    },
                };
                violations.append(&mut file_violations);
            }
            idx += 1;
        }
        if violations.len() > 0 {
            return Err(IgnoreError::VerificationViolation(violations));
        }
        Ok(())
    }

    /// The read-only status path: collects every file the configuration
    /// could affect — the explicitly configured paths, plus every tracked
    /// or staged file when wildcard patterns exist — and reports, for each
    /// file whose working-tree content has lines the patterns would
    /// ignore, how many of its lines are covered.
    pub fn show_status(&mut self) -> (r: Result<Vec<(String, FileStatus)>, IgnoreError>)
        requires
            old(self).inv(),
        ensures
            *final(self) == *old(self),
            r matches Ok(v) ==> forall|k: int|
                0 <= k < v@.len() ==> (#[trigger] v@[k]).1.has_ignored_lines && v@[k].1.exists
                    && v@[k].1.ignored_line_count > 0,
    {
        let config = match self.config_manager.load_config() {
            Ok(c) => c,
            Err(e) => {
                return Err(e);
            },
        };
        let mut files_to_check: Vec<String> = Vec::new();
        let mut idx: usize = 0;
        while idx < config.files.len()
            invariant
                config.files.wf(),
                *self == *old(self),
                idx <= config.files.entries@.len(),
            decreases config.files.entries@.len() - idx,
        {
            let path = &config.files.entries[idx].path;
            if !str_eq(path.as_str(), "all") && !vec_contains_str(&files_to_check, path.as_str()) {
                files_to_check.push(path.clone());
            }
            idx += 1;
        }
        let has_wildcard = match config.files.get("all") {
            Some(_) => true,
            None => false,
        };
        if has_wildcard {
            let repo_files = match self.git_client.get_tracked_files() {
                Ok(v) => v,
                Err(e) => {
                    return Err(e);
                },
            };
            let mut t: usize = 0;
            while t < repo_files.len()
                invariant
                    *self == *old(self),
                decreases repo_files@.len() - t,
            {
                if !vec_contains_str(&files_to_check, repo_files[t].as_str()) {
                    files_to_check.push(repo_files[t].clone());
                }
                t += 1;
            }
            let staged = match self.git_client.get_staged_files() {
                Ok(v) => v,
                Err(e) => {
                    return Err(e);
                },
            };
            let mut s: usize = 0;
            while s < staged.len()
                invariant
                    *self == *old(self),
                decreases staged@.len() - s,
            {
                if !vec_contains_str(&files_to_check, staged[s].as_str()) {
                    files_to_check.push(staged[s].clone());
                }
                s += 1;
            }
        }
        let mut out: Vec<(String, FileStatus)> = Vec::new();
        let mut f: usize = 0;
        while f < files_to_check.len()
            invariant
                config.files.wf(),
                *self == *old(self),
                forall|k: int|
                    0 <= k < out@.len() ==> (#[trigger] out@[k]).1.has_ignored_lines
                        && out@[k].1.exists && out@[k].1.ignored_line_count > 0,
            decreases files_to_check@.len() - f,
        {
            let path = &files_to_check[f];
            if self.git_client.file_exists(path) {
                let content = match self.git_client.read_working_file(path) {
                    Ok(c) => c,
                    Err(e) => {
                        return Err(e);
                    },
                };
                let pats = status_patterns(&config, path);
                if pats.len() > 0 {
                    match status_for_content(&content, &pats) {
                        Ok(status) => {
                            if status.has_ignored_lines {
                                out.push((path.clone(), status));
                            }
                        },
                        Err(e) => {
                            return Err(e);
                        },
                    }
                }
            }
            f += 1;
        }
        Ok(out)
    }
}

/// Sorts the matched line numbers and groups them into maximal runs of
/// consecutive values, for compact display.
pub fn group_consecutive_lines(lines: &Vec<usize>) -> (r: Vec<Vec<usize>>)
    ensures
        lines@.len() == 0 ==> r@.len() == 0,
        r@.map_values(|g: Vec<usize>| g@).flatten().to_multiset() == lines@.to_multiset(),
        forall|g: int| 0 <= g < r@.len() ==> (#[trigger] r@[g])@.len() > 0,
        forall|g: int, j: int|
            0 <= g < r@.len() && 0 < j < r@[g]@.len() ==> #[trigger] r@[g]@[j] == r@[g]@[j - 1]
                + 1,
        forall|g: int|
            0 < g < r@.len() ==> (#[trigger] r@[g])@[0] != r@[g - 1]@[r@[g - 1]@.len() - 1] + 1,
        forall|g: int|
            0 < g < r@.len() ==> (#[trigger] r@[g])@[0] >= r@[g - 1]@[r@[g - 1]@.len() - 1],
{
    let sorted = sort_usizes(lines);
    let mut groups: Vec<Vec<usize>> = Vec::new();
    if sorted.len() == 0 {
        proof {
            assert(groups@.map_values(|g: Vec<usize>| g@).flatten() =~= Seq::<usize>::empty());
            assert(lines@ =~= Seq::<usize>::empty());
        }
        return groups;
    }
    let mut current: Vec<usize> = Vec::new();
    current.push(sorted[0]);
    let mut i: usize = 1;
    while i < sorted.len()
        invariant
            1 <= i <= sorted@.len(),
            current@.len() > 0,
            forall|j: int| 0 < j < current@.len() ==> #[trigger] current@[j] == current@[j - 1] + 1,
            forall|g: int| 0 <= g < groups@.len() ==> (#[trigger] groups@[g])@.len() > 0,
            forall|g: int, j: int|
                0 <= g < groups@.len() && 0 < j < groups@[g]@.len() ==> #[trigger] groups@[g]@[j]
                    == groups@[g]@[j - 1] + 1,
            forall|g: int|
                0 < g < groups@.len() ==> (#[trigger] groups@[g])@[0] != groups@[g - 1]@[groups@[g
                    - 1]@.len() - 1] + 1,
            forall|g: int|
                0 < g < groups@.len() ==> (#[trigger] groups@[g])@[0] >= groups@[g - 1]@[groups@[g
                    - 1]@.len() - 1],
            groups@.len() > 0 ==> current@[0] != groups@[groups@.len() - 1]@[groups@[groups@.len()
                - 1]@.len() - 1] + 1,
            groups@.len() > 0 ==> current@[0] >= groups@[groups@.len() - 1]@[groups@[groups@.len()
                - 1]@.len() - 1],
            groups@.map_values(|g: Vec<usize>| g@).flatten() + current@ == sorted@.subrange(
                0,
                i as int,
            ),
            sorted@.to_multiset() == lines@.to_multiset(),
            sorted@.len() == lines@.len(),
            forall|a: int, b: int| 0 <= a < b < sorted@.len() ==> sorted@[a] <= sorted@[b],
        decreases sorted@.len() - i,
    {
        let line = sorted[i];
        let last = current[current.len() - 1];
        if last < usize::MAX && line == last + 1 {
            let ghost cur_before = current@;
            current.push(line);
            proof {
                let flat = groups@.map_values(|g: Vec<usize>| g@).flatten();
                assert(current@ =~= cur_before.push(line));
                assert(sorted@.subrange(0, i + 1) =~= sorted@.subrange(0, i as int).push(
                    sorted@[i as int],
                ));
                assert(flat + current@ =~= (flat + cur_before).push(line));
                assert(flat + current@ =~= sorted@.subrange(0, i + 1));
            }
        } else {
            proof {
                assert(sorted@[i - 1] <= sorted@[i as int]);
                let flat = groups@.map_values(|g: Vec<usize>| g@).flatten();
                assert((flat + current@).last() == current@.last());
                assert(sorted@.subrange(0, i as int).last() == sorted@[i - 1]);
                assert(current@.last() == sorted@[i - 1]);
            }
            let ghost old_groups = groups@;
            groups.push(current);
            current = Vec::new();
            current.push(line);
            proof {
                assert(groups@.map_values(|g: Vec<usize>| g@) =~= old_groups.map_values(
                    |g: Vec<usize>| g@,
                ).push(groups@[groups@.len() - 1]@));
                old_groups.map_values(|g: Vec<usize>| g@).lemma_flatten_push(groups@[groups@.len()
                    - 1]@);
                assert(current@ =~= seq![line]);
                assert(sorted@.subrange(0, i + 1) =~= sorted@.subrange(0, i as int).push(
                    sorted@[i as int],
                ));
                assert(groups@.map_values(|g: Vec<usize>| g@).flatten() + current@
                    =~= sorted@.subrange(0, i + 1));
            }
        }
        i += 1;
    }
    let ghost old_groups = groups@;
    groups.push(current);
    proof {
        assert(groups@.map_values(|g: Vec<usize>| g@) =~= old_groups.map_values(
            |g: Vec<usize>| g@,
        ).push(groups@[groups@.len() - 1]@));
        old_groups.map_values(|g: Vec<usize>| g@).lemma_flatten_push(groups@[groups@.len() - 1]@);
        assert(sorted@.subrange(0, sorted@.len() as int) =~= sorted@);
        assert(groups@.map_values(|g: Vec<usize>| g@).flatten() =~= sorted@);
    }
    groups
}

/// Sorts line numbers ascending, keeping the multiset of values.
fn sort_usizes(v: &Vec<usize>) -> (r: Vec<usize>)
    ensures
        r@.to_multiset() == v@.to_multiset(),
        r@.len() == v@.len(),
        forall|a: int, b: int| 0 <= a < b < r@.len() ==> r@[a] <= r@[b],
{
    let mut rest: Vec<usize> = Vec::new();
    let mut i: usize = 0;
    while i < v.len()
        invariant
            0 <= i <= v@.len(),
            rest@ == v@.subrange(0, i as int),
        decreases v@.len() - i,
    {
        rest.push(v[i]);
        proof {
            assert(rest@ =~= v@.subrange(0, i + 1));
        }
        i += 1;
    }
    proof {
        assert(rest@ =~= v@);
    }
    let mut out: Vec<usize> = Vec::new();
    proof {
        assert forall|a: usize| #[trigger] out@.to_multiset().count(a) == 0 by {
            out@.to_multiset_ensures();
            assert(!out@.contains(a));
        }
        assert(out@.to_multiset().add(rest@.to_multiset()) =~= rest@.to_multiset());
    }
    while rest.len() > 0
        invariant
            out@.to_multiset().add(rest@.to_multiset()) == v@.to_multiset(),
            out@.len() + rest@.len() == v@.len(),
            forall|a: int, b: int| 0 <= a < b < out@.len() ==> out@[a] <= out@[b],
            forall|a: int, b: int|
                0 <= a < out@.len() && 0 <= b < rest@.len() ==> out@[a] <= rest@[b],
        decreases rest@.len(),
    {
        let mut min_idx: usize = 0;
        let mut j: usize = 1;
        while j < rest.len()
            invariant
                0 <= min_idx < rest@.len(),
                min_idx < j <= rest@.len(),
                forall|m: int| 0 <= m < j ==> rest@[min_idx as int] <= rest@[m],
            decreases rest@.len() - j,
        {
            if rest[j] < rest[min_idx] {
                min_idx = j;
            }
            j += 1;
        }
        let ghost rest_before = rest@;
        let picked = rest.remove(min_idx);
        let ghost out_before = out@;
        out.push(picked);
        proof {
            assert(out@ =~= out_before.push(picked));
            rest_before.to_multiset_ensures();
            out_before.to_multiset_ensures();
            assert(rest_before.remove(min_idx as int) == rest@);
            assert(rest@.to_multiset() =~= rest_before.to_multiset().remove(picked));
            assert(out@.to_multiset() =~= out_before.to_multiset().insert(picked));
            assert(rest_before.contains(picked));
            assert(rest_before.to_multiset().count(picked) > 0);
            assert(out@.to_multiset().add(rest@.to_multiset()) =~= out_before.to_multiset().add(
                rest_before.to_multiset(),
            ));
            assert forall|a: int, b: int|
                0 <= a < out@.len() && 0 <= b < rest@.len() implies out@[a] <= rest@[b] by {
                let ob = if b < min_idx {
                    b
                } else {
                    b + 1
                };
                assert(rest@[b] == rest_before[ob]);
                if a < out@.len() - 1 {
                    assert(out@[a] == out_before[a]);
                    assert(out_before[a] <= rest_before[ob]);
                } else {
                    assert(out@[a] == picked);
                    assert(picked == rest_before[min_idx as int]);
                    assert(rest_before[min_idx as int] <= rest_before[ob]);
                }
            }
        }
    }
    proof {
        assert(rest@.len() == 0);
        assert forall|a: usize| #[trigger] rest@.to_multiset().count(a) == 0 by {
            rest@.to_multiset_ensures();
            assert(!rest@.contains(a));
        }
        assert(out@.to_multiset() =~= out@.to_multiset().add(rest@.to_multiset()));
    }
    out
}

} // verus!
