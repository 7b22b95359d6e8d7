//! The configuration the core consumes: per-file pattern lists under a
//! path key (or the wildcard key), global settings, and the manager that
//! merges the global and local documents and applies mutations.

use vstd::prelude::*;

verus! {

use crate::error::IgnoreError;
use crate::pattern::IgnorePattern;
use crate::strutil::str_eq;
use vstd::string::StringExecFns;

/// One configured file: its path key and the ordered patterns that apply
/// to it.
#[derive(Debug)]
pub struct FileEntry {
    /// The path the patterns apply to, or the wildcard key.
    pub path: String,
    /// The ordered rules for that path.
    pub patterns: Vec<IgnorePattern>,
}

/// The mapping from file path to pattern list.
#[derive(Debug)]
pub struct FileMap {
    /// Path/patterns entries with pairwise distinct paths.
    pub entries: Vec<FileEntry>,
}

/// The mathematical map an entry sequence denotes: each path keyed to the
/// sequence of its patterns.
pub open spec fn files_map(s: Seq<FileEntry>) -> Map<Seq<char>, Seq<IgnorePattern>>
    decreases s.len(),
{
    if s.len() == 0 {
        Map::empty()
    } else {
        files_map(s.drop_last()).insert(s.last().path@, s.last().patterns@)
    }
}

impl View for FileMap {
    type V = Map<Seq<char>, Seq<IgnorePattern>>;

    open spec fn view(&self) -> Map<Seq<char>, Seq<IgnorePattern>> {
        files_map(self.entries@)
    }
}

/// A path is in the map exactly when some entry carries it.
pub proof fn lemma_files_map_keys(s: Seq<FileEntry>)
    ensures
        forall|k: Seq<char>|
            files_map(s).contains_key(k) <==> exists|i: int|
                0 <= i < s.len() && (#[trigger] s[i]).path@ == k,
    decreases s.len(),
{
    if s.len() > 0 {
        lemma_files_map_keys(s.drop_last());
        assert forall|k: Seq<char>|
            files_map(s).contains_key(k) implies exists|i: int|
            0 <= i < s.len() && (#[trigger] s[i]).path@ == k by {
            if k == s.last().path@ {
                assert((s[s.len() - 1]).path@ == k);
            } else {
                assert(files_map(s.drop_last()).contains_key(k));
                let w = choose|i: int|
                    0 <= i < s.drop_last().len() && (#[trigger] s.drop_last()[i]).path@ == k;
                assert(s.drop_last()[w] == s[w]);
                assert((s[w]).path@ == k);
            }
        }
        assert forall|k: Seq<char>|
            (exists|i: int| 0 <= i < s.len() && (#[trigger] s[i]).path@ == k) implies files_map(
            s,
        ).contains_key(k) by {
            let w = choose|i: int| 0 <= i < s.len() && (#[trigger] s[i]).path@ == k;
            if w < s.len() - 1 {
                assert((s.drop_last()[w]).path@ == k);
                assert(files_map(s.drop_last()).contains_key(k));
            } else {
                assert(k == s.last().path@);
            }
        }
    }
}

/// With distinct paths, each entry's patterns are what the map holds at
/// its path.
pub proof fn lemma_files_map_at(s: Seq<FileEntry>, i: int)
    requires
        0 <= i < s.len(),
        forall|a: int, b: int|
            0 <= a < b < s.len() ==> (#[trigger] s[a]).path@ != (#[trigger] s[b]).path@,
    ensures
        files_map(s).contains_key(s[i].path@),
        files_map(s)[s[i].path@] == s[i].patterns@,
    decreases s.len(),
{
    if i == s.len() - 1 {
    } else {
        assert(forall|a: int, b: int|
            0 <= a < b < s.drop_last().len() ==> (#[trigger] s.drop_last()[a]).path@ != (
            #[trigger] s.drop_last()[b]).path@);
        lemma_files_map_at(s.drop_last(), i);
        assert(s.drop_last()[i] == s[i]);
        assert(s[i].path@ != s.last().path@);
    }
}

/// Removing one entry removes exactly its path from the denoted map, when
/// paths are pairwise distinct.
pub proof fn lemma_files_map_remove(s: Seq<FileEntry>, i: int)
    requires
        0 <= i < s.len(),
        forall|a: int, b: int|
            0 <= a < b < s.len() ==> (#[trigger] s[a]).path@ != (#[trigger] s[b]).path@,
    ensures
        files_map(s.remove(i)) == files_map(s).remove(s[i].path@),
    decreases s.len(),
{
    lemma_files_map_keys(s);
    lemma_files_map_keys(s.remove(i));
    if i == s.len() - 1 {
        assert(s.remove(i) =~= s.drop_last());
        assert(!files_map(s.drop_last()).contains_key(s[i].path@)) by {
            if files_map(s.drop_last()).contains_key(s[i].path@) {
                let w = choose|j: int|
                    0 <= j < s.drop_last().len() && (#[trigger] s.drop_last()[j]).path@
                        == s[i].path@;
                assert((s[w]).path@ == s[i].path@);
            }
        }
        assert(files_map(s.drop_last()) =~= files_map(s.drop_last()).insert(
            s.last().path@,
            s.last().patterns@,
        ).remove(s[i].path@));
    } else {
        assert(forall|a: int, b: int|
            0 <= a < b < s.drop_last().len() ==> (#[trigger] s.drop_last()[a]).path@ != (
            #[trigger] s.drop_last()[b]).path@);
        lemma_files_map_remove(s.drop_last(), i);
        assert(s.remove(i).drop_last() =~= s.drop_last().remove(i));
        assert(s.remove(i).last() == s.last());
        assert(files_map(s.remove(i)) == files_map(s.drop_last().remove(i)).insert(
            s.last().path@,
            s.last().patterns@,
        ));
        assert(s[i].path@ != s.last().path@);
        assert(files_map(s.drop_last()).remove(s[i].path@).insert(s.last().path@, s.last().patterns@)
            =~= files_map(s.drop_last()).insert(s.last().path@, s.last().patterns@).remove(
            s[i].path@,
        ));
    }
}

/// What a map holds at a path, or nothing.
pub open spec fn map_patterns_at(m: Map<Seq<char>, Seq<IgnorePattern>>, p: Seq<char>) -> Seq<
    IgnorePattern,
> {
    if m.contains_key(p) {
        m[p]
    } else {
        Seq::empty()
    }
}

/// The patterns of `ps` whose identifier differs from `id`, in order.
pub open spec fn spec_retain_id(ps: Seq<IgnorePattern>, id: Seq<char>) -> Seq<IgnorePattern>
    decreases ps.len(),
{
    if ps.len() == 0 {
        Seq::empty()
    } else if ps[0].id@ == id {
        spec_retain_id(ps.drop_first(), id)
    } else {
        seq![ps[0]] + spec_retain_id(ps.drop_first(), id)
    }
}

impl FileMap {
    /// Paths are pairwise distinct.
    pub open spec fn wf(&self) -> bool {
        forall|a: int, b: int|
            0 <= a < b < self.entries@.len() ==> (#[trigger] self.entries@[a]).path@ != (
            #[trigger] self.entries@[b]).path@
    }

    /// An empty mapping.
    pub fn new() -> (r: Self)
        ensures
            r.wf(),
            r@ == Map::<Seq<char>, Seq<IgnorePattern>>::empty(),
            r.entries@.len() == 0,
    {
        let r = FileMap { entries: Vec::new() };
        proof {
            assert(r@ =~= Map::<Seq<char>, Seq<IgnorePattern>>::empty());
        }
        r
    }

    /// Number of configured paths.
    pub fn len(&self) -> (r: usize)
        ensures
            r == self.entries@.len(),
    {
        self.entries.len()
    }

    /// Whether no path is configured.
    pub fn is_empty(&self) -> (r: bool)
        ensures
            r == (self.entries@.len() == 0),
    {
        self.entries.len() == 0
    }

    /// The position of a path's entry, if the path has one.
    fn find_index(&self, path: &str) -> (r: Option<usize>)
        ensures
            r matches Some(i) ==> i < self.entries@.len() && self.entries@[i as int].path@
                == path@,
            r is None ==> forall|k: int|
                0 <= k < self.entries@.len() ==> (#[trigger] self.entries@[k]).path@ != path@,
    {
        let n = self.entries.len();
        let mut i: usize = 0;
        while i < n
            invariant
                0 <= i <= n,
                n == self.entries@.len(),
                forall|k: int| 0 <= k < i ==> (#[trigger] self.entries@[k]).path@ != path@,
            decreases n - i,
        {
            if str_eq(self.entries[i].path.as_str(), path) {
                return Some(i);
            }
            i += 1;
        }
        None
    }

    /// The patterns configured for a path, if any are.
    pub fn get(&self, path: &str) -> (r: Option<&Vec<IgnorePattern>>)
        requires
            self.wf(),
        ensures
            r is Some <==> self@.contains_key(path@),
            r matches Some(v) ==> self@.contains_key(path@) && v@ == self@[path@],
    {
        proof {
            lemma_files_map_keys(self.entries@);
        }
        match self.find_index(path) {
            Some(i) => {
                proof {
                    lemma_files_map_at(self.entries@, i as int);
                }
                Some(&self.entries[i].patterns)
            },
            None => None,
        }
    }

    /// Appends patterns to a path's list, creating the entry if the path
    /// had none.
    pub fn extend_at(&mut self, path: &str, patterns: Vec<IgnorePattern>)
        requires
            old(self).wf(),
        ensures
            final(self).wf(),
            final(self)@ == old(self)@.insert(
                path@,
                map_patterns_at(old(self)@, path@) + patterns@,
            ),
    {
        proof {
            lemma_files_map_keys(self.entries@);
        }
        match self.find_index(path) {
            Some(i) => {
                proof {
                    lemma_files_map_at(self.entries@, i as int);
                }
                let ghost before = self.entries@;
                let mut entry = self.entries.remove(i);
                proof {
                    lemma_files_map_remove(before, i as int);
                }
                let mut ps = patterns;
                entry.patterns.append(&mut ps);
                let ghost mid = self.entries@;
                self.entries.push(entry);
                proof {
                    assert(self.entries@.drop_last() =~= mid);
                    assert forall|a: int, b: int|
                        0 <= a < b < self.entries@.len() implies (#[trigger] self.entries@[a]).path@
                        != (#[trigger] self.entries@[b]).path@ by {
                        if b == self.entries@.len() - 1 {
                            let orig_a = if a < i {
                                a
                            } else {
                                a + 1
                            };
                            assert(before[orig_a] == self.entries@[a]);
                            assert(before[i as int].path@ != before[orig_a].path@);
                        } else {
                            let orig_a = if a < i {
                                a
                            } else {
                                a + 1
                            };
                            let orig_b = if b < i {
                                b
                            } else {
                                b + 1
                            };
                            assert(before[orig_a] == self.entries@[a]);
                            assert(before[orig_b] == self.entries@[b]);
                        }
                    }
                    assert(final(self)@ =~= old(self)@.insert(
                        path@,
                        map_patterns_at(old(self)@, path@) + patterns@,
                    ));
                }
            },
            None => {
                let ghost before = self.entries@;
                let entry = FileEntry { path: String::from_str(path), patterns };
                self.entries.push(entry);
                proof {
                    assert(self.entries@.drop_last() =~= before);
                    assert(map_patterns_at(old(self)@, path@) + patterns@ =~= patterns@);
                    assert(final(self)@ =~= old(self)@.insert(path@, patterns@));
                }
            },
        }
    }

    /// Adds one pattern at the end of a path's list.
    pub fn push_pattern(&mut self, path: &str, pattern: IgnorePattern)
        requires
            old(self).wf(),
        ensures
            final(self).wf(),
            final(self)@ == old(self)@.insert(
                path@,
                map_patterns_at(old(self)@, path@).push(pattern),
            ),
    {
        let mut one: Vec<IgnorePattern> = Vec::new();
        one.push(pattern);
        self.extend_at(path, one);
        proof {
            assert(map_patterns_at(old(self)@, path@) + seq![pattern] =~= map_patterns_at(
                old(self)@,
                path@,
            ).push(pattern));
        }
    }

    /// Drops the pattern with the given identifier from a path's list, and
    /// drops the entry itself if its list becomes empty. A path with no
    /// entry is left as it is.
    pub fn remove_pattern(&mut self, path: &str, pattern_id: &str)
        requires
            old(self).wf(),
        ensures
            final(self).wf(),
            !old(self)@.contains_key(path@) ==> final(self)@ == old(self)@,
            old(self)@.contains_key(path@) ==> final(self)@ == (if spec_retain_id(
                old(self)@[path@],
                pattern_id@,
            ).len() == 0 {
                old(self)@.remove(path@)
            } else {
                old(self)@.insert(path@, spec_retain_id(old(self)@[path@], pattern_id@))
            }),
    {
        proof {
            lemma_files_map_keys(self.entries@);
        }
        match self.find_index(path) {
            Some(i) => {
                proof {
                    lemma_files_map_at(self.entries@, i as int);
                }
                let ghost before = self.entries@;
                let mut entry = self.entries.remove(i);
                proof {
                    lemma_files_map_remove(before, i as int);
                }
                let ghost orig_ps = entry.patterns@;
                let mut retained: Vec<IgnorePattern> = Vec::new();
                let mut k: usize = 0;
                proof {
                    assert(orig_ps.subrange(0, orig_ps.len() as int) =~= orig_ps);
                    assert(spec_retain_id(orig_ps, pattern_id@) =~= retained@ + spec_retain_id(
                        orig_ps.subrange(k as int, orig_ps.len() as int),
                        pattern_id@,
                    ));
                }
                while k < entry.patterns.len()
                    invariant
                        0 <= k <= orig_ps.len(),
                        entry.patterns@ == orig_ps,
                        spec_retain_id(orig_ps, pattern_id@) == retained@ + spec_retain_id(
                            orig_ps.subrange(k as int, orig_ps.len() as int),
                            pattern_id@,
                        ),
                    decreases orig_ps.len() - k,
                {
                    proof {
                        assert(orig_ps.subrange(k as int, orig_ps.len() as int).drop_first()
                            =~= orig_ps.subrange(k + 1, orig_ps.len() as int));
                        assert(orig_ps.subrange(k as int, orig_ps.len() as int)[0]
                            == orig_ps[k as int]);
                    }
                    if !str_eq(entry.patterns[k].id.as_str(), pattern_id) {
                        let p = entry.patterns[k].clone();
                        retained.push(p);
                    }
                    k += 1;
                }
                proof {
                    assert(orig_ps.subrange(orig_ps.len() as int, orig_ps.len() as int)
                        =~= Seq::<IgnorePattern>::empty());
                    assert(retained@ =~= spec_retain_id(orig_ps, pattern_id@));
                }
                if retained.len() > 0 {
                    entry.patterns = retained;
                    let ghost mid = self.entries@;
                    self.entries.push(entry);
                    proof {
                        assert(self.entries@.drop_last() =~= mid);
                        assert forall|a: int, b: int|
                            0 <= a < b < self.entries@.len() implies (
                        #[trigger] self.entries@[a]).path@ != (#[trigger] self.entries@[b]).path@
                            by {
                            if b == self.entries@.len() - 1 {
                                let orig_a = if a < i {
                                    a
                                } else {
                                    a + 1
                                };
                                assert(before[orig_a] == self.entries@[a]);
                                assert(before[i as int].path@ != before[orig_a].path@);
                            } else {
                                let orig_a = if a < i {
                                    a
                                } else {
                                    a + 1
                                };
                                let orig_b = if b < i {
                                    b
                                } else {
                                    b + 1
                                };
                                assert(before[orig_a] == self.entries@[a]);
                                assert(before[orig_b] == self.entries@[b]);
                            }
                        }
                        assert(final(self)@ =~= old(self)@.insert(
                            path@,
                            spec_retain_id(old(self)@[path@], pattern_id@),
                        ));
                    }
                }
            },
            None => {},
        }
    }
}

/// How backup records are kept between the clean and restore phases.
#[derive(Debug, Clone, Copy, PartialEq, Eq, Structural)]
pub enum BackupStrategy {
    /// In process memory only; lost when the process ends.
    Memory,
    /// As files in a repository-local directory; survives across the two
    /// hook invocations of one commit.
    TempFile,
    /// Reserved; treated as the durable file strategy.
    GitStash,
}

/// Settings that apply to the whole repository.
#[derive(Debug, Clone, Copy)]
pub struct GlobalSettings {
    /// Which backup store the lifecycle engine uses.
    pub backup_strategy: BackupStrategy,
    /// Whether remaining records are discarded after the restore phase.
    pub auto_cleanup: bool,
    /// Whether reports include per-pattern detail.
    pub verbose: bool,
}

/// The settings a fresh configuration starts with.
pub open spec fn spec_default_settings() -> GlobalSettings {
    GlobalSettings { backup_strategy: BackupStrategy::TempFile, auto_cleanup: true, verbose: false }
}

/// The whole configuration document: a format version, the per-file
/// pattern lists, and the global settings.
#[derive(Debug)]
pub struct SelectiveIgnoreConfig {
    /// The configuration format version.
    pub version: String,
    /// Pattern lists keyed by file path or the wildcard key.
    pub files: FileMap,
    /// Repository-wide settings.
    pub global_settings: GlobalSettings,
}

impl Default for SelectiveIgnoreConfig {
    /// A fresh configuration: no files, durable backups, auto-cleanup on.
    fn default() -> (r: Self)
        ensures
            r.version@ == "1.0"@,
            r.files@ == Map::<Seq<char>, Seq<IgnorePattern>>::empty(),
            r.files.wf(),
            r.files.entries@.len() == 0,
            r.global_settings == spec_default_settings(),
    {
        SelectiveIgnoreConfig {
            version: String::from_str("1.0"),
            files: FileMap::new(),
            global_settings: GlobalSettings {
                backup_strategy: BackupStrategy::TempFile,
                auto_cleanup: true,
                verbose: false,
            },
        }
    }
}

/// Copies a pattern list; the copies are equal values.
pub fn clone_patterns(v: &Vec<IgnorePattern>) -> (r: Vec<IgnorePattern>)
    ensures
        r@ == v@,
{
    let r = v.clone();
    proof {
        assert forall|i: int| 0 <= i < v@.len() implies r@[i] == v@[i] by {
            assert(vstd::pervasive::cloned::<IgnorePattern>(v@[i], r@[i]));
        }
        assert(r@ =~= v@);
    }
    r
}

/// Loading and saving the configuration a manager holds.
pub trait ConfigProvider {
    /// The provider's internal well-formedness.
    spec fn provider_inv(&self) -> bool;

    /// The merged configuration currently in force.
    fn load_config(&self) -> (r: Result<SelectiveIgnoreConfig, IgnoreError>)
        requires
            self.provider_inv(),
    ;

    /// Replaces the locally stored configuration.
    fn save_config(&mut self, config: SelectiveIgnoreConfig) -> (r: Result<(), IgnoreError>)
        requires
            old(self).provider_inv(),
            config.files.wf(),
        ensures
            final(self).provider_inv(),
    ;
}

/// Holds the two configuration scopes for one repository — the global
/// document and the repository-local one — and merges them on demand:
/// pattern lists from both scopes apply, and local settings override
/// global ones. The repository root is threaded in explicitly.
pub struct ConfigManager {
    /// The repository's root directory.
    pub repo_root: String,
    /// The user-wide configuration, if one was supplied.
    pub global_config: Option<SelectiveIgnoreConfig>,
    /// The repository-local configuration, if one was supplied.
    pub local_config: Option<SelectiveIgnoreConfig>,
}

impl ConfigManager {
    /// Both scopes hold well-formed file maps.
    pub open spec fn inv(&self) -> bool {
        &&& match self.global_config {
            Option::Some(c) => c.files.wf(),
            Option::None => true,
        }
        &&& match self.local_config {
            Option::Some(c) => c.files.wf(),
            Option::None => true,
        }
    }

    /// The settings in force: local over global over defaults.
    pub open spec fn merged_settings(&self) -> GlobalSettings {
        match self.local_config {
            Option::Some(c) => c.global_settings,
            Option::None => match self.global_config {
                Option::Some(c) => c.global_settings,
                Option::None => spec_default_settings(),
            },
        }
    }

    /// A scope's file map, empty when the scope is absent.
    pub open spec fn scope_files(c: Option<SelectiveIgnoreConfig>) -> Map<
        Seq<char>,
        Seq<IgnorePattern>,
    > {
        match c {
            Option::Some(c) => c.files@,
            Option::None => Map::empty(),
        }
    }

    /// The pattern lists in force: for each path, the global patterns
    /// followed by the local ones.
    pub open spec fn merged_files(&self) -> Map<Seq<char>, Seq<IgnorePattern>> {
        Map::new(
            |p: Seq<char>| Self::scope_files(self.global_config).contains_key(p)
                || Self::scope_files(self.local_config).contains_key(p),
            |p: Seq<char>| map_patterns_at(Self::scope_files(self.global_config), p)
                + map_patterns_at(Self::scope_files(self.local_config), p),
        )
    }

    /// A manager for a repository root, with no configuration loaded yet.
    pub fn new(repo_root: String) -> (r: Self)
        ensures
            r.repo_root@ == repo_root@,
            r.global_config is None,
            r.local_config is None,
            r.inv(),
    {
        ConfigManager { repo_root, global_config: None, local_config: None }
    }

    /// Supplies the user-wide configuration document.
    pub fn set_global_config(&mut self, config: SelectiveIgnoreConfig)
        requires
            config.files.wf(),
        ensures
            final(self).global_config matches Some(c) && c == config,
            final(self).local_config == old(self).local_config,
            final(self).repo_root == old(self).repo_root,
            old(self).inv() ==> final(self).inv(),
    {
        self.global_config = Some(config);
    }

    /// Supplies the repository-local configuration document.
    pub fn set_local_config(&mut self, config: SelectiveIgnoreConfig)
        requires
            config.files.wf(),
        ensures
            final(self).local_config matches Some(c) && c == config,
            final(self).global_config == old(self).global_config,
            final(self).repo_root == old(self).repo_root,
            old(self).inv() ==> final(self).inv(),
    {
        self.local_config = Some(config);
    }

    /// Installs a fresh default local configuration where none exists yet;
    /// an existing one is left untouched.
    pub fn initialize(&mut self)
        requires
            old(self).inv(),
        ensures
            final(self).inv(),
            final(self).global_config == old(self).global_config,
            final(self).repo_root == old(self).repo_root,
            old(self).local_config is Some ==> final(self).local_config == old(self).local_config,
            old(self).local_config is None ==> (final(self).local_config matches Some(c)
                && c.version@ == "1.0"@ && c.files@ == Map::<Seq<char>, Seq<IgnorePattern>>::empty()
                && c.global_settings == spec_default_settings()),
    {
        if self.local_config.is_none() {
            self.local_config = Some(SelectiveIgnoreConfig::default());
        }
    }

    /// The repository root every core operation is relative to.
    pub fn get_repo_root(&self) -> (r: &String)
        ensures
            r@ == self.repo_root@,
    {
        &self.repo_root
    }

    /// Merges one scope's entries into an accumulating file map.
    fn merge_scope_into(dst: &mut FileMap, src: &FileMap)
        requires
            old(dst).wf(),
            src.wf(),
        ensures
            final(dst).wf(),
            forall|p: Seq<char>|
                #[trigger] final(dst)@.contains_key(p) <==> (old(dst)@.contains_key(p)
                    || src@.contains_key(p)),
            forall|p: Seq<char>|
                #[trigger] final(dst)@.contains_key(p) ==> final(dst)@[p] == map_patterns_at(
                    old(dst)@,
                    p,
                ) + map_patterns_at(src@, p),
    {
        let n = src.entries.len();
        let mut k: usize = 0;
        proof {
            lemma_files_map_keys(src.entries@.subrange(0, 0));
            assert(src.entries@.subrange(0, 0) =~= Seq::<FileEntry>::empty());
        }
        while k < n
            invariant
                0 <= k <= n,
                n == src.entries@.len(),
                src.wf(),
                dst.wf(),
                forall|p: Seq<char>|
                    dst@.contains_key(p) <==> (old(dst)@.contains_key(p) || files_map(
                        src.entries@.subrange(0, k as int),
                    ).contains_key(p)),
                forall|p: Seq<char>|
                    #[trigger] dst@.contains_key(p) ==> dst@[p] == map_patterns_at(old(dst)@, p)
                        + map_patterns_at(files_map(src.entries@.subrange(0, k as int)), p),
            decreases n - k,
        {
            let entry_path = &src.entries[k].path;
            let cloned = clone_patterns(&src.entries[k].patterns);
            let ghost partial = files_map(src.entries@.subrange(0, k as int));
            let ghost dst_before = dst@;
            proof {
                assert(src.entries@.subrange(0, k + 1).drop_last() =~= src.entries@.subrange(
                    0,
                    k as int,
                ));
                assert(files_map(src.entries@.subrange(0, k + 1)) == partial.insert(
                    src.entries@[k as int].path@,
                    src.entries@[k as int].patterns@,
                ));
                lemma_files_map_keys(src.entries@.subrange(0, k as int));
                assert(!partial.contains_key(src.entries@[k as int].path@)) by {
                    if partial.contains_key(src.entries@[k as int].path@) {
                        let w = choose|j: int|
                            0 <= j < k && (#[trigger] src.entries@.subrange(0, k as int)[j]).path@
                                == src.entries@[k as int].path@;
                        assert((src.entries@[w]).path@ == src.entries@[k as int].path@);
                    }
                }
            }
            dst.extend_at(entry_path.as_str(), cloned);
            proof {
                let pk = src.entries@[k as int].path@;
                let partial2 = files_map(src.entries@.subrange(0, k + 1));
                assert forall|p: Seq<char>| #[trigger] dst@.contains_key(p) implies dst@[p]
                    == map_patterns_at(old(dst)@, p) + map_patterns_at(partial2, p) by {
                    if p == pk {
                        assert(dst@[p] == map_patterns_at(dst_before, p)
                            + src.entries@[k as int].patterns@);
                        if dst_before.contains_key(p) {
                            assert(map_patterns_at(dst_before, p) == map_patterns_at(
                                old(dst)@,
                                p,
                            ) + map_patterns_at(partial, p));
                            assert(map_patterns_at(partial, p) =~= Seq::<IgnorePattern>::empty());
                            assert(map_patterns_at(dst_before, p) =~= map_patterns_at(
                                old(dst)@,
                                p,
                            ));
                        } else {
                            assert(map_patterns_at(dst_before, p) =~= Seq::<
                                IgnorePattern,
                            >::empty());
                            assert(!old(dst)@.contains_key(p));
                            assert(map_patterns_at(old(dst)@, p) =~= Seq::<
                                IgnorePattern,
                            >::empty());
                        }
                        assert(map_patterns_at(partial2, p) == src.entries@[k as int].patterns@);
                        assert(dst@[p] =~= map_patterns_at(old(dst)@, p) + map_patterns_at(
                            partial2,
                            p,
                        ));
                    } else {
                        assert(dst@[p] == dst_before[p]);
                        assert(map_patterns_at(partial2, p) == map_patterns_at(partial, p));
                    }
                }
            }
            k += 1;
        }
        proof {
            assert(src.entries@.subrange(0, n as int) =~= src.entries@);
        }
    }

    /// The configuration in force: global and local pattern lists joined
    /// per path (global first), local settings overriding global ones, and
    /// the default format version.
    pub fn load_config(&self) -> (r: Result<SelectiveIgnoreConfig, IgnoreError>)
        requires
            self.inv(),
        ensures
            r is Ok,
            r matches Ok(c) ==> c.files.wf() && c.files@ == self.merged_files()
                && c.global_settings == self.merged_settings() && c.version@ == "1.0"@,
    {
        let mut files = FileMap::new();
        match &self.global_config {
            Some(g) => {
                ConfigManager::merge_scope_into(&mut files, &g.files);
            },
            None => {},
        }
        let ghost after_global = files@;
        match &self.local_config {
            Some(l) => {
                ConfigManager::merge_scope_into(&mut files, &l.files);
            },
            None => {},
        }
        proof {
            assert forall|p: Seq<char>| #[trigger] files@.contains_key(p)
                == self.merged_files().contains_key(p) by {
                assert(after_global.contains_key(p) <==> Self::scope_files(
                    self.global_config,
                ).contains_key(p));
            }
            assert forall|p: Seq<char>| files@.contains_key(p) implies #[trigger] files@[p]
                == self.merged_files()[p] by {
                assert(after_global.contains_key(p) <==> Self::scope_files(
                    self.global_config,
                ).contains_key(p));
                if Self::scope_files(self.global_config).contains_key(p) || Self::scope_files(
                    self.local_config,
                ).contains_key(p) {
                    assert(map_patterns_at(after_global, p) =~= map_patterns_at(
                        Self::scope_files(self.global_config),
                        p,
                    ));
                }
            }
            assert(files@ =~= self.merged_files());
        }
        let global_settings = match &self.local_config {
            Some(l) => l.global_settings,
            None => match &self.global_config {
                Some(g) => g.global_settings,
                None => GlobalSettings {
                    backup_strategy: BackupStrategy::TempFile,
                    auto_cleanup: true,
                    verbose: false,
                },
            },
        };
        Ok(SelectiveIgnoreConfig { version: String::from_str("1.0"), files, global_settings })
    }

    /// Stores a configuration as the repository-local document.
    pub fn save_config(&mut self, config: SelectiveIgnoreConfig) -> (r: Result<(), IgnoreError>)
        requires
            old(self).inv(),
            config.files.wf(),
        ensures
            final(self).inv(),
            r is Ok,
            final(self).local_config matches Some(c) && c == config,
            final(self).global_config == old(self).global_config,
            final(self).repo_root == old(self).repo_root,
    {
        self.local_config = Some(config);
        Ok(())
    }

    /// Appends a new pattern for a file path to the configuration in
    /// force and stores the result locally. Fails exactly on an unknown
    /// pattern-kind name, changing nothing.
    pub fn add_pattern(
        &mut self,
        file_path: String,
        pattern_type: String,
        pattern_spec: String,
    ) -> (r: Result<(), IgnoreError>)
        requires
            old(self).inv(),
        ensures
            final(self).inv(),
            final(self).global_config == old(self).global_config,
            final(self).repo_root == old(self).repo_root,
            r is Ok <==> crate::pattern::spec_kind_of(pattern_type@) is Some,
            r is Err ==> final(self).local_config == old(self).local_config,
            r is Ok ==> (final(self).local_config matches Some(c) && c.files.wf()
                && c.global_settings == old(self).merged_settings() && c.version@ == "1.0"@ && {
                let added = c.files@[file_path@];
                &&& added.len() == map_patterns_at(old(self).merged_files(), file_path@).len() + 1
                &&& added.drop_last() == map_patterns_at(old(self).merged_files(), file_path@)
                &&& Some(added.last().pattern_type) == crate::pattern::spec_kind_of(pattern_type@)
                &&& added.last().specification@ == pattern_spec@
                &&& c.files@ == old(self).merged_files().insert(file_path@, added)
            }),
    {
        let mut config = match self.load_config() {
            Ok(c) => c,
            Err(e) => {
                return Err(e);
            },
        };
        let ignore_pattern = match IgnorePattern::new(pattern_type, pattern_spec) {
            Ok(p) => p,
            Err(e) => {
                return Err(e);
            },
        };
        config.files.push_pattern(file_path.as_str(), ignore_pattern);
        proof {
            let m = old(self).merged_files();
            let added = config.files@[file_path@];
            assert(added =~= map_patterns_at(m, file_path@).push(ignore_pattern));
            assert(added.drop_last() =~= map_patterns_at(m, file_path@));
        }
        match self.save_config(config) {
            Ok(()) => Ok(()),
            Err(e) => Err(e),
        }
    }

    /// Removes the pattern with the given identifier from a file path in
    /// the configuration in force, dropping the path's entry when its
    /// list becomes empty, and stores the result locally.
    pub fn remove_pattern(&mut self, file_path: String, pattern_id: String) -> (r: Result<
        (),
        IgnoreError,
    >)
        requires
            old(self).inv(),
        ensures
            final(self).inv(),
            final(self).global_config == old(self).global_config,
            final(self).repo_root == old(self).repo_root,
            r is Ok,
            final(self).local_config matches Some(c) && c.files.wf() && c.global_settings
                == old(self).merged_settings() && c.version@ == "1.0"@ && {
                let m = old(self).merged_files();
                if !m.contains_key(file_path@) {
                    c.files@ == m
                } else if spec_retain_id(m[file_path@], pattern_id@).len() == 0 {
                    c.files@ == m.remove(file_path@)
                } else {
                    c.files@ == m.insert(
                        file_path@,
                        spec_retain_id(m[file_path@], pattern_id@),
                    )
                }
            },
    {
        let mut config = match self.load_config() {
            Ok(c) => c,
            Err(e) => {
                return Err(e);
            },
        };
        config.files.remove_pattern(file_path.as_str(), pattern_id.as_str());
        match self.save_config(config) {
            Ok(()) => Ok(()),
            Err(e) => Err(e),
        }
    }


    /// Merges patterns parsed from an external text into the configuration
    /// in force and stores the result locally. Gitignore-style input
    /// attaches every pattern to `target_file`; the custom format names
    /// its own files. Fails exactly where the parse fails, changing
    /// nothing.
    pub fn import_patterns(
        &mut self,
        content: &String,
        import_type: &String,
        target_file: &String,
    ) -> (r: Result<(), IgnoreError>)
        requires
            old(self).inv(),
        ensures
            final(self).inv(),
            final(self).global_config == old(self).global_config,
            final(self).repo_root == old(self).repo_root,
            r is Err ==> final(self).local_config == old(self).local_config,
            r is Ok <==> (import_type@ == "gitignore"@ || crate::importer::entries_kinds_ok(
                crate::importer::spec_custom_entries_of(content@),
            )),
            r is Ok ==> (final(self).local_config matches Some(c) && c.files.wf()
                && c.global_settings == old(self).merged_settings() && c.version@ == "1.0"@
                && forall|
                p: Seq<char>,
            |
                old(self).merged_files().contains_key(p) ==> #[trigger] c.files@.contains_key(p)
                    && c.files@[p].len() >= old(self).merged_files()[p].len() && c.files@[
                p].subrange(0, old(self).merged_files()[p].len() as int) == old(
                    self,
                ).merged_files()[p]),
            r is Ok && import_type@ != "gitignore"@ ==> (final(self).local_config matches Some(c)
                && (forall|p: Seq<char>|
                #[trigger] c.files@.contains_key(p) <==> (old(self).merged_files().contains_key(p)
                    || crate::importer::entries_mention(
                    crate::importer::spec_custom_entries_of(content@),
                    p,
                ))) && (forall|p: Seq<char>|
                #[trigger] c.files@.contains_key(p)
                    ==> crate::importer::spec_pattern_shapes(c.files@[p])
                    == crate::importer::spec_pattern_shapes(
                    map_patterns_at(old(self).merged_files(), p),
                ) + crate::importer::spec_entries_for(
                    crate::importer::spec_custom_entries_of(content@),
                    p,
                ))),
            r is Ok && import_type@ == "gitignore"@ ==> (final(self).local_config matches Some(c)
                && (forall|p: Seq<char>|
                #[trigger] c.files@.contains_key(p) <==> (old(self).merged_files().contains_key(p)
                    || p == target_file@)) && crate::importer::spec_pattern_shapes(
                c.files@[target_file@],
            ) == crate::importer::spec_pattern_shapes(
                map_patterns_at(old(self).merged_files(), target_file@),
            ) + crate::importer::spec_gitignore_specs(
                crate::strutil::spec_lines(content@),
                0,
            ).map_values(|s: Seq<char>| (crate::pattern::PatternType::LineRegex, s))),
    {
        let mut importer = crate::importer::FileImporter::new();
        let imported = match crate::importer::PatternImporter::import_from_file(
            &mut importer,
            content,
            import_type,
            target_file,
        ) {
            Ok(m) => m,
            Err(e) => {
                return Err(e);
            },
        };
        let mut config = match self.load_config() {
            Ok(c) => c,
            Err(e) => {
                return Err(e);
            },
        };
        ConfigManager::merge_scope_into(&mut config.files, &imported);
        proof {
            let m = old(self).merged_files();
            let im = imported@;
            let entries = crate::importer::spec_custom_entries_of(content@);
            assert forall|p: Seq<char>| m.contains_key(p) implies #[trigger] config.files@
                .contains_key(p) && config.files@[p].len() >= m[p].len() && config.files@[
            p].subrange(0, m[p].len() as int) == m[p] by {
                assert(config.files@.contains_key(p));
                assert(config.files@[p] == map_patterns_at(m, p) + map_patterns_at(im, p));
                assert(config.files@[p].subrange(0, m[p].len() as int) =~= m[p]);
            }
            if import_type@ != "gitignore"@ {
                assert forall|p: Seq<char>| #[trigger] config.files@.contains_key(p) implies
                    crate::importer::spec_pattern_shapes(config.files@[p])
                    == crate::importer::spec_pattern_shapes(map_patterns_at(m, p))
                    + crate::importer::spec_entries_for(entries, p) by {
                    assert(config.files@[p] == map_patterns_at(m, p) + map_patterns_at(im, p));
                    assert(crate::importer::spec_pattern_shapes(
                        map_patterns_at(m, p) + map_patterns_at(im, p),
                    ) =~= crate::importer::spec_pattern_shapes(map_patterns_at(m, p))
                        + crate::importer::spec_pattern_shapes(map_patterns_at(im, p)));
                    if im.contains_key(p) {
                        assert(crate::importer::spec_pattern_shapes(map_patterns_at(im, p))
                            == crate::importer::spec_entries_for(entries, p));
                    } else {
                        assert(!crate::importer::entries_mention(entries, p));
                        crate::importer::lemma_entries_for_absent(entries, p);
                        assert(crate::importer::spec_pattern_shapes(map_patterns_at(im, p))
                            =~= Seq::<(crate::pattern::PatternType, Seq<char>)>::empty());
                    }
                }
            } else {
                assert forall|p: Seq<char>| #[trigger] config.files@.contains_key(p) <==> (
                m.contains_key(p) || p == target_file@) by {}
                assert(config.files@.contains_key(target_file@));
                assert(config.files@[target_file@] == map_patterns_at(m, target_file@)
                    + map_patterns_at(im, target_file@));
                assert(crate::importer::spec_pattern_shapes(
                    map_patterns_at(m, target_file@) + map_patterns_at(im, target_file@),
                ) =~= crate::importer::spec_pattern_shapes(map_patterns_at(m, target_file@))
                    + crate::importer::spec_pattern_shapes(map_patterns_at(im, target_file@)));
                assert(map_patterns_at(im, target_file@) == im[target_file@]);
            }
        }
        match self.save_config(config) {
            Ok(()) => Ok(()),
            Err(e) => Err(e),
        }
    }

    /// Validates the configuration in force: every issue the standard
    /// validator finds, given which configured paths exist.
    pub fn validate_config(&self, existing_paths: &Vec<String>) -> (r: Result<
        Vec<String>,
        IgnoreError,
    >)
        requires
            self.inv(),
        ensures
            r matches Ok(v) ==> exists|c: SelectiveIgnoreConfig|
                #![trigger c.global_settings]
                c.files.wf() && c.files@ == self.merged_files() && c.global_settings
                    == self.merged_settings() && v@.map_values(|s: String| s@)
                    == crate::validator::spec_config_issues(
                    c,
                    existing_paths@.map_values(|s: String| s@),
                ),
    {
        let config = match self.load_config() {
            Ok(c) => c,
            Err(e) => {
                return Err(e);
            },
        };
        let validator = crate::validator::StandardValidator::new();
        match crate::validator::ConfigValidator::validate_config(
            &validator,
            &config,
            existing_paths,
        ) {
            Ok(issues) => {
                proof {
                    assert(crate::validator::spec_config_issues(
                        config,
                        existing_paths@.map_values(|s: String| s@),
                    ) == crate::validator::spec_config_issues(
                        config,
                        existing_paths@.map_values(|s: String| s@),
                    ));
                }
                Ok(issues)
            },
            Err(e) => Err(e),
        }
    }

    /// The pattern lists in force, for display: every configured path with
    /// its patterns.
    pub fn list_patterns(&self) -> (r: Result<FileMap, IgnoreError>)
        requires
            self.inv(),
        ensures
            r matches Ok(m) ==> m.wf() && m@ == self.merged_files(),
    {
        match self.load_config() {
            Ok(c) => Ok(c.files),
            Err(e) => Err(e),
        }
    }
}

impl ConfigProvider for ConfigManager {
    open spec fn provider_inv(&self) -> bool {
        self.inv()
    }

    fn load_config(&self) -> (r: Result<SelectiveIgnoreConfig, IgnoreError>) {
        ConfigManager::load_config(self)
    }

    fn save_config(&mut self, config: SelectiveIgnoreConfig) -> (r: Result<(), IgnoreError>) {
        ConfigManager::save_config(self, config)
    }
}

} // verus!
