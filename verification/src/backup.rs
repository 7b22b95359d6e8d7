//! Backup records and the stores that hold them between the clean phase
//! and the restore phase of a commit.

use vstd::prelude::*;

verus! {

use crate::error::IgnoreError;
use crate::strutil::push_char;
use crate::transform::LineMap;
use vstd::string::{StrSliceExecFns, StringExecFns};

/// Everything needed to put a file back as it was before cleaning: the full
/// pre-transform text, the removed lines for inspection, and the digests of
/// the pre- and post-transform texts that gate restoration.
pub struct BackupData {
    /// The full text of the file before any line was removed.
    pub original_content: String,
    /// The removed lines by 0-based index; informational, restoration
    /// rewrites `original_content` wholesale.
    pub ignored_lines: LineMap,
    /// Digest of the original text.
    pub original_file_hash: String,
    /// Digest of the cleaned text; restoration requires the working-tree
    /// content to still carry this digest.
    pub cleaned_file_hash: String,
}

/// The mathematical map a key/record sequence denotes.
pub open spec fn backups_map(s: Seq<(String, BackupData)>) -> Map<Seq<char>, BackupData>
    decreases s.len(),
{
    if s.len() == 0 {
        Map::empty()
    } else {
        backups_map(s.drop_last()).insert(s.last().0@, s.last().1)
    }
}

/// A key is in the map exactly when some entry carries it.
pub proof fn lemma_backups_map_keys(s: Seq<(String, BackupData)>)
    ensures
        forall|k: Seq<char>|
            backups_map(s).contains_key(k) <==> exists|i: int|
                0 <= i < s.len() && (#[trigger] s[i]).0@ == k,
    decreases s.len(),
{
    if s.len() > 0 {
        lemma_backups_map_keys(s.drop_last());
        assert forall|k: Seq<char>|
            backups_map(s).contains_key(k) implies exists|i: int|
            0 <= i < s.len() && (#[trigger] s[i]).0@ == k by {
            if k == s.last().0@ {
                assert((s[s.len() - 1]).0@ == k);
            } else {
                assert(backups_map(s.drop_last()).contains_key(k));
                let w = choose|i: int|
                    0 <= i < s.drop_last().len() && (#[trigger] s.drop_last()[i]).0@ == k;
                assert(s.drop_last()[w] == s[w]);
                assert((s[w]).0@ == k);
            }
        }
        assert forall|k: Seq<char>|
            (exists|i: int| 0 <= i < s.len() && (#[trigger] s[i]).0@ == k) implies backups_map(
            s,
        ).contains_key(k) by {
            let w = choose|i: int| 0 <= i < s.len() && (#[trigger] s[i]).0@ == k;
            if w < s.len() - 1 {
                assert((s.drop_last()[w]).0@ == k);
                assert(backups_map(s.drop_last()).contains_key(k));
            } else {
                assert(k == s.last().0@);
            }
        }
    }
}

/// With distinct keys, each entry's record is what the map holds at its key.
pub proof fn lemma_backups_map_at(s: Seq<(String, BackupData)>, i: int)
    requires
        0 <= i < s.len(),
        forall|a: int, b: int| 0 <= a < b < s.len() ==> (#[trigger] s[a]).0@ != (#[trigger] s[b]).0@,
    ensures
        backups_map(s).contains_key(s[i].0@),
        backups_map(s)[s[i].0@] == s[i].1,
    decreases s.len(),
{
    if i == s.len() - 1 {
    } else {
        assert(forall|a: int, b: int|
            0 <= a < b < s.drop_last().len() ==> (#[trigger] s.drop_last()[a]).0@ != (
            #[trigger] s.drop_last()[b]).0@);
        lemma_backups_map_at(s.drop_last(), i);
        assert(s.drop_last()[i] == s[i]);
        assert(s[i].0@ != s.last().0@);
    }
}

/// What a correct key listing looks like: every listed path holds a live
/// record, every live record's path is listed, and no path is listed twice.
pub open spec fn keys_cover(keys: Seq<String>, m: Map<Seq<char>, BackupData>) -> bool {
    &&& forall|k: int| 0 <= k < keys.len() ==> m.contains_key((#[trigger] keys[k])@)
    &&& forall|p: Seq<char>|
        m.contains_key(p) ==> exists|k: int| 0 <= k < keys.len() && (#[trigger] keys[k])@ == p
    &&& forall|a: int, b: int|
        0 <= a < b < keys.len() ==> (#[trigger] keys[a])@ != (#[trigger] keys[b])@
}

/// The key-value contract every backup store obeys: records are stored and
/// overwritten per path, consumed exactly once by a restore, enumerable,
/// and discarded wholesale by cleanup.
pub trait StorageProvider {
    /// The live records, keyed by file path.
    spec fn backups_view(&self) -> Map<Seq<char>, BackupData>;

    /// The store's internal well-formedness.
    spec fn inv(&self) -> bool;

    /// Persists (or overwrites) the record for a path.
    fn store_backup(&mut self, file_path: &str, backup_data: BackupData) -> (r: Result<
        (),
        IgnoreError,
    >)
        requires
            old(self).inv(),
        ensures
            final(self).inv(),
            r is Ok ==> final(self).backups_view() == old(self).backups_view().insert(
                file_path@,
                backup_data,
            ),
            r is Err ==> final(self).backups_view() == old(self).backups_view(),
    ;

    /// Takes the record for a path out of the store: a second call for the
    /// same path answers nothing until a new record is stored.
    fn restore_backup(&mut self, file_path: &str) -> (r: Result<Option<BackupData>, IgnoreError>)
        requires
            old(self).inv(),
        ensures
            final(self).inv(),
            r matches Ok(Some(b)) ==> old(self).backups_view().contains_key(file_path@) && b
                == old(self).backups_view()[file_path@] && final(self).backups_view()
                == old(self).backups_view().remove(file_path@),
            r matches Ok(None) ==> !old(self).backups_view().contains_key(file_path@)
                && final(self).backups_view() == old(self).backups_view(),
            r is Err ==> final(self).backups_view() == old(self).backups_view(),
    ;

    /// Every path currently holding a live record, each exactly once.
    fn get_all_backup_keys(&self) -> (r: Result<Vec<String>, IgnoreError>)
        requires
            self.inv(),
        ensures
            r matches Ok(keys) ==> keys_cover(keys@, self.backups_view()),
    ;

    /// Discards every live record.
    fn cleanup(&mut self) -> (r: Result<(), IgnoreError>)
        requires
            old(self).inv(),
        ensures
            final(self).inv(),
            r is Ok ==> final(self).backups_view() == Map::<Seq<char>, BackupData>::empty(),
            r is Err ==> final(self).backups_view() == old(self).backups_view(),
    ;
}

/// The in-memory backup store: records live only as long as the process,
/// so it suits flows where clean and restore happen in one invocation.
pub struct MemoryStorage {
    /// Path/record pairs with pairwise distinct paths.
    pub backups: Vec<(String, BackupData)>,
}

impl MemoryStorage {
    /// An empty store.
    pub fn new() -> (r: Self)
        ensures
            r.inv(),
            r.backups_view() == Map::<Seq<char>, BackupData>::empty(),
            r.backups@.len() == 0,
    {
        let r = MemoryStorage { backups: Vec::new() };
        proof {
            assert(r.backups_view() =~= Map::<Seq<char>, BackupData>::empty());
        }
        r
    }

    /// The position of a path's entry, if the path has one.
    fn find_index(&self, file_path: &str) -> (r: Option<usize>)
        ensures
            r matches Some(i) ==> i < self.backups@.len() && self.backups@[i as int].0@
                == file_path@,
            r is None ==> forall|k: int|
                0 <= k < self.backups@.len() ==> (#[trigger] self.backups@[k]).0@ != file_path@,
    {
        let n = self.backups.len();
        let mut i: usize = 0;
        while i < n
            invariant
                0 <= i <= n,
                n == self.backups@.len(),
                forall|k: int| 0 <= k < i ==> (#[trigger] self.backups@[k]).0@ != file_path@,
            decreases n - i,
        {
            if crate::strutil::str_eq(self.backups[i].0.as_str(), file_path) {
                return Some(i);
            }
            i += 1;
        }
        None
    }
}

impl StorageProvider for MemoryStorage {
    open spec fn backups_view(&self) -> Map<Seq<char>, BackupData> {
        backups_map(self.backups@)
    }

    open spec fn inv(&self) -> bool {
        forall|a: int, b: int|
            0 <= a < b < self.backups@.len() ==> (#[trigger] self.backups@[a]).0@ != (
            #[trigger] self.backups@[b]).0@
    }

    fn store_backup(&mut self, file_path: &str, backup_data: BackupData) -> (r: Result<
        (),
        IgnoreError,
    >) {
        match self.find_index(file_path) {
            Some(i) => {
                proof {
                    lemma_backups_map_at(self.backups@, i as int);
                }
                let ghost before = self.backups@;
                let owned = String::from_str(file_path);
                self.backups.remove(i);
                proof {
                    lemma_remove_key(before, i as int);
                }
                let ghost mid = self.backups@;
                self.backups.push((owned, backup_data));
                proof {
                    assert(self.backups@.drop_last() =~= mid);
                    assert(self.backups_view() =~= backups_map(before).insert(
                        file_path@,
                        backup_data,
                    ));
                }
            },
            None => {
                let ghost before = self.backups@;
                let owned = String::from_str(file_path);
                self.backups.push((owned, backup_data));
                proof {
                    assert(self.backups@.drop_last() =~= before);
                    lemma_backups_map_keys(before);
                }
            },
        }
        Ok(())
    }

    fn restore_backup(&mut self, file_path: &str) -> (r: Result<Option<BackupData>, IgnoreError>) {
        match self.find_index(file_path) {
            Some(i) => {
                proof {
                    lemma_backups_map_at(self.backups@, i as int);
                }
                let ghost before = self.backups@;
                let (_, record) = self.backups.remove(i);
                proof {
                    lemma_remove_key(before, i as int);
                    lemma_backups_map_keys(before);
                    assert(backups_map(self.backups@) =~= backups_map(before).remove(file_path@));
                }
                Ok(Some(record))
            },
            None => {
                proof {
                    lemma_backups_map_keys(self.backups@);
                }
                Ok(None)
            },
        }
    }

    fn get_all_backup_keys(&self) -> (r: Result<Vec<String>, IgnoreError>) {
        proof {
            lemma_backups_map_keys(self.backups@);
        }
        let n = self.backups.len();
        let mut keys: Vec<String> = Vec::new();
        let mut i: usize = 0;
        while i < n
            invariant
                0 <= i <= n,
                n == self.backups@.len(),
                self.inv(),
                keys@.len() == i,
                forall|k: int| 0 <= k < i ==> (#[trigger] keys@[k])@ == self.backups@[k].0@,
            decreases n - i,
        {
            keys.push(self.backups[i].0.clone());
            i += 1;
        }
        proof {
            lemma_backups_map_keys(self.backups@);
            assert forall|k: int| 0 <= k < keys@.len() implies self.backups_view().contains_key(
                (#[trigger] keys@[k])@,
            ) by {
                assert((self.backups@[k]).0@ == keys@[k]@);
            }
            assert forall|p: Seq<char>| self.backups_view().contains_key(p) implies exists|k: int|
                0 <= k < keys@.len() && (#[trigger] keys@[k])@ == p by {
                let w = choose|j: int| 0 <= j < self.backups@.len() && (#[trigger] self.backups@[j]).0@ == p;
                assert(keys@[w]@ == p);
            }
            assert forall|a: int, b: int| 0 <= a < b < keys@.len() implies (#[trigger] keys@[a])@
                != (#[trigger] keys@[b])@ by {
                assert((self.backups@[a]).0@ != (self.backups@[b]).0@);
            }
            assert(keys_cover(keys@, self.backups_view()));
        }
        Ok(keys)
    }

    fn cleanup(&mut self) -> (r: Result<(), IgnoreError>) {
        self.backups = Vec::new();
        proof {
            assert(self.backups_view() =~= Map::<Seq<char>, BackupData>::empty());
        }
        Ok(())
    }
}

/// Removing one entry removes exactly its key from the denoted map, when
/// keys are pairwise distinct.
pub proof fn lemma_remove_key(s: Seq<(String, BackupData)>, i: int)
    requires
        0 <= i < s.len(),
        forall|a: int, b: int| 0 <= a < b < s.len() ==> (#[trigger] s[a]).0@ != (#[trigger] s[b]).0@,
    ensures
        backups_map(s.remove(i)) == backups_map(s).remove(s[i].0@),
    decreases s.len(),
{
    lemma_backups_map_keys(s);
    lemma_backups_map_keys(s.remove(i));
    if i == s.len() - 1 {
        assert(s.remove(i) =~= s.drop_last());
        assert(!backups_map(s.drop_last()).contains_key(s[i].0@)) by {
            if backups_map(s.drop_last()).contains_key(s[i].0@) {
                let w = choose|j: int|
                    0 <= j < s.drop_last().len() && (#[trigger] s.drop_last()[j]).0@ == s[i].0@;
                assert((s[w]).0@ == s[i].0@);
            }
        }
        assert(backups_map(s.drop_last()) =~= backups_map(s.drop_last()).insert(
            s.last().0@,
            s.last().1,
        ).remove(s[i].0@));
    } else {
        assert(forall|a: int, b: int|
            0 <= a < b < s.drop_last().len() ==> (#[trigger] s.drop_last()[a]).0@ != (
            #[trigger] s.drop_last()[b]).0@);
        lemma_remove_key(s.drop_last(), i);
        assert(s.remove(i).drop_last() =~= s.drop_last().remove(i));
        assert(s.remove(i).last() == s.last());
        assert(backups_map(s.remove(i)) == backups_map(s.drop_last().remove(i)).insert(
            s.last().0@,
            s.last().1,
        ));
        assert(s[i].0@ != s.last().0@);
        assert(backups_map(s.drop_last()).remove(s[i].0@).insert(s.last().0@, s.last().1)
            =~= backups_map(s.drop_last()).insert(s.last().0@, s.last().1).remove(s[i].0@));
    }
}

/// How one path character is written inside a backup file name. The
/// encoding must be reversible, so the escape lead `_` and the two
/// separators get two-character forms and every other character stands
/// for itself: `_` becomes `_u`, `/` becomes `_s`, `\\` becomes `_b`.
pub open spec fn spec_encoded_char(c: char) -> Seq<char> {
    if c == '_' {
        seq!['_', 'u']
    } else if c == '/' {
        seq!['_', 's']
    } else if c == '\\' {
        seq!['_', 'b']
    } else {
        seq![c]
    }
}

/// A path written as a single file name: every character encoded, so that
/// no separator remains and the original path can be read back.
pub open spec fn spec_sanitized(s: Seq<char>) -> Seq<char>
    decreases s.len(),
{
    if s.len() == 0 {
        Seq::empty()
    } else {
        spec_encoded_char(s[0]) + spec_sanitized(s.drop_first())
    }
}

/// The reverse reading: `_u`, `_s` and `_b` decode to `_`, `/` and `\\`;
/// anything else stands for itself.
pub open spec fn spec_unsanitized(s: Seq<char>) -> Seq<char>
    decreases s.len(),
{
    if s.len() == 0 {
        Seq::empty()
    } else if s[0] == '_' && s.len() >= 2 && (s[1] == 'u' || s[1] == 's' || s[1] == 'b') {
        let decoded = if s[1] == 'u' {
            '_'
        } else if s[1] == 's' {
            '/'
        } else {
            '\\'
        };
        seq![decoded] + spec_unsanitized(s.subrange(2, s.len() as int))
    } else {
        seq![s[0]] + spec_unsanitized(s.drop_first())
    }
}

/// True when `s` ends with `suffix`.
pub open spec fn ends_with_sub(s: Seq<char>, suffix: Seq<char>) -> bool {
    s.len() >= suffix.len() && s.subrange(s.len() - suffix.len(), s.len() as int) == suffix
}

/// The file name a durable store keeps one record in.
pub open spec fn spec_backup_name(file_path: Seq<char>) -> Seq<char> {
    spec_sanitized(file_path) + ".backup"@
}

/// That file name inside the store's directory.
pub open spec fn spec_backup_path(dir: Seq<char>, file_path: Seq<char>) -> Seq<char> {
    dir + "/"@ + spec_backup_name(file_path)
}

/// The original path a backup file name stands for: the `.backup` suffix
/// dropped and the encoding read back.
pub open spec fn spec_restored_path(name: Seq<char>) -> Seq<char> {
    let base = if ends_with_sub(name, ".backup"@) {
        name.subrange(0, name.len() - ".backup"@.len())
    } else {
        name
    };
    spec_unsanitized(base)
}

/// Decoding undoes encoding character by character.
proof fn lemma_unsanitize_sanitize(p: Seq<char>)
    ensures
        spec_unsanitized(spec_sanitized(p)) == p,
    decreases p.len(),
{
    if p.len() == 0 {
        assert(spec_unsanitized(spec_sanitized(p)) =~= p);
    } else {
        lemma_unsanitize_sanitize(p.drop_first());
        let s = spec_sanitized(p);
        let c = p[0];
        if c == '_' || c == '/' || c == '\\' {
            assert(s.len() >= 2 && s[0] == '_');
            assert(s.subrange(2, s.len() as int) =~= spec_sanitized(p.drop_first()));
            assert(spec_unsanitized(s) =~= p);
        } else {
            assert(s[0] == c);
            assert(s.drop_first() =~= spec_sanitized(p.drop_first()));
            assert(spec_unsanitized(s) =~= p);
        }
    }
}

/// The naming scheme is reversible: reading a record's file name back
/// yields exactly the path the record was stored under.
pub proof fn lemma_backup_name_reversible(file_path: Seq<char>)
    ensures
        spec_restored_path(spec_backup_name(file_path)) == file_path,
{
    let name = spec_backup_name(file_path);
    let suffix = ".backup"@;
    assert(ends_with_sub(name, suffix)) by {
        assert(name.subrange(name.len() - suffix.len(), name.len() as int) =~= suffix);
    }
    assert(name.subrange(0, name.len() - suffix.len()) =~= spec_sanitized(file_path));
    lemma_unsanitize_sanitize(file_path);
}

/// The durable backup store's naming scheme: one record file per backed-up
/// path inside a dedicated directory. The reads and writes themselves are
/// done by the caller that owns the directory; this type computes the
/// names, one reversible file name per path.
pub struct TempFileStorage {
    /// The directory the record files live in.
    pub temp_dir: String,
}

impl TempFileStorage {
    /// Names the backup directory inside the repository's own metadata
    /// directory.
    pub fn new(repo_path: String) -> (r: Self)
        ensures
            r.temp_dir@ == repo_path@ + "/selective-ignore-backups"@,
    {
        let mut dir = repo_path;
        dir.append("/selective-ignore-backups");
        TempFileStorage { temp_dir: dir }
    }

    /// The record file for a path: the reversible encoding of the path,
    /// with a `.backup` extension, inside the store's directory.
    pub fn get_backup_path(&self, file_path: &str) -> (r: String)
        ensures
            r@ == spec_backup_path(self.temp_dir@, file_path@),
    {
        let mut out = self.temp_dir.clone();
        out.append("/");
        let n = file_path.unicode_len();
        let mut i: usize = 0;
        proof {
            assert(file_path@.subrange(0, n as int) =~= file_path@);
        }
        while i < n
            invariant
                0 <= i <= n,
                n == file_path@.len(),
                self.temp_dir@ + "/"@ + spec_sanitized(file_path@) == out@ + spec_sanitized(
                    file_path@.subrange(i as int, n as int),
                ),
            decreases n - i,
        {
            let c = file_path.get_char(i);
            proof {
                assert(file_path@.subrange(i as int, n as int)[0] == file_path@[i as int]);
                assert(file_path@.subrange(i as int, n as int).drop_first() =~= file_path@
                    .subrange(i + 1, n as int));
            }
            if c == '_' {
                push_char(&mut out, '_');
                push_char(&mut out, 'u');
            } else if c == '/' {
                push_char(&mut out, '_');
                push_char(&mut out, 's');
            } else if c == '\\' {
                push_char(&mut out, '_');
                push_char(&mut out, 'b');
            } else {
                push_char(&mut out, c);
            }
            proof {
                assert(self.temp_dir@ + "/"@ + spec_sanitized(file_path@) == out@
                    + spec_sanitized(file_path@.subrange(i + 1, n as int)));
            }
            i += 1;
        }
        proof {
            assert(spec_sanitized(file_path@.subrange(n as int, n as int)) =~= Seq::<
                char,
            >::empty());
            assert(out@ =~= self.temp_dir@ + "/"@ + spec_sanitized(file_path@));
        }
        out.append(".backup");
        proof {
            assert(out@ =~= spec_backup_path(self.temp_dir@, file_path@));
        }
        out
    }

    /// Reads a record file name back into the path it stands for.
    pub fn restore_file_path_from_backup_name(&self, backup_filename: &str) -> (r: String)
        ensures
            r@ == spec_restored_path(backup_filename@),
    {
        let n = backup_filename.unicode_len();
        let suffix = ".backup";
        let sn = suffix.unicode_len();
        let end = if n >= sn && crate::strutil::match_at_exec(backup_filename, suffix, n - sn) {
            proof {
                assert(ends_with_sub(backup_filename@, ".backup"@));
            }
            n - sn
        } else {
            proof {
                assert(!ends_with_sub(backup_filename@, ".backup"@));
            }
            n
        };
        let ghost base = backup_filename@.subrange(0, end as int);
        let mut out = String::new();
        let mut i: usize = 0;
        proof {
            assert(base.subrange(0, end as int) =~= base);
            if end == n {
                assert(base =~= backup_filename@);
            }
        }
        while i < end
            invariant
                0 <= i <= end <= n,
                n == backup_filename@.len(),
                base == backup_filename@.subrange(0, end as int),
                spec_unsanitized(base) == out@ + spec_unsanitized(
                    base.subrange(i as int, end as int),
                ),
            decreases end - i,
        {
            let c = backup_filename.get_char(i);
            proof {
                assert(base.subrange(i as int, end as int)[0] == base[i as int]);
                assert(base[i as int] == backup_filename@[i as int]);
                assert(base.subrange(i as int, end as int).drop_first() =~= base.subrange(
                    i + 1,
                    end as int,
                ));
            }
            if c == '_' && i + 1 < end {
                let d = backup_filename.get_char(i + 1);
                proof {
                    assert(base.subrange(i as int, end as int).len() >= 2);
                    assert(base.subrange(i as int, end as int)[1] == base[i + 1]);
                    assert(base.subrange(i as int, end as int).subrange(
                        2,
                        base.subrange(i as int, end as int).len() as int,
                    ) =~= base.subrange(i + 2, end as int));
                }
                if d == 'u' {
                    push_char(&mut out, '_');
                    i += 2;
                } else if d == 's' {
                    push_char(&mut out, '/');
                    i += 2;
                } else if d == 'b' {
                    push_char(&mut out, '\\');
                    i += 2;
                } else {
                    push_char(&mut out, '_');
                    i += 1;
                }
            } else {
                push_char(&mut out, c);
                i += 1;
            }
        }
        proof {
            assert(spec_unsanitized(base.subrange(end as int, end as int)) =~= Seq::<
                char,
            >::empty());
            assert(out@ =~= spec_unsanitized(base));
        }
        out
    }
}

} // verus!
