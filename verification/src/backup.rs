//! Snapshots of the whole store: what a backup holds, how its file is
//! named, how the files of a directory are listed, and how a snapshot is
//! put back.
//!
//! Reading and writing the files is the caller's part; this module decides
//! what is written and what the files mean.

use crate::clock::{read_stamp, stamp_as_rfc3339, Timestamp};
use crate::database::Database;
use crate::error::{clock_failure, StoreError, StoreFault};
use crate::model::DatabaseView;
use crate::restore::restore_outcome;
use crate::models::{
    opt_text, AppSetting, AppSettingView, Category, CategoryView, Task, TaskView,
};
use crate::seqs::{lemma_filter_empty, lemma_filter_step, lemma_insert_ordered, ordered, transitive};
use crate::text::{
    chars_of, decimal, decimal_text, lemma_decimal_injective, lemma_decimal_nonempty,
    lemma_text_le_antisymmetric, lemma_text_le_transitive, same_text, text_at_or_before, text_le,
};
use std::path::PathBuf;
use vstd::prelude::*;
use vstd::seq_lib::{to_multiset_build, to_multiset_insert};
use vstd::string::*;

verus! {

/// `std::path::PathBuf`, carried through as it is.
#[verifier::external_type_specification]
#[verifier::external_body]
pub struct ExPathBuf(PathBuf);

/// What every backup file name starts with.
pub open spec fn name_prefix() -> Seq<char> {
    "yuflow_backup_"@
}

/// What every backup file name ends with.
pub open spec fn name_suffix() -> Seq<char> {
    ".json"@
}

/// The version written into every snapshot.
pub open spec fn format_version() -> Seq<char> {
    "1.0.0"@
}

/// The name of the backup file made at the second that `stamp` names.
pub open spec fn file_name_of(stamp: Seq<char>) -> Seq<char> {
    name_prefix() + stamp + name_suffix()
}

/// Whether a file name is that of a backup.
pub open spec fn is_backup_name(name: Seq<char>) -> bool {
    name_prefix().is_prefix_of(name) && name_suffix().is_suffix_of(name)
}

/// What stands between prefix and suffix in the name of a backup.
pub open spec fn stamp_of(name: Seq<char>) -> Seq<char> {
    name.subrange(name_prefix().len() as int, name.len() - name_suffix().len())
}

/// How many characters a stamp `YYYYMMDD_HHMMSS` holds.
pub const STAMP_LEN: usize = 15;

/// The stamp with the number `k` attached, so that several backups of one
/// second can lie side by side; the stamp itself for `k == 0`.
pub open spec fn numbered(stamp: Seq<char>, k: nat) -> Seq<char> {
    if k == 0 {
        stamp
    } else {
        stamp + "_"@ + decimal(k)
    }
}

/// The `k`-th name that a backup made at `stamp` may bear.
pub open spec fn candidate(stamp: Seq<char>, k: nat) -> Seq<char> {
    file_name_of(numbered(stamp, k))
}

/// No file bears the name yet.
pub open spec fn is_free(taken: Seq<Seq<char>>, name: Seq<char>) -> bool {
    forall|i: int| 0 <= i < taken.len() ==> #[trigger] taken[i] != name
}

/// The `k`-th name is free and every name before it is taken.
pub open spec fn is_first_free(taken: Seq<Seq<char>>, stamp: Seq<char>, k: nat) -> bool {
    &&& is_free(taken, candidate(stamp, k))
    &&& forall|j: nat| j < k ==> !is_free(taken, #[trigger] candidate(stamp, j))
}

/// `name` is one of the first `k` names for `stamp`.
pub open spec fn is_early_candidate(name: Seq<char>, stamp: Seq<char>, k: nat) -> bool {
    exists|j: nat| j < k && name == #[trigger] candidate(stamp, j)
}

/// Whether every character is a decimal digit.
pub open spec fn all_digits(s: Seq<char>) -> bool {
    forall|i: int| 0 <= i < s.len() ==> '0' <= #[trigger] s[i] <= '9'
}

/// The part of what stands between prefix and suffix that names the time:
/// where a stamp's worth of characters is followed by `_` and a number,
/// those characters; else the whole.
pub open spec fn time_part(middle: Seq<char>) -> Seq<char> {
    if middle.len() > STAMP_LEN + 1 && middle[STAMP_LEN as int] == '_' && all_digits(
        middle.skip(STAMP_LEN + 1),
    ) {
        middle.take(STAMP_LEN as int)
    } else {
        middle
    }
}

/// The whole state of the store at one instant.
#[derive(Debug)]
pub struct BackupData {
    pub version: String,
    pub created_at: String,
    pub tasks: Vec<Task>,
    pub categories: Vec<Category>,
    pub settings: Vec<AppSetting>,
}

/// The value of a [`BackupData`].
pub struct BackupDataView {
    pub version: Seq<char>,
    pub created_at: Seq<char>,
    pub tasks: Seq<TaskView>,
    pub categories: Seq<CategoryView>,
    pub settings: Seq<AppSettingView>,
}

impl View for BackupData {
    type V = BackupDataView;

    open spec fn view(&self) -> BackupDataView {
        BackupDataView {
            version: self.version@,
            created_at: self.created_at@,
            tasks: self.tasks.deep_view(),
            categories: self.categories.deep_view(),
            settings: self.settings.deep_view(),
        }
    }
}

/// What is known of one backup file.
#[derive(Debug)]
pub struct BackupMetadata {
    pub filename: String,
    pub created_at: String,
    pub size_bytes: u64,
    pub task_count: usize,
    pub category_count: usize,
}

/// The value of a [`BackupMetadata`].
pub struct BackupMetadataView {
    pub filename: Seq<char>,
    pub created_at: Seq<char>,
    pub size_bytes: nat,
    pub task_count: nat,
    pub category_count: nat,
}

impl View for BackupMetadata {
    type V = BackupMetadataView;

    open spec fn view(&self) -> BackupMetadataView {
        BackupMetadataView {
            filename: self.filename@,
            created_at: self.created_at@,
            size_bytes: self.size_bytes as nat,
            task_count: self.task_count as nat,
            category_count: self.category_count as nat,
        }
    }
}

impl DeepView for BackupMetadata {
    type V = BackupMetadataView;

    open spec fn deep_view(&self) -> BackupMetadataView {
        self@
    }
}

/// Keeper of the directory in which backups lie.
pub struct BackupManager {
    backup_dir: PathBuf,
}

impl BackupManager {
    /// A manager for the backups in `backup_dir`.
    pub fn new(backup_dir: PathBuf) -> (manager: BackupManager)
        ensures
            manager.dir() == backup_dir,
    {
        BackupManager { backup_dir }
    }

    /// The directory in which the backups lie.
    pub closed spec fn dir(&self) -> PathBuf {
        self.backup_dir
    }

    /// The directory in which the backups lie.
    pub fn get_backup_dir(&self) -> (dir: &PathBuf)
        ensures
            *dir == self.dir(),
    {
        &self.backup_dir
    }
}

/// What the caller found out about one file of the backup directory.
#[derive(Debug)]
pub struct BackupFile {
    pub filename: String,
    pub size_bytes: u64,
    /// When the file was last modified, in seconds since 1970.
    pub modified_secs: u64,
    /// The numbers of tasks and categories in the file, or `None` if the
    /// file could not be read as a snapshot.
    pub counts: Option<(usize, usize)>,
}

/// The value of a [`BackupFile`].
pub struct BackupFileView {
    pub filename: Seq<char>,
    pub size_bytes: nat,
    pub modified_secs: nat,
    pub counts: Option<(nat, nat)>,
}

impl View for BackupFile {
    type V = BackupFileView;

    open spec fn view(&self) -> BackupFileView {
        BackupFileView {
            filename: self.filename@,
            size_bytes: self.size_bytes as nat,
            modified_secs: self.modified_secs as nat,
            counts: match self.counts {
                Some((tasks, categories)) => Some((tasks as nat, categories as nat)),
                None => None,
            },
        }
    }
}

impl DeepView for BackupFile {
    type V = BackupFileView;

    open spec fn deep_view(&self) -> BackupFileView {
        self@
    }
}

/// What is listed of a backup file, given what its name reads as: the time
/// in its name where that reads as one, else the time of its last change
/// in seconds; the counts found in it, else zero.
pub open spec fn metadata_given(file: BackupFileView, read: Option<Seq<char>>)
    -> BackupMetadataView {
    BackupMetadataView {
        filename: file.filename,
        created_at: match read {
            Some(at) => at,
            None => decimal(file.modified_secs),
        },
        size_bytes: file.size_bytes,
        task_count: match file.counts {
            Some(c) => c.0,
            None => 0,
        },
        category_count: match file.counts {
            Some(c) => c.1,
            None => 0,
        },
    }
}

/// What is listed of a backup file.
pub open spec fn metadata_of(file: BackupFileView) -> BackupMetadataView {
    metadata_given(file, stamp_as_rfc3339(time_part(stamp_of(file.filename))))
}

/// The test "bears the name of a backup".
pub open spec fn is_backup_file() -> spec_fn(BackupFileView) -> bool {
    |f: BackupFileView| is_backup_name(f.filename)
}

/// What is listed of each backup among `files`, in the order of `files`.
pub open spec fn listed(files: Seq<BackupFileView>) -> Seq<BackupMetadataView> {
    files.filter(is_backup_file()).map_values(|f: BackupFileView| metadata_of(f))
}

/// The order in which backups are listed: latest creation time first, the
/// times compared as text, and among equal times the name that sorts last
/// first.
pub open spec fn newest_first() -> spec_fn(BackupMetadataView, BackupMetadataView) -> bool {
    |a: BackupMetadataView, b: BackupMetadataView|
        text_le(b.created_at, a.created_at) && (a.created_at == b.created_at ==> text_le(
            b.filename,
            a.filename,
        ))
}

/// Whether `listing` holds exactly what is listed of the backups among
/// `files`, newest first.
pub open spec fn is_backup_listing(files: Seq<BackupFileView>, listing: Seq<BackupMetadataView>)
    -> bool {
    &&& ordered(listing, newest_first())
    &&& listing.to_multiset() == listed(files).to_multiset()
}

/// The order newest first is transitive.
pub proof fn lemma_newest_first_transitive()
    ensures
        transitive(newest_first()),
{
    let le = newest_first();
    assert forall|a: BackupMetadataView, b: BackupMetadataView, c: BackupMetadataView|
        #[trigger] le(a, b) && #[trigger] le(b, c) implies le(a, c) by {
        lemma_text_le_transitive(c.created_at, b.created_at, a.created_at);
        if a.created_at == c.created_at {
            lemma_text_le_antisymmetric(a.created_at, b.created_at);
            lemma_text_le_transitive(c.filename, b.filename, a.filename);
        }
    }
}

/// Whether `a` is listed at or before `b`. Of two entries that differ in
/// time or name exactly one is listed before the other.
pub fn listed_before(a: &BackupMetadata, b: &BackupMetadata) -> (yes: bool)
    ensures
        yes == newest_first()(a@, b@),
        !yes ==> newest_first()(b@, a@),
{
    if !text_at_or_before(b.created_at.as_str(), a.created_at.as_str()) {
        proof {
            assert(a@.created_at != b@.created_at) by {
                if a@.created_at == b@.created_at {
                    assert(a@.created_at =~= a@.created_at.subrange(0, a@.created_at.len() as int));
                }
            }
        }
        false
    } else if same_text(a.created_at.as_str(), b.created_at.as_str()) {
        text_at_or_before(b.filename.as_str(), a.filename.as_str())
    } else {
        proof {
            if text_le(a@.created_at, b@.created_at) {
                lemma_text_le_antisymmetric(a@.created_at, b@.created_at);
            }
        }
        true
    }
}

/// One more file, seen through `listed`.
pub proof fn lemma_listed_step(files: Seq<BackupFileView>, file: BackupFileView)
    ensures
        listed(files.push(file)) == if is_backup_name(file.filename) {
            listed(files).push(metadata_of(file))
        } else {
            listed(files)
        },
{
    lemma_filter_step(files, file, is_backup_file());
    if is_backup_name(file.filename) {
        assert(files.filter(is_backup_file()).push(file).map_values(
            |f: BackupFileView| metadata_of(f),
        ) =~= listed(files).push(metadata_of(file)));
    }
}

/// The name of the backup file made at the second that `stamp` names.
pub fn backup_file_name(stamp: &str) -> (name: String)
    ensures
        name@ == file_name_of(stamp@),
{
    let mut name = String::from_str("yuflow_backup_");
    name.append(stamp);
    name.append(".json");
    name
}

/// Whether a file name is that of a backup.
pub fn has_backup_name(name: &str) -> (yes: bool)
    ensures
        yes == is_backup_name(name@),
{
    crate::text::starts_with(name, "yuflow_backup_") && crate::text::ends_with(name, ".json")
}

/// What stands between prefix and suffix in a file name, or `None` if the
/// name is not that of a backup.
pub fn stamp_in_name(name: &str) -> (stamp: Option<String>)
    ensures
        stamp is Some <==> is_backup_name(name@),
        stamp matches Some(s) ==> s@ == stamp_of(name@),
{
    if !has_backup_name(name) {
        return None;
    }
    proof {
        reveal_strlit("yuflow_backup_");
        reveal_strlit(".json");
        lemma_backup_name_length(name@);
    }
    let n = name.unicode_len();
    Some(String::from_str(name.substring_char(14, n - 5)))
}

/// The part of what stands between prefix and suffix that names the time.
pub fn time_in_stamp(middle: &str) -> (time: String)
    ensures
        time@ == time_part(middle@),
{
    let chars = chars_of(middle);
    let n = chars.len();
    if n <= STAMP_LEN + 1 || chars[STAMP_LEN] != '_' {
        return String::from_str(middle);
    }
    let ghost tail = middle@.skip(STAMP_LEN + 1);
    let mut i: usize = STAMP_LEN + 1;
    while i < n
        invariant
            STAMP_LEN + 1 <= i <= n,
            n == chars@.len(),
            chars@ == middle@,
            tail == middle@.skip(STAMP_LEN + 1),
            forall|k: int| 0 <= k < i - (STAMP_LEN + 1) ==> '0' <= #[trigger] tail[k] <= '9',
        decreases n - i,
    {
        let c = chars[i];
        proof {
            assert(tail[i - (STAMP_LEN + 1)] == c);
        }
        if !('0' <= c && c <= '9') {
            return String::from_str(middle);
        }
        i = i + 1;
    }
    String::from_str(middle.substring_char(0, STAMP_LEN))
}

/// A file name takes apart into what it was put together from.
pub proof fn lemma_stamp_of_file_name(middle: Seq<char>)
    ensures
        is_backup_name(file_name_of(middle)),
        stamp_of(file_name_of(middle)) == middle,
{
    let name = file_name_of(middle);
    let p = name_prefix();
    let q = name_suffix();
    assert(p =~= name.subrange(0, p.len() as int));
    assert(q =~= name.subrange(name.len() - q.len(), name.len() as int));
    assert(stamp_of(name) =~= middle);
}

/// Different numbers give different names.
pub proof fn lemma_candidates_differ(stamp: Seq<char>, j: nat, k: nat)
    requires
        j != k,
    ensures
        candidate(stamp, j) != candidate(stamp, k),
{
    lemma_stamp_of_file_name(numbered(stamp, j));
    lemma_stamp_of_file_name(numbered(stamp, k));
    if candidate(stamp, j) == candidate(stamp, k) {
        let x = numbered(stamp, j);
        let y = numbered(stamp, k);
        assert(x == y);
        reveal_strlit("_");
        lemma_decimal_nonempty(j);
        lemma_decimal_nonempty(k);
        if j != 0 && k != 0 {
            let n = stamp.len() + 1;
            assert(x.skip(n as int) =~= decimal(j));
            assert(y.skip(n as int) =~= decimal(k));
            lemma_decimal_injective(j, k);
        } else {
            assert(x.len() != y.len());
        }
    }
}

/// Where `name` stands among `names`, if it does.
pub fn position_of(names: &Vec<String>, name: &str) -> (at: Option<usize>)
    ensures
        at matches Some(i) ==> i < names.len() && names[i as int]@ == name@,
        at is None ==> is_free(names.deep_view(), name@),
{
    let mut i: usize = 0;
    while i < names.len()
        invariant
            i <= names.len(),
            forall|k: int| 0 <= k < i ==> names[k]@ != name@,
        decreases names.len() - i,
    {
        if same_text(names[i].as_str(), name) {
            return Some(i);
        }
        i = i + 1;
    }
    None
}

/// The `k`-th name that a backup made at `stamp` may bear.
pub fn candidate_name(stamp: &str, k: usize) -> (name: String)
    ensures
        name@ == candidate(stamp@, k as nat),
{
    if k == 0 {
        backup_file_name(stamp)
    } else {
        let mut middle = String::from_str(stamp);
        middle.append("_");
        let number = decimal_text(k as u64);
        middle.append(number.as_str());
        backup_file_name(middle.as_str())
    }
}

/// The first name for a backup made at `stamp` that no file in `taken`
/// bears: the plain name where that is free, else the name with the least
/// number attached that is free.
pub fn free_backup_name(stamp: &str, taken: &Vec<String>) -> (name: String)
    ensures
        is_backup_name(name@),
        is_free(taken.deep_view(), name@),
        exists|k: nat|
            is_first_free(taken.deep_view(), stamp@, k) && name@ == #[trigger] candidate(stamp@, k),
{
    let ghost all = taken.deep_view();
    let mut rest = taken.clone();
    let mut k: usize = 0;
    let mut name = candidate_name(stamp, 0);
    let mut hit = position_of(&rest, name.as_str());
    proof {
        assert(rest@ =~= taken@);
        assert(rest.deep_view() =~= all);
    }
    while hit.is_some()
        invariant
            all == taken.deep_view(),
            k + rest.len() == taken.len(),
            name@ == candidate(stamp@, k as nat),
            hit matches Some(i) ==> i < rest.len() && rest[i as int]@ == name@,
            hit is None ==> is_free(rest.deep_view(), name@),
            forall|b: int| 0 <= b < rest.len() ==> all.contains(#[trigger] rest.deep_view()[b]),
            forall|a: int|
                0 <= a < all.len() ==> rest.deep_view().contains(#[trigger] all[a])
                    || is_early_candidate(all[a], stamp@, k as nat),
            forall|j: nat| j < k ==> !is_free(all, #[trigger] candidate(stamp@, j)),
        decreases rest.len(),
    {
        let i = hit.unwrap();
        let ghost before = rest.deep_view();
        let ghost found = name@;
        proof {
            assert(before[i as int] == found);
            assert(all.contains(before[i as int]));
            let a = choose|a: int| 0 <= a < all.len() && all[a] == found;
            assert(all[a] == candidate(stamp@, k as nat));
            assert(!is_free(all, candidate(stamp@, k as nat)));
        }
        rest.remove(i);
        proof {
            let after = rest.deep_view();
            assert(after =~= before.remove(i as int));
            assert forall|b: int| 0 <= b < after.len() implies all.contains(#[trigger] after[b]) by {
                if b < i {
                    assert(after[b] == before[b]);
                } else {
                    assert(after[b] == before[b + 1]);
                }
            }
            assert forall|a: int| 0 <= a < all.len() implies after.contains(#[trigger] all[a])
                || is_early_candidate(all[a], stamp@, (k + 1) as nat) by {
                if is_early_candidate(all[a], stamp@, k as nat) {
                    let j = choose|j: nat| j < k && all[a] == #[trigger] candidate(stamp@, j);
                    assert(j < k + 1 && all[a] == candidate(stamp@, j));
                } else {
                    assert(before.contains(all[a]));
                    let b = choose|b: int| 0 <= b < before.len() && before[b] == all[a];
                    if b == i {
                        assert(all[a] == candidate(stamp@, k as nat));
                    } else if b < i {
                        assert(after[b] == all[a]);
                    } else {
                        assert(after[b - 1] == all[a]);
                    }
                }
            }
        }
        k = k + 1;
        name = candidate_name(stamp, k);
        hit = position_of(&rest, name.as_str());
    }
    proof {
        lemma_stamp_of_file_name(numbered(stamp@, k as nat));
        assert forall|a: int| 0 <= a < all.len() implies #[trigger] all[a] != name@ by {
            if is_early_candidate(all[a], stamp@, k as nat) {
                let j = choose|j: nat| j < k && all[a] == #[trigger] candidate(stamp@, j);
                lemma_candidates_differ(stamp@, j, k as nat);
            } else {
                let b = choose|b: int|
                    0 <= b < rest.deep_view().len() && rest.deep_view()[b] == all[a];
                assert(rest.deep_view()[b] != name@);
            }
        }
        assert(is_first_free(all, stamp@, k as nat));
    }
    name
}

/// What is listed of a backup file, given what its name reads as.
pub fn describe_file(file: &BackupFile, read: Option<String>) -> (listing: BackupMetadata)
    ensures
        listing@ == metadata_given(file@, opt_text(read)),
{
    let created_at = match read {
        Some(at) => at,
        None => decimal_text(file.modified_secs),
    };
    let (task_count, category_count) = match file.counts {
        Some((tasks, categories)) => (tasks, categories),
        None => (0, 0),
    };
    BackupMetadata {
        filename: file.filename.clone(),
        created_at,
        size_bytes: file.size_bytes,
        task_count,
        category_count,
    }
}

/// A prefix and a suffix that share no character fit into a name that
/// has both only if the name is as long as the two together.
pub proof fn lemma_backup_name_length(name: Seq<char>)
    requires
        is_backup_name(name),
    ensures
        name.len() >= name_prefix().len() + name_suffix().len(),
{
    reveal_strlit("yuflow_backup_");
    reveal_strlit(".json");
    let p = name_prefix();
    let q = name_suffix();
    assert(p.len() == 14 && q.len() == 5);
    if name.len() < 19 {
        let start = name.len() - 5;
        assert(p =~= name.subrange(0, 14));
        assert(q =~= name.subrange(start, name.len() as int));
        assert(q[0] == '.');
        assert(name[start] == '.');
        assert(name[start] == p[start]);
        assert(p[9] != '.' && p[10] != '.' && p[11] != '.' && p[12] != '.' && p[13] != '.');
        assert(p[0] != '.' && p[1] != '.' && p[2] != '.' && p[3] != '.' && p[4] != '.');
        assert(p[5] != '.' && p[6] != '.' && p[7] != '.' && p[8] != '.');
    }
}

impl BackupManager {
    /// What there is to list of the backups among the files of the
    /// directory, newest first. Files that do not bear the name of a
    /// backup are passed over.
    pub fn list_backups(&self, files: &Vec<BackupFile>) -> (found: Vec<BackupMetadata>)
        ensures
            is_backup_listing(files.deep_view(), found.deep_view()),
    {
        let ghost le = newest_first();
        let ghost all = files.deep_view();
        let mut found: Vec<BackupMetadata> = Vec::new();
        let mut i: usize = 0;
        proof {
            assert(found.deep_view() =~= Seq::empty());
            assert(all.take(0) =~= Seq::empty());
            lemma_filter_empty(is_backup_file());
            assert(listed(all.take(0)) =~= Seq::empty());
            lemma_newest_first_transitive();
        }
        while i < files.len()
            invariant
                i <= files.len(),
                all == files.deep_view(),
                le == newest_first(),
                transitive(le),
                ordered(found.deep_view(), le),
                found.deep_view().to_multiset() == listed(all.take(i as int)).to_multiset(),
            decreases files.len() - i,
        {
            let file = &files[i];
            proof {
                assert(all[i as int] == file@);
                assert(all.take(i as int + 1) =~= all.take(i as int).push(file@));
                lemma_listed_step(all.take(i as int), file@);
            }
            if let Some(stamp) = stamp_in_name(file.filename.as_str()) {
                let time = time_in_stamp(stamp.as_str());
                let entry = describe_file(file, read_stamp(time.as_str()));
                let ghost so_far = found.deep_view();
                let ghost added = entry@;
                let mut p: usize = found.len();
                let mut settled = false;
                while p > 0 && !settled
                    invariant
                        p <= found.len(),
                        found.deep_view() == so_far,
                        added == entry@,
                        settled ==> p > 0 && le(so_far[p - 1], added),
                        forall|k: int| p <= k < so_far.len() ==> le(added, #[trigger] so_far[k]),
                        le == newest_first(),
                    decreases
                            (if settled {
                                0int
                            } else {
                                p + 1
                            }),
                {
                    if listed_before(&found[p - 1], &entry) {
                        settled = true;
                    } else {
                        p = p - 1;
                    }
                }
                proof {
                    assert(added == metadata_of(file@));
                    to_multiset_build(listed(all.take(i as int)), added);
                    to_multiset_insert(so_far, p as int, added);
                    lemma_insert_ordered(so_far, le, p as int, added);
                }
                found.insert(p, entry);
                proof {
                    assert(found.deep_view() =~= so_far.insert(p as int, added));
                }
            }
            i = i + 1;
        }
        proof {
            assert(all.take(i as int) =~= all);
        }
        found
    }
}

/// Whether `snapshot` holds the whole of `db`, taken at the time `now`:
/// every task, latest `created_at` first; every category, ordered by
/// name; every setting.
pub open spec fn is_snapshot_of(db: DatabaseView, snapshot: BackupDataView, now: Seq<char>)
    -> bool {
    &&& snapshot.version == format_version()
    &&& snapshot.created_at == now
    &&& db.is_task_listing(None, snapshot.tasks)
    &&& db.is_category_listing(snapshot.categories)
    &&& snapshot.settings == db.settings
}

/// What is reported of a backup once it is written.
pub open spec fn written_metadata(filename: Seq<char>, data: BackupDataView, size_bytes: nat)
    -> BackupMetadataView {
    BackupMetadataView {
        filename,
        created_at: data.created_at,
        size_bytes,
        task_count: data.tasks.len(),
        category_count: data.categories.len(),
    }
}

impl BackupManager {
    /// The snapshot of `database` taken at `now`, with the name of the
    /// file to write it to: the first name for `now` that none of the files
    /// in `taken` bears, so that no backup is written over another.
    pub fn create_backup_at(&self, database: &Database, now: Timestamp, taken: &Vec<String>) -> (draft:
        (String, BackupData))
        ensures
            is_backup_name(draft.0@),
            is_free(taken.deep_view(), draft.0@),
            exists|k: nat|
                is_first_free(taken.deep_view(), now.stamp@, k) && draft.0@ == #[trigger] candidate(
                    now.stamp@,
                    k,
                ),
            is_free(taken.deep_view(), file_name_of(now.stamp@)) ==> draft.0@ == file_name_of(
                now.stamp@,
            ),
            is_snapshot_of(database@, draft.1@, now.rfc3339@),
    {
        let rows = database.rows();
        let filename = free_backup_name(now.stamp.as_str(), taken);
        proof {
            if is_free(taken.deep_view(), file_name_of(now.stamp@)) {
                let k = choose|k: nat|
                    is_first_free(taken.deep_view(), now.stamp@, k) && filename@
                        == #[trigger] candidate(now.stamp@, k);
                if k > 0 {
                    assert(!is_free(taken.deep_view(), candidate(now.stamp@, 0)));
                }
            }
        }
        let data = BackupData {
            version: String::from_str("1.0.0"),
            created_at: now.rfc3339,
            tasks: rows.get_tasks(&None),
            categories: rows.get_categories(),
            settings: rows.get_all_settings(),
        };
        (filename, data)
    }

    /// The snapshot of `database` taken at the time the clock shows, with
    /// the name of the file to write it to, which none of the files in
    /// `taken` bears; or the fault that the clock cannot be read.
    pub fn create_backup(&self, database: &Database, taken: &Vec<String>) -> (r: Result<
        (String, BackupData),
        StoreError,
    >)
        ensures
            r matches Err(e) ==> e@ == clock_failure(),
            r matches Ok(draft) ==> {
                &&& is_backup_name(draft.0@)
                &&& is_free(taken.deep_view(), draft.0@)
                &&& exists|stamp: Seq<char>, k: nat|
                    is_first_free(taken.deep_view(), stamp, k) && draft.0@ == #[trigger] candidate(
                        stamp,
                        k,
                    )
                &&& is_snapshot_of(database@, draft.1@, draft.1@.created_at)
            },
    {
        match crate::clock::now() {
            Some(now) => {
                let ghost stamp = now.stamp@;
                let draft = self.create_backup_at(database, now, taken);
                proof {
                    let k = choose|k: nat|
                        is_first_free(taken.deep_view(), stamp, k) && draft.0@
                            == #[trigger] candidate(stamp, k);
                    assert(is_first_free(taken.deep_view(), stamp, k) && draft.0@ == candidate(
                        stamp,
                        k,
                    ));
                }
                Ok(draft)
            },
            None => Err(StoreError::StoreFailure(StoreFault::ClockUnavailable)),
        }
    }

    /// What is reported of the backup `data` once it is written to the
    /// file `filename` and takes `size_bytes` there.
    pub fn backup_metadata(&self, filename: String, data: &BackupData, size_bytes: u64) -> (meta:
        BackupMetadata)
        ensures
            meta@ == written_metadata(filename@, data@, size_bytes as nat),
    {
        BackupMetadata {
            filename,
            created_at: data.created_at.clone(),
            size_bytes,
            task_count: data.tasks.len(),
            category_count: data.categories.len(),
        }
    }

    /// Puts the snapshot `data` back into `database` at the time `now`, or
    /// leaves `database` as it was and says why.
    pub fn restore_backup_at(&self, data: &BackupData, database: &mut Database, now: &String) -> (r:
        Result<(), StoreError>)
        ensures
            final(database)@.wf(),
            match restore_outcome(
                old(database)@,
                data@.categories,
                data@.tasks,
                data@.settings,
                now@,
            ) {
                Ok(restored) => r is Ok && final(database)@ == restored,
                Err(e) => r matches Err(x) && x@ == e && final(database)@ == old(database)@,
            },
    {
        database.restore_at(&data.categories, &data.tasks, &data.settings, now)
    }

    /// Puts the snapshot `data` back into `database` at the time the clock
    /// shows, or leaves `database` as it was and says why. Where the clock
    /// cannot be read nothing is put back.
    pub fn restore_backup(&self, data: &BackupData, database: &mut Database) -> (r: Result<
        (),
        StoreError,
    >)
        ensures
            final(database)@.wf(),
            (r matches Err(e) && e@ == clock_failure() && final(database)@ == old(database)@)
                || exists|now: Seq<char>|
                match #[trigger] restore_outcome(
                    old(database)@,
                    data@.categories,
                    data@.tasks,
                    data@.settings,
                    now,
                ) {
                    Ok(restored) => r is Ok && final(database)@ == restored,
                    Err(e) => r matches Err(x) && x@ == e && final(database)@ == old(database)@,
                },
    {
        match crate::clock::now() {
            Some(now) => {
                let r = self.restore_backup_at(data, database, &now.rfc3339);
                proof {
                    let stamp = now.rfc3339@;
                    assert(match restore_outcome(
                        old(database)@,
                        data@.categories,
                        data@.tasks,
                        data@.settings,
                        stamp,
                    ) {
                        Ok(restored) => r is Ok && database@ == restored,
                        Err(e) => r matches Err(x) && x@ == e && database@ == old(database)@,
                    });
                }
                r
            },
            None => {
                let _ = database.rows();
                Err(StoreError::StoreFailure(StoreFault::ClockUnavailable))
            },
        }
    }
}

} // verus!
