//! The backup index: backup files read back as entries, newest first, and
//! labelled from the entries they were taken of; and the plan of a new
//! backup.
use vstd::prelude::*;
use crate::codec::{
    backup_name, decode_backup, decode_config, decoded_backup, decoded_config, encode_backup,
    lemma_backup_round_trip, no_underscore, SettingsKind,
};
use crate::entries::{
    format_relative_time, relative_time_text, BackupEntry, ProfileData, ServerData, SettingsEntry,
};
use crate::order::{equivalent, sort_stable, sorted_by_key, stable_arrangement, SortKey};
use crate::scan::{lemma_arrangement_matches, one_for_one, FileListing};
use crate::text::{decimal, decimal_string, is_digit, same_text};

verus! {

broadcast use vstd::seq_lib::group_to_multiset_ensures;

impl SortKey for BackupEntry {
    /// Newer backups come first.
    open spec fn key_less(&self, other: &Self) -> bool {
        self.timestamp > other.timestamp
    }

    fn less(&self, other: &Self) -> (r: bool) {
        self.timestamp > other.timestamp
    }

    proof fn lemma_key_less_transitive(a: &Self, b: &Self, c: &Self) {
    }

    proof fn lemma_key_less_irreflexive(a: &Self) {
    }

    proof fn lemma_key_less_connected(a: &Self, b: &Self, c: &Self) {
    }
}

/// The synthetic id of a backup: its label and timestamp.
pub open spec fn backup_id(label: Seq<char>, ts: u64) -> Seq<char> {
    label + "_"@ + decimal(ts as nat)
}

/// `b` is the entry of backup file `f`, before it is labelled from the live
/// entries.
pub open spec fn describes_backup(b: BackupEntry, f: FileListing, now: u64) -> bool {
    &&& decoded_backup(f.name@) == Some((b.name@, b.kind, b.original_id@, b.timestamp))
    &&& b.id@ == backup_id(b.name@, b.timestamp)
    &&& b.display_name@ == b.name@
    &&& b.path == f.path
    &&& b.original_name is None
    &&& b.relative_time@ == relative_time_text(b.timestamp, now)
}

fn label_id(label: &str, timestamp: u64) -> (r: String)
    ensures
        r@ == backup_id(label@, timestamp),
{
    let r = String::from_str(label).concat("_").concat(decimal_string(timestamp).as_str());
    assert(r@ =~= backup_id(label@, timestamp));
    r
}

/// The entry of a backup file, or `None` where the name is not a backup
/// filename.
pub fn backup_entry(file: &FileListing, now: u64) -> (r: Option<BackupEntry>)
    ensures
        r is Some <==> decoded_backup(file.name@) is Some,
        r matches Some(b) ==> describes_backup(b, *file, now),
{
    match decode_backup(file.name.as_str()) {
        Some((label, kind, original_id, timestamp)) => Some(
            BackupEntry {
                id: label_id(label.as_str(), timestamp),
                display_name: label.clone(),
                name: label,
                path: file.path.clone(),
                timestamp,
                kind,
                original_id,
                original_name: None,
                relative_time: format_relative_time(timestamp, now),
            },
        ),
        None => None,
    }
}

/// The files of a backups folder whose names are backup filenames, in
/// listing order.
pub open spec fn backup_files(files: Seq<FileListing>) -> Seq<FileListing>
    decreases files.len(),
{
    if files.len() == 0 {
        Seq::empty()
    } else if decoded_backup(files.last().name@) is Some {
        backup_files(files.drop_last()).push(files.last())
    } else {
        backup_files(files.drop_last())
    }
}

/// `r` holds the backups of files `fs`, `idx` giving the file of each, with
/// backups of the same second in the order of their files.
pub open spec fn arranged_from(r: Seq<BackupEntry>, fs: Seq<FileListing>, now: u64, idx: Seq<int>) -> bool {
    &&& idx.len() == r.len()
    &&& forall|k: int|
        0 <= k < r.len() ==> 0 <= #[trigger] idx[k] < fs.len() && describes_backup(r[k], fs[idx[k]], now)
    &&& forall|a: int, b: int| 0 <= a < b < r.len() ==> idx[a] != idx[b]
    &&& forall|a: int, b: int|
        0 <= a < b < r.len() && r[a].timestamp == r[b].timestamp ==> idx[a] < idx[b]
}

proof fn lemma_stable_backups(acc: Seq<BackupEntry>, r: Seq<BackupEntry>, fs: Seq<FileListing>, now: u64)
    requires
        acc.len() == fs.len(),
        forall|k: int| 0 <= k < acc.len() ==> describes_backup(#[trigger] acc[k], fs[k], now),
        exists|idx: Seq<int>| stable_arrangement(r, acc, idx),
    ensures
        exists|idx: Seq<int>| arranged_from(r, fs, now, idx),
{
    let idx = choose|idx: Seq<int>| stable_arrangement(r, acc, idx);
    assert forall|k: int| 0 <= k < r.len() implies 0 <= #[trigger] idx[k] < fs.len()
        && describes_backup(r[k], fs[idx[k]], now) by {
        assert(describes_backup(acc[idx[k]], fs[idx[k]], now));
    }
    assert forall|a: int, b: int|
        0 <= a < b < r.len() && r[a].timestamp == r[b].timestamp implies idx[a] < idx[b] by {
        assert(!r[a].key_less(&r[b]));
        assert(!r[b].key_less(&r[a]));
        assert(equivalent(r[a], r[b]));
    }
    assert(arranged_from(r, fs, now, idx));
}

/// The backups among the files of the backups folders of every profile,
/// newest first; backups of the same second keep their listing order.
pub fn scan_backups(files: &Vec<FileListing>, now: u64) -> (r: Vec<BackupEntry>)
    ensures
        sorted_by_key(r@),
        one_for_one(r@, backup_files(files@), |b: BackupEntry, f: FileListing| describes_backup(b, f, now)),
        exists|idx: Seq<int>| arranged_from(r@, backup_files(files@), now, idx),
{
    let mut acc: Vec<BackupEntry> = Vec::new();
    let mut i: usize = 0;
    while i < files.len()
        invariant
            i <= files@.len(),
            acc@.len() == backup_files(files@.subrange(0, i as int)).len(),
            forall|k: int|
                0 <= k < acc@.len() ==> describes_backup(
                    #[trigger] acc@[k],
                    backup_files(files@.subrange(0, i as int))[k],
                    now,
                ),
        decreases files@.len() - i,
    {
        let ghost prefix = files@.subrange(0, i + 1);
        assert(prefix.drop_last() =~= files@.subrange(0, i as int));
        assert(prefix.last() == files@[i as int]);
        match backup_entry(&files[i], now) {
            Some(b) => acc.push(b),
            None => {},
        }
        i = i + 1;
    }
    assert(files@.subrange(0, files@.len() as int) =~= files@);
    let ghost acc_seq = acc@;
    let r = sort_stable(acc);
    proof {
        let rel = |b: BackupEntry, f: FileListing| describes_backup(b, f, now);
        assert forall|k: int| 0 <= k < acc_seq.len() implies rel(
            #[trigger] acc_seq[k],
            backup_files(files@)[k],
        ) by {}
        lemma_arrangement_matches(acc_seq, r@, backup_files(files@), rel);
        lemma_stable_backups(acc_seq, r@, backup_files(files@), now);
    }
    r
}

/// The display name of the first entry with owner id `id`.
pub open spec fn name_in_entries(es: Seq<SettingsEntry>, id: Seq<char>) -> Option<Seq<char>>
    decreases es.len(),
{
    if es.len() == 0 {
        None
    } else if es[0].id@ == id {
        Some(es[0].display_name@)
    } else {
        name_in_entries(es.drop_first(), id)
    }
}

/// The entries of a profile that hold files of `kind`.
pub open spec fn entries_of(p: ProfileData, kind: SettingsKind) -> Seq<SettingsEntry> {
    match kind {
        SettingsKind::User => p.accounts@,
        SettingsKind::Char => p.characters@,
    }
}

/// The display name of the first entry of `kind` with owner id `id`, over the
/// profiles in order.
pub open spec fn name_in_profiles(ps: Seq<ProfileData>, kind: SettingsKind, id: Seq<char>) -> Option<
    Seq<char>,
>
    decreases ps.len(),
{
    if ps.len() == 0 {
        None
    } else {
        match name_in_entries(entries_of(ps[0], kind), id) {
            Some(n) => Some(n),
            None => name_in_profiles(ps.drop_first(), kind, id),
        }
    }
}

/// The display name of the first entry of `kind` with owner id `id`, over the
/// servers and their profiles in order.
pub open spec fn name_in_servers(ss: Seq<ServerData>, kind: SettingsKind, id: Seq<char>) -> Option<
    Seq<char>,
>
    decreases ss.len(),
{
    if ss.len() == 0 {
        None
    } else {
        match name_in_profiles(ss[0].profiles@, kind, id) {
            Some(n) => Some(n),
            None => name_in_servers(ss.drop_first(), kind, id),
        }
    }
}

/// An optional string as optional text.
pub open spec fn opt_text(o: Option<String>) -> Option<Seq<char>> {
    match o {
        Some(s) => Some(s@),
        None => None,
    }
}

fn find_in_entries(es: &Vec<SettingsEntry>, start: usize, id: &str) -> (r: Option<String>)
    requires
        start <= es@.len(),
    ensures
        opt_text(r) == name_in_entries(es@.skip(start as int), id@),
    decreases es@.len() - start,
{
    if start == es.len() {
        return None;
    }
    assert(es@.skip(start as int).drop_first() =~= es@.skip(start + 1));
    if same_text(es[start].id.as_str(), id) {
        Some(es[start].display_name.clone())
    } else {
        find_in_entries(es, start + 1, id)
    }
}

fn find_in_profiles(ps: &Vec<ProfileData>, start: usize, kind: SettingsKind, id: &str) -> (r:
    Option<String>)
    requires
        start <= ps@.len(),
    ensures
        opt_text(r) == name_in_profiles(ps@.skip(start as int), kind, id@),
    decreases ps@.len() - start,
{
    if start == ps.len() {
        return None;
    }
    assert(ps@.skip(start as int).drop_first() =~= ps@.skip(start + 1));
    let p = &ps[start];
    let es = match kind {
        SettingsKind::User => &p.accounts,
        SettingsKind::Char => &p.characters,
    };
    assert(es@.skip(0) =~= es@);
    match find_in_entries(es, 0, id) {
        Some(n) => Some(n),
        None => find_in_profiles(ps, start + 1, kind, id),
    }
}

fn find_in_servers(ss: &Vec<ServerData>, start: usize, kind: SettingsKind, id: &str) -> (r: Option<
    String,
>)
    requires
        start <= ss@.len(),
    ensures
        opt_text(r) == name_in_servers(ss@.skip(start as int), kind, id@),
    decreases ss@.len() - start,
{
    if start == ss.len() {
        return None;
    }
    assert(ss@.skip(start as int).drop_first() =~= ss@.skip(start + 1));
    let ps = &ss[start].profiles;
    assert(ps@.skip(0) =~= ps@);
    match find_in_profiles(ps, 0, kind, id) {
        Some(n) => Some(n),
        None => find_in_servers(ss, start + 1, kind, id),
    }
}

/// The display name of the first live entry that a backup was taken of:
/// same kind and owner id, servers and profiles searched in order.
pub fn original_name_for(backup: &BackupEntry, servers: &Vec<ServerData>) -> (r: Option<String>)
    ensures
        opt_text(r) == name_in_servers(servers@, backup.kind, backup.original_id@),
{
    assert(servers@.skip(0) =~= servers@);
    find_in_servers(servers, 0, backup.kind, backup.original_id.as_str())
}

/// `r` is backup `b` labelled from the live entries.
pub open spec fn labelled(b: BackupEntry, servers: Seq<ServerData>, r: BackupEntry) -> bool {
    &&& opt_text(r.original_name) == name_in_servers(servers, b.kind, b.original_id@)
    &&& r == BackupEntry { original_name: r.original_name, ..b }
}

/// Labels every backup with the display name of the entry it was taken of,
/// where one is still there; the order is kept.
pub fn resolve_backup_names(backups: Vec<BackupEntry>, servers: &Vec<ServerData>) -> (r: Vec<
    BackupEntry,
>)
    ensures
        r@.len() == backups@.len(),
        forall|k: int| 0 <= k < r@.len() ==> labelled(backups@[k], servers@, #[trigger] r@[k]),
{
    let ghost original = backups@;
    let n = backups.len();
    let mut rest = backups;
    let mut r: Vec<BackupEntry> = Vec::new();
    let mut i: usize = 0;
    while rest.len() > 0
        invariant
            i + rest@.len() == original.len(),
            n == original.len(),
            i <= n,
            r@.len() == i,
            rest@ == original.subrange(i as int, original.len() as int),
            forall|k: int| 0 <= k < r@.len() ==> labelled(original[k], servers@, #[trigger] r@[k]),
        decreases rest@.len(),
    {
        let b = rest.remove(0);
        assert(b == original[i as int]);
        let name = original_name_for(&b, servers);
        r.push(BackupEntry { original_name: name, ..b });
        assert(rest@ =~= original.subrange(i + 1, original.len() as int));
        i = i + 1;
    }
    r
}

/// Why a settings operation did not happen.
#[derive(Clone, Debug, PartialEq, Eq)]
pub enum SettingsError {
    /// The source file of a backup or copy does not exist.
    SourceNotFound,
    /// The backup to delete does not exist.
    BackupNotFound,
    /// The source of a backup is not a configuration file.
    InvalidSettingsFile,
    /// The file system refused an operation; its message.
    Io(String),
}

/// The message shown for an error.
pub open spec fn error_message(e: SettingsError) -> Seq<char> {
    match e {
        SettingsError::SourceNotFound => "Source file does not exist"@,
        SettingsError::BackupNotFound => "Backup file not found"@,
        SettingsError::InvalidSettingsFile => "Invalid settings file"@,
        SettingsError::Io(m) => m@,
    }
}

impl SettingsError {
    /// A message for the user.
    pub fn message(&self) -> (r: String)
        ensures
            r@ == error_message(*self),
    {
        match self {
            SettingsError::SourceNotFound => String::from_str("Source file does not exist"),
            SettingsError::BackupNotFound => String::from_str("Backup file not found"),
            SettingsError::InvalidSettingsFile => String::from_str("Invalid settings file"),
            SettingsError::Io(m) => m.clone(),
        }
    }
}

/// What a new backup will be: the name of its file in the profile's
/// backups folder, and what it is a backup of.
#[derive(Clone, Debug)]
pub struct BackupPlan {
    pub filename: String,
    pub label: String,
    pub kind: SettingsKind,
    pub original_id: String,
    pub timestamp: u64,
}

/// Plans the backup of configuration file `source_name` under `label` at
/// `timestamp`; a file that is not a configuration file is refused.
pub fn plan_backup(source_name: &str, label: &str, timestamp: u64) -> (r: Result<
    BackupPlan,
    SettingsError,
>)
    ensures
        r is Err <==> decoded_config(source_name@) is None,
        r matches Err(e) ==> e == SettingsError::InvalidSettingsFile,
        r matches Ok(p) ==> {
            &&& decoded_config(source_name@) == Some((p.kind, p.original_id@))
            &&& p.label@ == label@
            &&& p.timestamp == timestamp
            &&& p.filename@ == backup_name(label@, p.kind, p.original_id@, timestamp)
            &&& decoded_backup(p.filename@) == Some((label@, p.kind, p.original_id@, timestamp))
        },
{
    match decode_config(source_name) {
        Some((kind, id)) => {
            let filename = encode_backup(label, kind, id.as_str(), timestamp);
            proof {
                assert(no_underscore(id@)) by {
                    assert forall|i: int| 0 <= i < id@.len() implies id@[i] != '_' by {
                        assert(is_digit(id@[i]));
                    }
                }
                lemma_backup_round_trip(label@, kind, id@, timestamp);
            }
            Ok(
                BackupPlan {
                    filename,
                    label: String::from_str(label),
                    kind,
                    original_id: id,
                    timestamp,
                },
            )
        },
        None => Err(SettingsError::InvalidSettingsFile),
    }
}

/// The entry of a backup made by `plan`, stored at `path`.
pub fn planned_backup_entry(plan: BackupPlan, path: String, now: u64) -> (r: BackupEntry)
    ensures
        r.id@ == backup_id(plan.label@, plan.timestamp),
        r.name == plan.label,
        r.display_name@ == plan.label@,
        r.path == path,
        r.timestamp == plan.timestamp,
        r.kind == plan.kind,
        r.original_id == plan.original_id,
        r.original_name is None,
        r.relative_time@ == relative_time_text(plan.timestamp, now),
{
    BackupEntry {
        id: label_id(plan.label.as_str(), plan.timestamp),
        display_name: plan.label.clone(),
        name: plan.label,
        path,
        timestamp: plan.timestamp,
        kind: plan.kind,
        original_id: plan.original_id,
        original_name: None,
        relative_time: format_relative_time(plan.timestamp, now),
    }
}

/// The targets whose flag is not set, in order.
pub open spec fn unflagged(targets: Seq<String>, is_source: Seq<bool>) -> Seq<Seq<char>>
    decreases targets.len(),
{
    if targets.len() == 0 {
        Seq::empty()
    } else if is_source[targets.len() - 1] {
        unflagged(targets.drop_last(), is_source)
    } else {
        unflagged(targets.drop_last(), is_source).push(targets.last()@)
    }
}

/// The targets to copy to, given for each target whether it is the source
/// itself: every target that is not.
pub fn select_targets(targets: Vec<String>, is_source: &Vec<bool>) -> (r: Vec<String>)
    requires
        is_source@.len() == targets@.len(),
    ensures
        r@.map_values(|t: String| t@) == unflagged(targets@, is_source@),
{
    let mut r: Vec<String> = Vec::new();
    let mut i: usize = 0;
    while i < targets.len()
        invariant
            i <= targets@.len(),
            is_source@.len() == targets@.len(),
            r@.map_values(|t: String| t@) == unflagged(targets@.subrange(0, i as int), is_source@),
        decreases targets@.len() - i,
    {
        let ghost prefix = targets@.subrange(0, i + 1);
        assert(prefix.drop_last() =~= targets@.subrange(0, i as int));
        assert(prefix.last() == targets@[i as int]);
        let ghost before = r@;
        if !is_source[i] {
            r.push(targets[i].clone());
            assert(r@.map_values(|t: String| t@) =~= before.map_values(|t: String| t@).push(
                targets@[i as int]@,
            ));
        }
        i = i + 1;
    }
    assert(targets@.subrange(0, targets@.len() as int) =~= targets@);
    r
}

/// Relies on `Path`'s `==` (std): paths compare component by component, so
/// `a/./b` and `a//b` are `a/b`; how components are read depends on the
/// platform. Equal texts are equal paths.
#[verifier::external_body]
fn same_path(a: &str, b: &str) -> (r: bool)
    ensures
        a@ == b@ ==> r,
{
    std::path::Path::new(a) == std::path::Path::new(b)
}

/// The targets to copy a configuration file to: every target that is not
/// the source itself, compared as paths. A target with the source's exact
/// text is always dropped.
pub fn copy_targets(source: &str, targets: Vec<String>) -> (r: Vec<String>)
    ensures
        exists|is_source: Seq<bool>|
            is_source.len() == targets@.len() && (forall|i: int|
                0 <= i < targets@.len() && #[trigger] targets@[i]@ == source@ ==> is_source[i])
                && r@.map_values(|t: String| t@) == unflagged(targets@, is_source),
{
    let mut is_source: Vec<bool> = Vec::new();
    let mut i: usize = 0;
    while i < targets.len()
        invariant
            i <= targets@.len(),
            is_source@.len() == i,
            forall|k: int| 0 <= k < i && #[trigger] targets@[k]@ == source@ ==> is_source@[k],
        decreases targets@.len() - i,
    {
        is_source.push(same_path(targets[i].as_str(), source));
        i = i + 1;
    }
    select_targets(targets, &is_source)
}

} // verus!
