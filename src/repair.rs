//! Validation and repair of stored states: what a validation reports, what
//! a repair does about it, and the conservative fixes applied to a state
//! that parses but breaks the rules.
use vstd::prelude::*;
use crate::backend::{BackupType, RepairResult};
use crate::state::{PipelineState, Timestamp, state_is_valid};

verus! {

/// What validating a stored state found.
#[derive(Debug, Clone)]
pub struct ValidationResult {
    pub valid: bool,
    pub corruption_detected: bool,
    pub validation_errors: Vec<String>,
    pub checksum_match: bool,
    pub file_size_bytes: u64,
    pub last_modified: Timestamp,
}

/// A stored backup.
#[derive(Debug, Clone)]
pub struct BackupInfo {
    pub backup_id: String,
    pub pipeline_id: String,
    pub created_at: Timestamp,
    pub file_size_bytes: u64,
    pub backup_type: BackupType,
    pub state_version: u64,
}

/// What a repair does.
#[derive(Debug, Clone, PartialEq, Eq)]
pub enum RepairAction {
    /// The state is valid.
    NothingToDo,
    /// The file is corrupt: copy the backup at this index of the list over it.
    RestoreBackup(usize),
    /// The state parses but breaks rules: apply the conservative fixes.
    FixFields,
    /// The file is corrupt and no earlier backup exists.
    ManualIntervention,
}

/// The name of the lower-case hex MD5 digest of some bytes.
pub uninterp spec fn md5_hex_of(b: Seq<u8>) -> Seq<char>;

/// Relies on `md5::compute` and the digest's `LowerHex` form: two hex
/// digits for each of the 16 bytes of the digest.
#[verifier::external_body]
fn md5_hex(b: &Vec<u8>) -> (r: String)
    ensures
        r@ == md5_hex_of(b@),
        r@.len() == 32,
{
    format!("{:x}", md5::compute(b))
}

/// The checksum recorded with a backup of the bytes `content`.
pub fn backup_checksum(content: &Vec<u8>) -> (r: String)
    ensures
        r@ == md5_hex_of(content@),
        r@.len() == 32,
{
    md5_hex(content)
}

/// One hour in milliseconds.
pub const HOUR_MS: i64 = 3600000;

/// The validation of a stored state file of `file_size_bytes` bytes whose
/// contents parsed to `parsed` (or failed to, for the reason given), at
/// `now`. An empty or unparseable file is corrupt; a parsed state is valid
/// exactly when it meets every rule.
pub fn validation_of(
    parsed: Result<&PipelineState, String>,
    file_size_bytes: u64,
    last_modified: Timestamp,
    now: Timestamp,
) -> (r: ValidationResult)
    ensures
        r.corruption_detected == (parsed is Err || file_size_bytes == 0),
        r.valid == (!r.corruption_detected && state_is_valid(*parsed->Ok_0, now)),
        r.valid <==> r.validation_errors@.len() == 0,
        r.checksum_match == (parsed is Ok && state_is_valid(*parsed->Ok_0, now)),
        r.file_size_bytes == file_size_bytes,
        r.last_modified == last_modified,
{
    let mut errors: Vec<String> = Vec::new();
    let mut corrupt = false;
    let mut sound = false;
    match parsed {
        Ok(state) => match state.validate_at(now) {
            Ok(()) => {
                sound = true;
            },
            Err(v) => {
                errors = v;
            },
        },
        Err(reason) => {
            let mut m = String::from_str("Deserialization failed: ");
            m.append(reason.as_str());
            errors.push(m);
            corrupt = true;
        },
    }
    if file_size_bytes == 0 {
        errors.push(String::from_str("State file is empty"));
        corrupt = true;
    }
    ValidationResult {
        valid: errors.len() == 0 && !corrupt,
        corruption_detected: corrupt,
        validation_errors: errors,
        checksum_match: sound,
        file_size_bytes,
        last_modified,
    }
}

/// Backup `k` is not the excluded one.
pub open spec fn eligible(backups: Seq<BackupInfo>, exclude: Option<Seq<char>>, k: int) -> bool {
    0 <= k < backups.len() && !(exclude matches Some(x) && backups[k].backup_id@ == x)
}

/// Backup `i` is the newest backup other than `exclude`.
pub open spec fn is_newest_other(backups: Seq<BackupInfo>, exclude: Option<Seq<char>>, i: int) -> bool {
    &&& eligible(backups, exclude, i)
    &&& forall|k: int| #[trigger] eligible(backups, exclude, k) ==> backups[k].created_at <= backups[i].created_at
}

/// Some backup other than `exclude` exists.
pub open spec fn has_other_backup(backups: Seq<BackupInfo>, exclude: Option<Seq<char>>) -> bool {
    exists|k: int| #[trigger] eligible(backups, exclude, k)
}

/// The view of an optional id.
pub open spec fn opt_view(x: Option<String>) -> Option<Seq<char>> {
    match x {
        Some(s) => Some(s@),
        None => None,
    }
}

/// The newest backup other than `exclude` (the defensive copy that a
/// repair takes first).
pub fn newest_backup(backups: &Vec<BackupInfo>, exclude: &Option<String>) -> (r: Option<usize>)
    ensures
        r is None <==> !has_other_backup(backups@, opt_view(*exclude)),
        r matches Some(i) ==> is_newest_other(backups@, opt_view(*exclude), i as int),
{
    let ghost ex = opt_view(*exclude);
    let mut best: Option<usize> = None;
    let mut k: usize = 0;
    while k < backups.len()
        invariant
            k <= backups@.len(),
            ex == opt_view(*exclude),
            best is None ==> forall|j: int| 0 <= j < k ==> !#[trigger] eligible(backups@, ex, j),
            best matches Some(b) ==> b < k && eligible(backups@, ex, b as int)
                && forall|j: int| 0 <= j < k && #[trigger] eligible(backups@, ex, j)
                    ==> backups@[j].created_at <= backups@[b as int].created_at,
        decreases backups@.len() - k,
    {
        let excluded = match exclude {
            Some(x) => backups[k].backup_id.eq(x),
            None => false,
        };
        assert(excluded == !eligible(backups@, ex, k as int));
        if !excluded {
            match best {
                None => {
                    best = Some(k);
                },
                Some(b) => {
                    if backups[k].created_at > backups[b].created_at {
                        best = Some(k);
                    }
                },
            }
        }
        k = k + 1;
    }
    proof {
        if best is None {
            assert forall|j: int| !#[trigger] eligible(backups@, ex, j) by {
                if 0 <= j < backups@.len() {
                }
            }
        } else {
            let b = best->0;
            assert forall|j: int| #[trigger] eligible(backups@, ex, j) implies backups@[j].created_at <= backups@[b as int].created_at by {
            }
            assert(eligible(backups@, ex, b as int));
        }
    }
    best
}

/// Decides what a repair does: nothing for a valid state; for a corrupt
/// file, restore the newest backup other than the defensive copy, or call
/// for manual intervention when there is none; otherwise fix fields.
pub fn plan_repair(v: &ValidationResult, backups: &Vec<BackupInfo>, defensive: &Option<String>) -> (r: RepairAction)
    ensures
        v.valid ==> r == RepairAction::NothingToDo,
        !v.valid && !v.corruption_detected ==> r == RepairAction::FixFields,
        !v.valid && v.corruption_detected && !has_other_backup(backups@, opt_view(*defensive))
            ==> r == RepairAction::ManualIntervention,
        !v.valid && v.corruption_detected && has_other_backup(backups@, opt_view(*defensive))
            ==> (r matches RepairAction::RestoreBackup(i) && is_newest_other(backups@, opt_view(*defensive), i as int)),
{
    if v.valid {
        RepairAction::NothingToDo
    } else if v.corruption_detected {
        match newest_backup(backups, defensive) {
            Some(i) => RepairAction::RestoreBackup(i),
            None => RepairAction::ManualIntervention,
        }
    } else {
        RepairAction::FixFields
    }
}

/// The conservative fixes for a state of `pipeline_id` that parses but
/// breaks rules, at `now`: an empty pipeline id becomes `pipeline_id`, an
/// empty run id becomes `fresh_run_id`, version 0 becomes 1, a start in the
/// future moves to an hour before `now`, and a heartbeat before the start
/// moves to `now`. Returns a note per fix.
pub fn apply_fixes(state: &mut PipelineState, pipeline_id: &str, fresh_run_id: String, now: Timestamp) -> (r: Vec<String>)
    requires
        now >= i64::MIN + HOUR_MS,
    ensures
        final(state).pipeline_id@ == if old(state).pipeline_id@.len() == 0 { pipeline_id@ } else { old(state).pipeline_id@ },
        final(state).run_id@ == if old(state).run_id@.len() == 0 { fresh_run_id@ } else { old(state).run_id@ },
        final(state).version == if old(state).version == 0 { 1 } else { old(state).version },
        final(state).started_at == if old(state).started_at > now { (now - HOUR_MS) as i64 } else { old(state).started_at },
        final(state).last_heartbeat == if old(state).last_heartbeat < final(state).started_at { now } else { old(state).last_heartbeat },
        final(state).status == old(state).status,
        final(state).errors == old(state).errors,
        final(state).step_states == old(state).step_states,
        r@.len() == (if old(state).pipeline_id@.len() == 0 { 1int } else { 0 }) + (if old(state).run_id@.len() == 0 { 1int } else { 0 })
            + (if old(state).version == 0 { 1int } else { 0 }) + (if old(state).started_at > now { 1int } else { 0 })
            + (if old(state).last_heartbeat < final(state).started_at { 1int } else { 0 }),
{
    let mut notes: Vec<String> = Vec::new();
    if state.pipeline_id.unicode_len() == 0 {
        state.pipeline_id = String::from_str(pipeline_id);
        notes.push(String::from_str("Fixed empty pipeline_id"));
    }
    if state.run_id.unicode_len() == 0 {
        state.run_id = fresh_run_id;
        notes.push(String::from_str("Generated new run_id"));
    }
    if state.version == 0 {
        state.version = 1;
        notes.push(String::from_str("Fixed invalid version"));
    }
    if state.started_at > now {
        state.started_at = now - HOUR_MS;
        notes.push(String::from_str("Fixed invalid start time"));
    }
    if state.last_heartbeat < state.started_at {
        state.last_heartbeat = now;
        notes.push(String::from_str("Fixed invalid heartbeat time"));
    }
    notes
}

/// The outcome of a repair: successful when some repair was made and no
/// manual intervention is needed.
pub fn repair_result(
    backup_id: Option<String>,
    repairs_made: Vec<String>,
    issues_found: Vec<String>,
    manual_intervention_required: bool,
) -> (r: RepairResult)
    ensures
        r.success == (!manual_intervention_required && repairs_made@.len() > 0),
        r.backup_created == backup_id is Some,
        r.backup_id == backup_id,
        r.repairs_made == repairs_made,
        r.issues_found == issues_found,
        r.manual_intervention_required == manual_intervention_required,
{
    let success = !manual_intervention_required && repairs_made.len() > 0;
    let created = backup_id.is_some();
    RepairResult {
        success,
        backup_created: created,
        backup_id,
        repairs_made,
        issues_found,
        manual_intervention_required,
    }
}

/// What checking one state file found.
#[derive(Debug, Clone)]
pub enum FileCheck {
    /// The file was validated.
    Checked { pipeline_id: String, corruption_detected: bool, checksum_match: bool },
    /// The file could not be read for want of permission.
    PermissionDenied,
    /// The file vanished before it could be read.
    Missing,
    /// Validation failed for another reason.
    Failed,
}

/// What an integrity sweep over the state files found. The health score is
/// `1 - total_issues / total_files_checked` (1 when nothing was checked),
/// which lies between 0 and 1 since a file counts as one issue at most.
#[derive(Debug, Clone)]
pub struct IntegrityReport {
    pub total_files_checked: u64,
    pub corrupted_files: Vec<String>,
    pub missing_files: Vec<String>,
    pub permission_errors: Vec<String>,
    pub checksum_mismatches: Vec<String>,
    pub repair_recommendations: Vec<String>,
    pub total_issues: u64,
}

/// The check counts as a corrupt file.
pub open spec fn is_corrupt(c: FileCheck) -> bool {
    match c {
        FileCheck::Checked { corruption_detected, .. } => corruption_detected,
        FileCheck::Failed => true,
        _ => false,
    }
}

/// The check is a validated file found corrupt (one repair advised each).
pub open spec fn is_repairable(c: FileCheck) -> bool {
    c matches FileCheck::Checked { corruption_detected, .. } && corruption_detected
}

/// The check is a validated file that parsed but did not check out; a
/// corrupt file counts as corrupt only, so no file is counted twice.
pub open spec fn is_mismatch(c: FileCheck) -> bool {
    c matches FileCheck::Checked { corruption_detected, checksum_match, .. } && !corruption_detected && !checksum_match
}

/// The check meets `kind`: 0 corrupt, 1 missing, 2 permission denied,
/// 3 mismatch, 4 repairable.
pub open spec fn check_hits(c: FileCheck, kind: int) -> bool {
    if kind == 0 {
        is_corrupt(c)
    } else if kind == 1 {
        c is Missing
    } else if kind == 2 {
        c is PermissionDenied
    } else if kind == 3 {
        is_mismatch(c)
    } else {
        is_repairable(c)
    }
}

/// The paths of the first `n` checks that meet `kind`, in order.
pub open spec fn listed_paths(checks: Seq<(String, FileCheck)>, n: int, kind: int) -> Seq<Seq<char>>
    decreases n,
{
    if n <= 0 || n > checks.len() {
        Seq::empty()
    } else if check_hits(checks[n - 1].1, kind) {
        listed_paths(checks, n - 1, kind).push(checks[n - 1].0@)
    } else {
        listed_paths(checks, n - 1, kind)
    }
}

/// The views of a list of texts.
pub open spec fn texts(v: Seq<String>) -> Seq<Seq<char>> {
    v.map_values(|x: String| x@)
}

/// The health is low (below 0.8) when issues exceed a fifth of the files.
pub open spec fn health_is_low(issues: nat, total: nat) -> bool {
    total > 0 && 5 * issues > total
}

/// Tallies the checks of a sweep: each corrupt, missing, unreadable or
/// mismatched file is listed under its path, each file under one heading
/// at most; each validated corrupt file gets a repair advice, followed by
/// general advice for corrupt files, for missing files and for low health.
pub fn integrity_report(checks: &Vec<(String, FileCheck)>) -> (r: IntegrityReport)
    requires
        checks@.len() <= u64::MAX / 32,
    ensures
        r.total_files_checked == checks@.len(),
        texts(r.corrupted_files@) == listed_paths(checks@, checks@.len() as int, 0),
        texts(r.missing_files@) == listed_paths(checks@, checks@.len() as int, 1),
        texts(r.permission_errors@) == listed_paths(checks@, checks@.len() as int, 2),
        texts(r.checksum_mismatches@) == listed_paths(checks@, checks@.len() as int, 3),
        r.total_issues == r.corrupted_files@.len() + r.missing_files@.len() + r.permission_errors@.len()
            + r.checksum_mismatches@.len(),
        r.total_issues <= r.total_files_checked,
        r.repair_recommendations@.len() == listed_paths(checks@, checks@.len() as int, 4).len()
            + (if r.corrupted_files@.len() > 0 { 1nat } else { 0nat })
            + (if r.missing_files@.len() > 0 { 1nat } else { 0nat })
            + (if health_is_low(r.total_issues as nat, checks@.len()) { 1nat } else { 0nat }),
{
    let mut corrupted: Vec<String> = Vec::new();
    let mut missing: Vec<String> = Vec::new();
    let mut denied: Vec<String> = Vec::new();
    let mut mismatched: Vec<String> = Vec::new();
    let mut advice: Vec<String> = Vec::new();
    let mut i: usize = 0;
    while i < checks.len()
        invariant
            i <= checks@.len(),
            checks@.len() <= u64::MAX / 32,
            texts(corrupted@) == listed_paths(checks@, i as int, 0),
            texts(missing@) == listed_paths(checks@, i as int, 1),
            texts(denied@) == listed_paths(checks@, i as int, 2),
            texts(mismatched@) == listed_paths(checks@, i as int, 3),
            advice@.len() == listed_paths(checks@, i as int, 4).len(),
            corrupted@.len() + missing@.len() + denied@.len() + mismatched@.len() <= i,
        decreases checks@.len() - i,
    {
        let path = &checks[i].0;
        let ghost (c0, m0, d0, x0) = (corrupted@, missing@, denied@, mismatched@);
        match &checks[i].1 {
            FileCheck::Checked { pipeline_id, corruption_detected, checksum_match } => {
                if *corruption_detected {
                    corrupted.push(path.clone());
                    let mut m = String::from_str("Run repair on pipeline: ");
                    m.append(pipeline_id.as_str());
                    advice.push(m);
                } else if !*checksum_match {
                    mismatched.push(path.clone());
                }
            },
            FileCheck::PermissionDenied => {
                denied.push(path.clone());
            },
            FileCheck::Missing => {
                missing.push(path.clone());
            },
            FileCheck::Failed => {
                corrupted.push(path.clone());
            },
        }
        proof {
            assert(texts(corrupted@) =~= listed_paths(checks@, i + 1, 0)) by {
                assert(corrupted@.len() > c0.len() ==> corrupted@ == c0.push(corrupted@.last()));
            }
            assert(texts(missing@) =~= listed_paths(checks@, i + 1, 1));
            assert(texts(denied@) =~= listed_paths(checks@, i + 1, 2));
            assert(texts(mismatched@) =~= listed_paths(checks@, i + 1, 3));
        }
        i = i + 1;
    }
    let total = checks.len() as u64;
    let issues = corrupted.len() as u64 + missing.len() as u64 + denied.len() as u64 + mismatched.len() as u64;
    if corrupted.len() > 0 {
        advice.push(String::from_str("Consider automated repair of the corrupted files"));
    }
    if missing.len() > 0 {
        advice.push(String::from_str("Check for accidental file deletion"));
    }
    if total > 0 && 5 * issues > total {
        advice.push(String::from_str("Consider full backup and restoration"));
    }
    IntegrityReport {
        total_files_checked: total,
        corrupted_files: corrupted,
        missing_files: missing,
        permission_errors: denied,
        checksum_mismatches: mismatched,
        repair_recommendations: advice,
        total_issues: issues,
    }
}

} // verus!
