//! Reviewing an archive before it is imported: when the import may be
//! applied, and which conflict resolutions go with it.
use vstd::prelude::*;
use std::collections::HashMap;

verus! {

broadcast use vstd::std_specs::hash::group_hash_axioms;

/// How an archive is brought in.
#[derive(Clone, Copy, PartialEq, Eq, Debug, Structural)]
pub enum ImportMode {
    /// The local data is backed up and replaced by the archive.
    ReplaceWithBackup,
    /// The archive is merged in; each conflicting record needs a choice.
    Merge,
}

/// Which side wins for a record changed both locally and in the archive.
#[derive(Clone, Copy, PartialEq, Eq, Debug, Structural)]
pub enum ConflictChoice {
    KeepLocal,
    UseImported,
}

/// The choice made for one conflicting record.
#[derive(Clone, Copy, PartialEq, Eq, Debug, Structural)]
pub struct ConflictResolution {
    pub record_id: u128,
    pub choice: ConflictChoice,
}

/// Why an import cannot be applied yet.
#[derive(Clone, Copy, PartialEq, Eq, Debug, Structural)]
pub enum ImportPlanError {
    /// A merge with a conflicting record that has no choice.
    UnresolvedConflicts,
}

impl ImportPlanError {
    /// The message shown for the error.
    pub fn message(&self) -> (r: &'static str)
        ensures
            r@ == "请先为所有冲突记录选择保留本地还是使用导入数据"@,
    {
        match self {
            ImportPlanError::UnresolvedConflicts => "请先为所有冲突记录选择保留本地还是使用导入数据",
        }
    }
}

/// Every conflicting record has a choice.
pub open spec fn all_chosen(conflicts: Seq<u128>, choices: Map<u128, ConflictChoice>) -> bool {
    forall|i: int| 0 <= i < conflicts.len() ==> choices.contains_key(#[trigger] conflicts[i])
}

/// An import in `mode` may go ahead: a replacement always, a merge once every
/// conflict has a choice.
pub open spec fn can_apply(
    mode: ImportMode,
    conflicts: Seq<u128>,
    choices: Map<u128, ConflictChoice>,
) -> bool {
    mode == ImportMode::ReplaceWithBackup || all_chosen(conflicts, choices)
}

/// The choices for the conflicting records that have one, in the order of
/// the conflicts.
pub open spec fn resolutions_of(conflicts: Seq<u128>, choices: Map<u128, ConflictChoice>) -> Seq<
    ConflictResolution,
>
    decreases conflicts.len(),
{
    if conflicts.len() == 0 {
        Seq::empty()
    } else {
        let rest = resolutions_of(conflicts.drop_last(), choices);
        let id = conflicts.last();
        if choices.contains_key(id) {
            rest.push(ConflictResolution { record_id: id, choice: choices[id] })
        } else {
            rest
        }
    }
}

/// Whether every conflict in `conflicts` has a choice in `choices`.
fn all_conflicts_chosen(conflicts: &[u128], choices: &HashMap<u128, ConflictChoice>) -> (r: bool)
    ensures
        r == all_chosen(conflicts@, choices@),
{
    let mut i: usize = 0;
    while i < conflicts.len()
        invariant
            0 <= i <= conflicts.len(),
            forall|k: int| 0 <= k < i ==> choices@.contains_key(#[trigger] conflicts@[k]),
        decreases conflicts.len() - i,
    {
        if !choices.contains_key(&conflicts[i]) {
            return false;
        }
        i += 1;
    }
    true
}

/// Whether the apply button is enabled: there is a previewed archive, whose
/// conflicting records are `preview_conflicts`, and the import may go ahead.
pub fn import_apply_enabled(
    preview_conflicts: Option<&[u128]>,
    mode: ImportMode,
    choices: &HashMap<u128, ConflictChoice>,
) -> (r: bool)
    ensures
        r == match preview_conflicts {
            Some(c) => can_apply(mode, c@, choices@),
            None => false,
        },
{
    match preview_conflicts {
        Some(conflicts) => mode == ImportMode::ReplaceWithBackup || all_conflicts_chosen(
            conflicts,
            choices,
        ),
        None => false,
    }
}

/// The resolutions to apply an import with: the error when a merge still
/// has a conflict without a choice, else the choices made for the
/// conflicting records, in their order.
pub fn plan_import(
    conflicts: &[u128],
    mode: ImportMode,
    choices: &HashMap<u128, ConflictChoice>,
) -> (r: Result<Vec<ConflictResolution>, ImportPlanError>)
    ensures
        match r {
            Ok(rs) => can_apply(mode, conflicts@, choices@) && rs@ == resolutions_of(
                conflicts@,
                choices@,
            ),
            Err(e) => !can_apply(mode, conflicts@, choices@) && e == ImportPlanError::UnresolvedConflicts,
        },
{
    if mode == ImportMode::Merge && !all_conflicts_chosen(conflicts, choices) {
        return Err(ImportPlanError::UnresolvedConflicts);
    }
    let mut out: Vec<ConflictResolution> = Vec::new();
    let mut i: usize = 0;
    while i < conflicts.len()
        invariant
            0 <= i <= conflicts.len(),
            out@ == resolutions_of(conflicts@.take(i as int), choices@),
        decreases conflicts.len() - i,
    {
        proof {
            assert(conflicts@.take(i + 1).drop_last() =~= conflicts@.take(i as int));
        }
        let id = conflicts[i];
        match choices.get(&id) {
            Some(choice) => {
                out.push(ConflictResolution { record_id: id, choice: *choice });
            },
            None => {},
        }
        i += 1;
    }
    assert(conflicts@.take(conflicts.len() as int) =~= conflicts@);
    Ok(out)
}

} // verus!
