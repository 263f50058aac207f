//! Apply: back the target up, then write the new contents over it.

use vstd::prelude::*;
use crate::naming::{backup_name, backup_path, lemma_backup_name_differs};

verus! {

/// A directory's files: each path with its bytes.
pub type Files = Map<Seq<char>, Seq<u8>>;

/// Why an apply, a target inference or a revert did not go through.
#[derive(Debug)]
pub enum OipError {
    /// The host clipboard could not be opened or read.
    ClipboardUnavailable,
    /// The target exists but its backup could not be read or written.
    BackupFailed,
    /// The target could not be written.
    WriteFailed,
    /// No default target could be chosen.
    InferenceFailed,
    /// Neither a target nor a mode that needs none was given.
    NoTarget,
    /// The directory to revert could not be listed.
    RevertScanFailed,
}

/// The writes that apply one text to one target, in order: the backup (if
/// the target existed), then the target itself.
pub struct ApplyPlan {
    pub backup: Option<(String, Vec<u8>)>,
    pub target: String,
    pub contents: Vec<u8>,
}

/// An `ApplyPlan` as values.
pub struct ApplySteps {
    pub backup: Option<(Seq<char>, Seq<u8>)>,
    pub target: Seq<char>,
    pub contents: Seq<u8>,
}

impl View for ApplyPlan {
    type V = ApplySteps;

    open spec fn view(&self) -> ApplySteps {
        ApplySteps {
            backup: match self.backup {
                Some((p, b)) => Some((p@, b@)),
                None => None,
            },
            target: self.target@,
            contents: self.contents@,
        }
    }
}

/// The steps that apply `text` to `target`, whose bytes beforehand are
/// `prior` (`None` where it does not exist).
pub open spec fn apply_steps(target: Seq<char>, prior: Option<Seq<u8>>, text: Seq<u8>) -> ApplySteps {
    ApplySteps {
        backup: match prior {
            Some(b) => Some((backup_name(target), b)),
            None => None,
        },
        target,
        contents: text,
    }
}

/// The backup step alone.
pub open spec fn after_backup(files: Files, steps: ApplySteps) -> Files {
    match steps.backup {
        Some((p, b)) => files.insert(p, b),
        None => files,
    }
}

/// The files after every step of `steps` succeeded.
pub open spec fn perform(files: Files, steps: ApplySteps) -> Files {
    after_backup(files, steps).insert(steps.target, steps.contents)
}

/// What reading the target before an apply found.
pub enum PriorRead {
    /// The target exists and holds these bytes.
    Found(Vec<u8>),
    /// The target does not exist.
    Missing,
    /// The target exists but could not be read.
    Failed,
}

/// Plan the writes that put `text` in place of `target`, given what reading
/// the target found; a target that exists but cannot be read cannot be
/// backed up, so nothing is written.
pub fn plan_apply(target: &str, prior: PriorRead, text: Vec<u8>) -> (r: Result<ApplyPlan, OipError>)
    ensures
        match prior {
            PriorRead::Found(b) => r matches Ok(plan) && plan@ == apply_steps(target@, Some(b@), text@),
            PriorRead::Missing => r matches Ok(plan) && plan@ == apply_steps(target@, None, text@),
            PriorRead::Failed => r matches Err(OipError::BackupFailed),
        },
{
    let backup = match prior {
        PriorRead::Found(b) => Some((backup_path(target), b)),
        PriorRead::Missing => None,
        PriorRead::Failed => {
            return Err(OipError::BackupFailed);
        },
    };
    Ok(ApplyPlan { backup, target: target.to_owned(), contents: text })
}

/// After an apply to an existing target, the backup holds the target's old
/// bytes and the target holds the new text.
pub proof fn lemma_backup_before_overwrite(files: Files, p: Seq<char>, t: Seq<u8>)
    requires
        files.contains_key(p),
    ensures
        perform(files, apply_steps(p, Some(files[p]), t))[backup_name(p)] == files[p],
        perform(files, apply_steps(p, Some(files[p]), t))[p] == t,
{
    lemma_backup_name_differs(p);
}

/// After an apply to a target that did not exist, the target holds the new
/// text and its backup path is as it was: absent, or with the same bytes.
pub proof fn lemma_no_prior_no_backup(files: Files, p: Seq<char>, t: Seq<u8>)
    requires
        !files.contains_key(p),
    ensures
        ({
            let after = perform(files, apply_steps(p, None, t));
            &&& after[p] == t
            &&& after.contains_key(backup_name(p)) == files.contains_key(backup_name(p))
            &&& files.contains_key(backup_name(p)) ==> after[backup_name(p)] == files[backup_name(p)]
        }),
{
    lemma_backup_name_differs(p);
}

/// A backup that fails part way, leaving the backup path removed or holding
/// any bytes, leaves the target as it was; the apply stops there.
pub proof fn lemma_backup_failure_keeps_target(files: Files, p: Seq<char>, partial: Option<Seq<u8>>)
    requires
        files.contains_key(p),
    ensures
        ({
            let left = match partial {
                Some(b) => files.insert(backup_name(p), b),
                None => files.remove(backup_name(p)),
            };
            left.contains_key(p) && left[p] == files[p]
        }),
{
    lemma_backup_name_differs(p);
}

} // verus!
