use vstd::prelude::*;

verus! {

/// Where the committed version of `path` is kept while a new one is written.
pub fn sidecar_path(path: &str) -> (r: String)
    ensures
        r@ == path@ + ".old"@,
{
    let mut sidecar = String::from_str(path);
    sidecar.append(".old");
    sidecar
}

/// A step in publishing a new version of a file.
#[derive(Debug, Clone, Copy, PartialEq, Eq, Structural)]
pub enum UpdateAction {
    /// Rename the file to its sidecar.
    MoveTargetToSidecar,
    /// Write the new version to the file.
    WriteTarget,
    /// Delete the sidecar: the new version is committed.
    RemoveSidecar,
    /// Rename the sidecar back to the file: the write failed.
    RestoreSidecar,
    /// Done: the new version is published.
    Succeed,
    /// Done: the update failed.
    Fail,
}

impl UpdateAction {
    pub open spec fn is_final(&self) -> bool {
        *self == UpdateAction::Succeed || *self == UpdateAction::Fail
    }
}

/// The first step: set the committed version aside, if there is one.
pub open spec fn spec_first_update_action(target_exists: bool) -> UpdateAction {
    if target_exists {
        UpdateAction::MoveTargetToSidecar
    } else {
        UpdateAction::WriteTarget
    }
}

/// The step after `done`, given whether it succeeded and whether the sidecar
/// exists now.
pub open spec fn spec_next_update_action(
    done: UpdateAction,
    succeeded: bool,
    sidecar_exists: bool,
) -> UpdateAction {
    match done {
        UpdateAction::MoveTargetToSidecar => if succeeded {
            UpdateAction::WriteTarget
        } else {
            UpdateAction::Fail
        },
        UpdateAction::WriteTarget => if succeeded {
            if sidecar_exists {
                UpdateAction::RemoveSidecar
            } else {
                UpdateAction::Succeed
            }
        } else if sidecar_exists {
            UpdateAction::RestoreSidecar
        } else {
            UpdateAction::Fail
        },
        UpdateAction::RemoveSidecar => if succeeded {
            UpdateAction::Succeed
        } else {
            UpdateAction::Fail
        },
        UpdateAction::RestoreSidecar => UpdateAction::Fail,
        UpdateAction::Succeed => UpdateAction::Succeed,
        UpdateAction::Fail => UpdateAction::Fail,
    }
}

pub fn first_update_action(target_exists: bool) -> (r: UpdateAction)
    ensures
        r == spec_first_update_action(target_exists),
        !r.is_final(),
{
    if target_exists {
        UpdateAction::MoveTargetToSidecar
    } else {
        UpdateAction::WriteTarget
    }
}

pub fn next_update_action(done: UpdateAction, succeeded: bool, sidecar_exists: bool) -> (r:
    UpdateAction)
    ensures
        r == spec_next_update_action(done, succeeded, sidecar_exists),
{
    match done {
        UpdateAction::MoveTargetToSidecar => if succeeded {
            UpdateAction::WriteTarget
        } else {
            UpdateAction::Fail
        },
        UpdateAction::WriteTarget => if succeeded {
            if sidecar_exists {
                UpdateAction::RemoveSidecar
            } else {
                UpdateAction::Succeed
            }
        } else if sidecar_exists {
            UpdateAction::RestoreSidecar
        } else {
            UpdateAction::Fail
        },
        UpdateAction::RemoveSidecar => if succeeded {
            UpdateAction::Succeed
        } else {
            UpdateAction::Fail
        },
        UpdateAction::RestoreSidecar => UpdateAction::Fail,
        UpdateAction::Succeed => UpdateAction::Succeed,
        UpdateAction::Fail => UpdateAction::Fail,
    }
}

/// What a path holds, in a model of one publish.
#[derive(Debug, Clone, Copy, PartialEq, Eq, Structural)]
pub enum FileVersion {
    /// The version committed before the publish began.
    Previous,
    /// The version being published.
    New,
    /// What an interrupted write leaves behind.
    Partial,
}

/// The file and its sidecar after `action`, which succeeded or failed. A step
/// that fails changes nothing, except a failed write, which may leave an
/// incomplete file.
pub open spec fn apply_update_action(
    target: Option<FileVersion>,
    sidecar: Option<FileVersion>,
    action: UpdateAction,
    succeeded: bool,
) -> (Option<FileVersion>, Option<FileVersion>) {
    match action {
        UpdateAction::MoveTargetToSidecar => if succeeded {
            (None, target)
        } else {
            (target, sidecar)
        },
        UpdateAction::WriteTarget => if succeeded {
            (Some(FileVersion::New), sidecar)
        } else {
            (Some(FileVersion::Partial), sidecar)
        },
        UpdateAction::RemoveSidecar => if succeeded {
            (target, None)
        } else {
            (target, sidecar)
        },
        UpdateAction::RestoreSidecar => if succeeded {
            (sidecar, None)
        } else {
            (target, sidecar)
        },
        UpdateAction::Succeed => (target, sidecar),
        UpdateAction::Fail => (target, sidecar),
    }
}

/// The file, its sidecar and the pending step after the steps from `action`
/// on, each with its outcome from `outcomes`, until a final step.
pub open spec fn run_update(
    target: Option<FileVersion>,
    sidecar: Option<FileVersion>,
    action: UpdateAction,
    outcomes: Seq<bool>,
) -> (Option<FileVersion>, Option<FileVersion>, UpdateAction)
    decreases outcomes.len(),
{
    if outcomes.len() == 0 || action.is_final() {
        (target, sidecar, action)
    } else {
        let (t, s) = apply_update_action(target, sidecar, action, outcomes[0]);
        run_update(
            t,
            s,
            spec_next_update_action(action, outcomes[0], s is Some),
            outcomes.drop_first(),
        )
    }
}

/// The states that a publish passes through, from a file that holds the
/// previous version (or does not exist) and no sidecar.
spec fn publish_reachable(
    previous_exists: bool,
    target: Option<FileVersion>,
    sidecar: Option<FileVersion>,
    action: UpdateAction,
) -> bool {
    let prev = Some(FileVersion::Previous);
    let new = Some(FileVersion::New);
    let partial = Some(FileVersion::Partial);
    if previous_exists {
        ||| target == prev && sidecar is None && action == UpdateAction::MoveTargetToSidecar
        ||| target is None && sidecar == prev && action == UpdateAction::WriteTarget
        ||| target == prev && sidecar is None && action == UpdateAction::Fail
        ||| target == new && sidecar == prev && action == UpdateAction::RemoveSidecar
        ||| target == partial && sidecar == prev && action == UpdateAction::RestoreSidecar
        ||| target == new && sidecar is None && action == UpdateAction::Succeed
        ||| target == new && sidecar == prev && action == UpdateAction::Fail
        ||| target == partial && sidecar == prev && action == UpdateAction::Fail
    } else {
        ||| target is None && sidecar is None && action == UpdateAction::WriteTarget
        ||| target == new && sidecar is None && action == UpdateAction::Succeed
        ||| target == partial && sidecar is None && action == UpdateAction::Fail
    }
}

proof fn lemma_publish_steps_stay_reachable(
    previous_exists: bool,
    target: Option<FileVersion>,
    sidecar: Option<FileVersion>,
    action: UpdateAction,
    outcomes: Seq<bool>,
)
    requires
        publish_reachable(previous_exists, target, sidecar, action),
    ensures
        publish_reachable(
            previous_exists,
            run_update(target, sidecar, action, outcomes).0,
            run_update(target, sidecar, action, outcomes).1,
            run_update(target, sidecar, action, outcomes).2,
        ),
    decreases outcomes.len(),
{
    if outcomes.len() > 0 && !action.is_final() {
        let (t, s) = apply_update_action(target, sidecar, action, outcomes[0]);
        let next = spec_next_update_action(action, outcomes[0], s is Some);
        lemma_publish_steps_stay_reachable(previous_exists, t, s, next, outcomes.drop_first());
    }
}

/// Whatever each step's outcome, in the model of `apply_update_action`: a
/// publish that succeeds leaves the new version in place and no sidecar; where
/// there was a previous version, one that fails with no sidecar left leaves it
/// in the file, and at every point it is in the file or in the sidecar unless
/// the new version is in the file.
pub proof fn lemma_publish_keeps_a_committed_version(previous_exists: bool, outcomes: Seq<bool>)
    ensures
        ({
            let before = if previous_exists {
                Some(FileVersion::Previous)
            } else {
                None
            };
            let (target, sidecar, last) = run_update(
                before,
                None,
                spec_first_update_action(previous_exists),
                outcomes,
            );
            &&& last == UpdateAction::Succeed ==> target == Some(FileVersion::New) && sidecar is None
            &&& last == UpdateAction::Fail && sidecar is None && previous_exists ==> target == before
            &&& previous_exists ==> target == Some(FileVersion::Previous) || sidecar == Some(
                FileVersion::Previous,
            ) || target == Some(FileVersion::New)
        }),
{
    let before = if previous_exists {
        Some(FileVersion::Previous)
    } else {
        None
    };
    lemma_publish_steps_stay_reachable(
        previous_exists,
        before,
        None,
        spec_first_update_action(previous_exists),
        outcomes,
    );
}

} // verus!
