//! The protocol of an atomic save: write a temporary file beside the target, move it over
//! the target, then restore the target's permissions and make the move durable. The file
//! system work is done by the caller; this module decides what comes next.
use vstd::prelude::*;

verus! {

/// A piece of file system work of an atomic save.
#[derive(Clone, Copy, PartialEq, Eq, Debug)]
pub enum SaveStep {
    /// Create the temporary file, write the bytes and sync it.
    WriteTemp,
    /// Rename the temporary file over the target.
    Rename,
    /// Give the target back the permissions it had (failure is ignored).
    RestorePermissions,
    /// Sync the parent directory (failure is ignored).
    SyncDirectory,
}

/// What the caller does after a step.
#[derive(Clone, Copy, PartialEq, Eq, Debug)]
pub enum SaveNext {
    /// Perform this step.
    Do(SaveStep),
    /// Remove the temporary file and report the error of the failed step.
    DiscardTempAndFail,
    /// The save is complete.
    Succeed,
}

/// What a save does after finishing the target's replacement: restore the permissions the
/// target had, if it existed, then sync the directory where that is done (on Unix).
pub open spec fn after_replace(restore_permissions: bool, sync_directory: bool) -> SaveNext {
    if restore_permissions {
        SaveNext::Do(SaveStep::RestorePermissions)
    } else if sync_directory {
        SaveNext::Do(SaveStep::SyncDirectory)
    } else {
        SaveNext::Succeed
    }
}

/// What follows `step`, given whether it succeeded.
pub open spec fn next_step(
    step: SaveStep,
    succeeded: bool,
    restore_permissions: bool,
    sync_directory: bool,
) -> SaveNext {
    match step {
        SaveStep::WriteTemp => if succeeded {
            SaveNext::Do(SaveStep::Rename)
        } else {
            SaveNext::DiscardTempAndFail
        },
        SaveStep::Rename => if succeeded {
            after_replace(restore_permissions, sync_directory)
        } else {
            SaveNext::DiscardTempAndFail
        },
        SaveStep::RestorePermissions => if sync_directory {
            SaveNext::Do(SaveStep::SyncDirectory)
        } else {
            SaveNext::Succeed
        },
        SaveStep::SyncDirectory => SaveNext::Succeed,
    }
}

/// What follows a step of an atomic save.
pub fn save_next(step: SaveStep, succeeded: bool, restore_permissions: bool, sync_directory: bool) -> (r:
    SaveNext)
    ensures
        r == next_step(step, succeeded, restore_permissions, sync_directory),
{
    match step {
        SaveStep::WriteTemp => if succeeded {
            SaveNext::Do(SaveStep::Rename)
        } else {
            SaveNext::DiscardTempAndFail
        },
        SaveStep::Rename => if succeeded {
            if restore_permissions {
                SaveNext::Do(SaveStep::RestorePermissions)
            } else if sync_directory {
                SaveNext::Do(SaveStep::SyncDirectory)
            } else {
                SaveNext::Succeed
            }
        } else {
            SaveNext::DiscardTempAndFail
        },
        SaveStep::RestorePermissions => if sync_directory {
            SaveNext::Do(SaveStep::SyncDirectory)
        } else {
            SaveNext::Succeed
        },
        SaveStep::SyncDirectory => SaveNext::Succeed,
    }
}

/// How a save that is at `step` ends when its steps report `outcomes` in turn: the steps
/// it performs (this one included) and whether it succeeds. `None` when the outcomes run
/// out first.
pub open spec fn run_save(
    step: SaveStep,
    outcomes: Seq<bool>,
    restore_permissions: bool,
    sync_directory: bool,
) -> Option<(Seq<SaveStep>, bool)>
    decreases outcomes.len(),
{
    if outcomes.len() == 0 {
        None
    } else {
        match next_step(step, outcomes[0], restore_permissions, sync_directory) {
            SaveNext::Do(s) => match run_save(
                s,
                outcomes.drop_first(),
                restore_permissions,
                sync_directory,
            ) {
                Some((steps, ok)) => Some((seq![step] + steps, ok)),
                None => None,
            },
            SaveNext::DiscardTempAndFail => Some((seq![step], false)),
            SaveNext::Succeed => Some((seq![step], true)),
        }
    }
}

/// The steps of a run that ended.
pub open spec fn steps_of(r: Option<(Seq<SaveStep>, bool)>) -> Seq<SaveStep> {
    match r {
        Some((steps, _)) => steps,
        None => Seq::empty(),
    }
}

/// A save succeeds only when both the writing of the temporary file and its move over the
/// target succeeded, and then it has moved the file: the target is replaced only by a
/// temporary file written in full, and a failed write or move never reports success.
pub proof fn law_success_needs_write_and_rename(
    outcomes: Seq<bool>,
    restore_permissions: bool,
    sync_directory: bool,
)
    requires
        run_save(SaveStep::WriteTemp, outcomes, restore_permissions, sync_directory) matches Some(
            (_, true),
        ),
    ensures
        outcomes.len() >= 2,
        outcomes[0],
        outcomes[1],
        steps_of(run_save(SaveStep::WriteTemp, outcomes, restore_permissions, sync_directory)).len()
            >= 2,
        steps_of(run_save(SaveStep::WriteTemp, outcomes, restore_permissions, sync_directory))[0]
            == SaveStep::WriteTemp,
        steps_of(run_save(SaveStep::WriteTemp, outcomes, restore_permissions, sync_directory))[1]
            == SaveStep::Rename,
{
    let rest = outcomes.drop_first();
    let whole = run_save(SaveStep::WriteTemp, outcomes, restore_permissions, sync_directory);
    assert(outcomes.len() > 0);
    if !outcomes[0] {
        assert(whole == Some((seq![SaveStep::WriteTemp], false)));
    }
    let tail = run_save(SaveStep::Rename, rest, restore_permissions, sync_directory);
    assert(whole == (match tail {
        Some((steps, ok)) => Some((seq![SaveStep::WriteTemp] + steps, ok)),
        None => None,
    }));
    if rest.len() == 0 {
        assert(tail is None);
    } else if !rest[0] {
        assert(tail == Some((seq![SaveStep::Rename], false)));
    } else {
        let ts = steps_of(tail);
        assert(ts.len() > 0 && ts[0] == SaveStep::Rename);
        assert(steps_of(whole) == seq![SaveStep::WriteTemp] + ts);
    }
}

/// A save that succeeds performs exactly these steps, in this order: write the temporary
/// file, move it over the target, restore the target's permissions when it had some, and
/// sync the directory where that is done. In particular the permissions of a target that
/// existed are always restored, and before the directory is synced.
pub proof fn law_successful_save_steps(
    outcomes: Seq<bool>,
    restore_permissions: bool,
    sync_directory: bool,
)
    requires
        run_save(SaveStep::WriteTemp, outcomes, restore_permissions, sync_directory) matches Some(
            (_, true),
        ),
    ensures
        steps_of(run_save(SaveStep::WriteTemp, outcomes, restore_permissions, sync_directory))
            == seq![SaveStep::WriteTemp, SaveStep::Rename] + (if restore_permissions {
            seq![SaveStep::RestorePermissions]
        } else {
            Seq::<SaveStep>::empty()
        }) + (if sync_directory {
            seq![SaveStep::SyncDirectory]
        } else {
            Seq::<SaveStep>::empty()
        }),
{
    law_success_needs_write_and_rename(outcomes, restore_permissions, sync_directory);
    let o1 = outcomes.drop_first();
    let o2 = o1.drop_first();
    let o3 = o2.drop_first();
    let whole = run_save(SaveStep::WriteTemp, outcomes, restore_permissions, sync_directory);
    let r1 = run_save(SaveStep::Rename, o1, restore_permissions, sync_directory);
    let r2 = run_save(SaveStep::RestorePermissions, o2, restore_permissions, sync_directory);
    let r2s = run_save(SaveStep::SyncDirectory, o2, restore_permissions, sync_directory);
    let r3 = run_save(SaveStep::SyncDirectory, o3, restore_permissions, sync_directory);
    assert(whole == (match r1 {
        Some((steps, ok)) => Some((seq![SaveStep::WriteTemp] + steps, ok)),
        None => None,
    }));
    assert(o1.len() > 0 && o1[0]);
    if restore_permissions {
        assert(r1 == (match r2 {
            Some((steps, ok)) => Some((seq![SaveStep::Rename] + steps, ok)),
            None => None,
        }));
        assert(o2.len() > 0);
        if sync_directory {
            assert(r2 == (match r3 {
                Some((steps, ok)) => Some((seq![SaveStep::RestorePermissions] + steps, ok)),
                None => None,
            }));
            assert(o3.len() > 0);
            assert(r3 == Some((seq![SaveStep::SyncDirectory], true)));
            assert(steps_of(whole) =~= seq![
                SaveStep::WriteTemp,
                SaveStep::Rename,
                SaveStep::RestorePermissions,
                SaveStep::SyncDirectory,
            ]);
        } else {
            assert(r2 == Some((seq![SaveStep::RestorePermissions], true)));
            assert(steps_of(whole) =~= seq![
                SaveStep::WriteTemp,
                SaveStep::Rename,
                SaveStep::RestorePermissions,
            ]);
        }
    } else if sync_directory {
        assert(r1 == (match r2s {
            Some((steps, ok)) => Some((seq![SaveStep::Rename] + steps, ok)),
            None => None,
        }));
        assert(o2.len() > 0);
        assert(r2s == Some((seq![SaveStep::SyncDirectory], true)));
        assert(steps_of(whole) =~= seq![
            SaveStep::WriteTemp,
            SaveStep::Rename,
            SaveStep::SyncDirectory,
        ]);
    } else {
        assert(r1 == Some((seq![SaveStep::Rename], true)));
        assert(steps_of(whole) =~= seq![SaveStep::WriteTemp, SaveStep::Rename]);
    }
}

} // verus!
