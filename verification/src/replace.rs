//! How the checkpoint file is replaced.
//!
//! The new contents go to a temporary file, which takes the place of the checkpoint once it is
//! whole and on disk. Whatever fails before leaves the checkpoint as it was.

use crate::error::{failure, CheckpointError};
use vstd::prelude::*;

verus! {

/// What is to be done next.
#[derive(Debug)]
pub enum ReplaceStep {
    /// Turn the records into bytes.
    Serialise,
    /// Create the temporary file.
    Create,
    /// Write the bytes to it.
    Write,
    /// Have it on disk.
    Sync,
    /// Put it in the place of the checkpoint.
    Rename,
    /// Have the directory on disk.
    SyncDirectory,
    /// Remove the temporary file.
    Discard { error: CheckpointError },
    /// Nothing. This is what came of it.
    Finished { result: Result<(), CheckpointError> },
}

/// A step, with the reason in the place of the error.
pub enum ReplaceView {
    Serialise,
    Create,
    Write,
    Sync,
    Rename,
    SyncDirectory,
    Discard { reason: Seq<char> },
    Finished { failed: Option<Seq<char>> },
}

impl View for ReplaceStep {
    type V = ReplaceView;

    open spec fn view(&self) -> ReplaceView {
        match *self {
            ReplaceStep::Serialise => ReplaceView::Serialise,
            ReplaceStep::Create => ReplaceView::Create,
            ReplaceStep::Write => ReplaceView::Write,
            ReplaceStep::Sync => ReplaceView::Sync,
            ReplaceStep::Rename => ReplaceView::Rename,
            ReplaceStep::SyncDirectory => ReplaceView::SyncDirectory,
            ReplaceStep::Discard { error } => ReplaceView::Discard { reason: error@ },
            ReplaceStep::Finished { result } => ReplaceView::Finished {
                failed: match result {
                    Ok(_) => None,
                    Err(error) => Some(error@),
                },
            },
        }
    }
}

/// The reason that a failed replacement gives.
pub open spec fn replace_failure(
    path: Seq<char>,
    temporary: Seq<char>,
    cause: Seq<char>,
) -> Seq<char> {
    failure("replace"@, path + " with "@ + temporary, cause)
}

impl ReplaceView {
    /// The step after this one, where it failed for `cause`, or did not fail.
    pub open spec fn next(
        self,
        cause: Option<Seq<char>>,
        path: Seq<char>,
        temporary: Seq<char>,
    ) -> ReplaceView {
        match (self, cause) {
            (ReplaceView::Serialise, None) => ReplaceView::Create,
            (ReplaceView::Serialise, Some(cause)) => ReplaceView::Finished { failed: Some(cause) },
            (ReplaceView::Create, None) => ReplaceView::Write,
            (ReplaceView::Create, Some(cause)) => ReplaceView::Discard {
                reason: failure("create"@, temporary, cause),
            },
            (ReplaceView::Write, None) => ReplaceView::Sync,
            (ReplaceView::Write, Some(cause)) => ReplaceView::Discard {
                reason: failure("write"@, temporary, cause),
            },
            (ReplaceView::Sync, None) => ReplaceView::Rename,
            (ReplaceView::Sync, Some(cause)) => ReplaceView::Discard {
                reason: failure("sync"@, temporary, cause),
            },
            (ReplaceView::Rename, None) => ReplaceView::SyncDirectory,
            (ReplaceView::Rename, Some(cause)) => ReplaceView::Discard {
                reason: replace_failure(path, temporary, cause),
            },
            (ReplaceView::SyncDirectory, _) => ReplaceView::Finished { failed: None },
            (ReplaceView::Discard { reason }, _) => ReplaceView::Finished { failed: Some(reason) },
            (ReplaceView::Finished { failed }, _) => ReplaceView::Finished { failed },
        }
    }
}

/// The cause in the outcome of a step.
pub open spec fn cause_of(outcome: Result<(), String>) -> Option<Seq<char>> {
    match outcome {
        Ok(_) => None,
        Err(cause) => Some(cause@),
    }
}

impl ReplaceStep {
    /// What is to be done after this step, given what came of it.
    pub fn next(
        self,
        outcome: Result<(), String>,
        path: &str,
        temporary: &str,
    ) -> (step: ReplaceStep)
        ensures
            step@ == self@.next(cause_of(outcome), path@, temporary@),
    {
        match self {
            ReplaceStep::Serialise => match outcome {
                Ok(_) => ReplaceStep::Create,
                Err(cause) => ReplaceStep::Finished { result: Err(CheckpointError::new(cause)) },
            },
            ReplaceStep::Create => match outcome {
                Ok(_) => ReplaceStep::Write,
                Err(cause) => ReplaceStep::Discard {
                    error: CheckpointError::failed("create", temporary, cause.as_str()),
                },
            },
            ReplaceStep::Write => match outcome {
                Ok(_) => ReplaceStep::Sync,
                Err(cause) => ReplaceStep::Discard {
                    error: CheckpointError::failed("write", temporary, cause.as_str()),
                },
            },
            ReplaceStep::Sync => match outcome {
                Ok(_) => ReplaceStep::Rename,
                Err(cause) => ReplaceStep::Discard {
                    error: CheckpointError::failed("sync", temporary, cause.as_str()),
                },
            },
            ReplaceStep::Rename => match outcome {
                Ok(_) => ReplaceStep::SyncDirectory,
                Err(cause) => {
                    let mut subject: String = path.to_owned();
                    subject.append(" with ");
                    subject.append(temporary);
                    ReplaceStep::Discard {
                        error: CheckpointError::failed(
                            "replace",
                            subject.as_str(),
                            cause.as_str(),
                        ),
                    }
                },
            },
            ReplaceStep::SyncDirectory => ReplaceStep::Finished { result: Ok(()) },
            ReplaceStep::Discard { error } => ReplaceStep::Finished { result: Err(error) },
            ReplaceStep::Finished { result } => ReplaceStep::Finished { result },
        }
    }
}

/// Where a replacement stands after steps with the given outcomes.
pub open spec fn replacement_after(
    causes: Seq<Option<Seq<char>>>,
    path: Seq<char>,
    temporary: Seq<char>,
) -> ReplaceView
    decreases causes.len(),
{
    if causes.len() == 0 {
        ReplaceView::Serialise
    } else {
        replacement_after(causes.drop_last(), path, temporary).next(
            causes.last(),
            path,
            temporary,
        )
    }
}

/// The first `n` steps did not fail.
pub open spec fn succeeded(causes: Seq<Option<Seq<char>>>, n: int) -> bool {
    &&& n <= causes.len()
    &&& forall|i: int| 0 <= i < n ==> (#[trigger] causes[i]) is None
}

/// The reason that is given where the step at place `i` fails for `cause`.
pub open spec fn reason_at(
    i: int,
    path: Seq<char>,
    temporary: Seq<char>,
    cause: Seq<char>,
) -> Seq<char> {
    if i == 0 {
        cause
    } else if i == 1 {
        failure("create"@, temporary, cause)
    } else if i == 2 {
        failure("write"@, temporary, cause)
    } else if i == 3 {
        failure("sync"@, temporary, cause)
    } else {
        replace_failure(path, temporary, cause)
    }
}

/// Where a replacement stands is told by how many steps went well before one failed.
proof fn lemma_replacement(
    causes: Seq<Option<Seq<char>>>,
    path: Seq<char>,
    temporary: Seq<char>,
)
    ensures
        match replacement_after(causes, path, temporary) {
            ReplaceView::Serialise => causes.len() == 0,
            ReplaceView::Create => causes.len() == 1 && succeeded(causes, 1),
            ReplaceView::Write => causes.len() == 2 && succeeded(causes, 2),
            ReplaceView::Sync => causes.len() == 3 && succeeded(causes, 3),
            ReplaceView::Rename => causes.len() == 4 && succeeded(causes, 4),
            ReplaceView::SyncDirectory => causes.len() == 5 && succeeded(causes, 5),
            ReplaceView::Discard { reason } => {
                let i = causes.len() - 1;
                &&& 0 < i < 5
                &&& succeeded(causes, i)
                &&& causes[i] is Some
                &&& reason == reason_at(i, path, temporary, causes[i]->0)
            },
            ReplaceView::Finished { failed: None } => causes.len() > 5 && succeeded(causes, 5),
            ReplaceView::Finished { failed: Some(reason) } => exists|i: int|
                0 <= i < 5 && i < causes.len() && succeeded(causes, i) && (
                #[trigger] causes[i]) is Some && reason == reason_at(
                    i,
                    path,
                    temporary,
                    causes[i]->0,
                ),
        },
    decreases causes.len(),
{
    if causes.len() > 0 {
        let earlier = causes.drop_last();
        lemma_replacement(earlier, path, temporary);
        assert(forall|i: int| 0 <= i < earlier.len() ==> #[trigger] causes[i] == earlier[i]);
        if let ReplaceView::Finished { failed: Some(reason) } = replacement_after(
            earlier,
            path,
            temporary,
        ) {
            let i = choose|i: int|
                0 <= i < 5 && i < earlier.len() && succeeded(earlier, i) && (
                #[trigger] earlier[i]) is Some && reason == reason_at(
                    i,
                    path,
                    temporary,
                    earlier[i]->0,
                );
            assert(causes[i] is Some);
        }
        if replacement_after(earlier, path, temporary) is Discard {
            assert(causes[causes.len() - 2] is Some);
        }
        if replacement_after(earlier, path, temporary) is Serialise {
            assert(causes[causes.len() - 1] == causes.last());
        }
    }
}

/// The checkpoint is replaced only by a temporary file that was created, written whole and brought
/// to disk.
pub proof fn law_only_a_whole_file_replaces_the_checkpoint(
    causes: Seq<Option<Seq<char>>>,
    path: Seq<char>,
    temporary: Seq<char>,
)
    requires
        replacement_after(causes, path, temporary) == ReplaceView::Rename,
    ensures
        causes.len() == 4,
        succeeded(causes, 4),
{
    lemma_replacement(causes, path, temporary);
}

/// A replacement that succeeds has replaced the checkpoint, and one that fails says which step
/// failed first, and why. Where the directory cannot be brought to disk, the replacement stands.
pub proof fn law_result_of_a_replacement(
    causes: Seq<Option<Seq<char>>>,
    path: Seq<char>,
    temporary: Seq<char>,
)
    requires
        replacement_after(causes, path, temporary) is Finished,
    ensures
        match replacement_after(causes, path, temporary)->failed {
            None => succeeded(causes, 5),
            Some(reason) => exists|i: int|
                0 <= i < 5 && i < causes.len() && succeeded(causes, i) && (
                #[trigger] causes[i]) is Some && reason == reason_at(
                    i,
                    path,
                    temporary,
                    causes[i]->0,
                ),
        },
{
    lemma_replacement(causes, path, temporary);
}

/// A replacement comes to an end.
pub proof fn law_replacement_ends(
    causes: Seq<Option<Seq<char>>>,
    path: Seq<char>,
    temporary: Seq<char>,
)
    requires
        causes.len() >= 6,
    ensures
        replacement_after(causes, path, temporary) is Finished,
{
    lemma_replacement(causes, path, temporary);
}

/// Where a file was begun that did not replace the checkpoint, it is discarded before the end.
pub proof fn law_failed_file_is_discarded(
    step: ReplaceView,
    cause: Option<Seq<char>>,
    path: Seq<char>,
    temporary: Seq<char>,
)
    requires
        step is Create || step is Write || step is Sync || step is Rename,
        cause is Some,
    ensures
        step.next(cause, path, temporary) is Discard,
{
}

/// A replacement that goes well takes its steps one by one: the file is made, written and brought
/// to disk before it takes the place of the checkpoint.
pub proof fn law_steps_of_a_replacement(
    causes: Seq<Option<Seq<char>>>,
    path: Seq<char>,
    temporary: Seq<char>,
)
    requires
        forall|i: int| 0 <= i < causes.len() ==> (#[trigger] causes[i]) is None,
    ensures
        ({
            let step = replacement_after(causes, path, temporary);
            &&& causes.len() == 0 <==> step is Serialise
            &&& causes.len() == 1 <==> step is Create
            &&& causes.len() == 2 <==> step is Write
            &&& causes.len() == 3 <==> step is Sync
            &&& causes.len() == 4 <==> step is Rename
            &&& causes.len() == 5 <==> step is SyncDirectory
            &&& causes.len() > 5 ==> step == (ReplaceView::Finished { failed: None })
        }),
    decreases causes.len(),
{
    if causes.len() > 0 {
        let earlier = causes.drop_last();
        assert(forall|i: int| 0 <= i < earlier.len() ==> #[trigger] earlier[i] == causes[i]);
        law_steps_of_a_replacement(earlier, path, temporary);
        assert(causes[causes.len() - 1] is None);
    }
}

/// A replacement in which a step fails ends with the reason of that step, whatever comes after, and
/// without having replaced the checkpoint. Records that cannot be turned into bytes leave nothing
/// to discard; from then on what was begun is discarded.
pub proof fn law_failed_step_is_named(
    causes: Seq<Option<Seq<char>>>,
    i: int,
    path: Seq<char>,
    temporary: Seq<char>,
)
    requires
        0 <= i < causes.len(),
        i < 5,
        forall|j: int| 0 <= j < i ==> (#[trigger] causes[j]) is None,
        causes[i] is Some,
    ensures
        ({
            let cause = causes[i]->0;
            let reason = if i == 0 {
                cause
            } else if i == 1 {
                "failed to create "@ + temporary + ": "@ + cause
            } else if i == 2 {
                "failed to write "@ + temporary + ": "@ + cause
            } else if i == 3 {
                "failed to sync "@ + temporary + ": "@ + cause
            } else {
                "failed to replace "@ + path + " with "@ + temporary + ": "@ + cause
            };
            if i > 0 && causes.len() == i + 1 {
                replacement_after(causes, path, temporary) == (ReplaceView::Discard { reason })
            } else {
                replacement_after(causes, path, temporary) == (ReplaceView::Finished {
                    failed: Some(reason),
                })
            }
        }),
    decreases causes.len(),
{
    let earlier = causes.drop_last();
    assert(forall|j: int| 0 <= j < earlier.len() ==> #[trigger] earlier[j] == causes[j]);
    if causes.len() == i + 1 {
        lemma_failed_to();
        law_steps_of_a_replacement(earlier, path, temporary);
        let cause = causes[i]->0;
        assert(failure("replace"@, path + " with "@ + temporary, cause) =~= "failed to replace "@
            + path + " with "@ + temporary + ": "@ + cause);
    } else {
        law_failed_step_is_named(earlier, i, path, temporary);
    }
}

proof fn lemma_failed_to()
    ensures
        "failed to "@ + "create"@ + " "@ == "failed to create "@,
        "failed to "@ + "write"@ + " "@ == "failed to write "@,
        "failed to "@ + "sync"@ + " "@ == "failed to sync "@,
        "failed to "@ + "replace"@ + " "@ == "failed to replace "@,
{
    reveal_strlit("failed to ");
    reveal_strlit("create");
    reveal_strlit("write");
    reveal_strlit("sync");
    reveal_strlit("replace");
    reveal_strlit(" ");
    reveal_strlit("failed to create ");
    reveal_strlit("failed to write ");
    reveal_strlit("failed to sync ");
    reveal_strlit("failed to replace ");
    assert("failed to "@ + "create"@ + " "@ =~= "failed to create "@);
    assert("failed to "@ + "write"@ + " "@ =~= "failed to write "@);
    assert("failed to "@ + "sync"@ + " "@ =~= "failed to sync "@);
    assert("failed to "@ + "replace"@ + " "@ =~= "failed to replace "@);
}

/// Once the checkpoint is replaced, it does not matter whether the directory was brought to disk.
pub proof fn law_replaced_checkpoint_stands(
    causes: Seq<Option<Seq<char>>>,
    path: Seq<char>,
    temporary: Seq<char>,
)
    requires
        causes.len() > 5,
        forall|i: int| 0 <= i < 5 ==> (#[trigger] causes[i]) is None,
    ensures
        replacement_after(causes, path, temporary) == (ReplaceView::Finished { failed: None }),
    decreases causes.len(),
{
    let earlier = causes.drop_last();
    assert(forall|i: int| 0 <= i < earlier.len() ==> #[trigger] earlier[i] == causes[i]);
    if causes.len() == 6 {
        law_steps_of_a_replacement(earlier, path, temporary);
    } else {
        law_replaced_checkpoint_stands(earlier, path, temporary);
    }
}

/// A step shows the reason of its error, and whether the replacement failed.
pub proof fn law_step_shows_its_error(step: ReplaceStep)
    ensures
        step matches ReplaceStep::Discard { error } ==> step@ == (ReplaceView::Discard {
            reason: error@,
        }),
        step matches ReplaceStep::Finished { result: Ok(_) } ==> step@ == (ReplaceView::Finished {
            failed: None,
        }),
        step matches ReplaceStep::Finished { result: Err(error) } ==> step@
            == (ReplaceView::Finished { failed: Some(error@) }),
        step is Serialise <==> step@ is Serialise,
        step is Create <==> step@ is Create,
        step is Write <==> step@ is Write,
        step is Sync <==> step@ is Sync,
        step is Rename <==> step@ is Rename,
        step is SyncDirectory <==> step@ is SyncDirectory,
{
}

}
