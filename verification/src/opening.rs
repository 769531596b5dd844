//! How the store is opened: the checkpoint is read, then replaced by what was read, then the
//! writer is started. A store that cannot be persisted is not opened, and a file that cannot be
//! loaded is not replaced.

use crate::annotation::AnnotationView;
use crate::checkpoint::{gives, law_read_is_determined, CheckpointFile, CheckpointRead};
use crate::error::{failure, CheckpointError};
use crate::layout::{
    law_bad_record_gives_no_store, law_good_file_is_read, law_malformed_file_gives_no_store,
    law_missing_file_gives_an_empty_store, law_other_version_gives_no_store,
    law_unreadable_file_gives_no_store,
};
use crate::store::{AnnotationStore, KeyView, StoreView};
use vstd::prelude::*;

verus! {

/// What is to be done next.
#[derive(Debug)]
pub enum Opening {
    /// Read the checkpoint.
    Read,
    /// Replace the checkpoint by that of the store.
    Replace { store: AnnotationStore },
    /// Start the writer.
    Start { store: AnnotationStore },
    /// Nothing: the store is open.
    Opened { store: AnnotationStore },
    /// Nothing: there is no store.
    Refused { error: CheckpointError },
}

/// What came of a step.
#[derive(Debug)]
pub enum OpeningEvent {
    Read { read: CheckpointRead },
    Replaced { result: Result<(), CheckpointError> },
    Started { outcome: Result<(), String> },
}

/// A step by what the store holds, with the reason in the place of the error.
pub enum OpeningView {
    Read,
    Replace { store: StoreView },
    Start { store: StoreView },
    Opened { store: StoreView },
    Refused { reason: Seq<char> },
}

impl View for Opening {
    type V = OpeningView;

    open spec fn view(&self) -> OpeningView {
        match *self {
            Opening::Read => OpeningView::Read,
            Opening::Replace { store } => OpeningView::Replace { store: store@ },
            Opening::Start { store } => OpeningView::Start { store: store@ },
            Opening::Opened { store } => OpeningView::Opened { store: store@ },
            Opening::Refused { error } => OpeningView::Refused { reason: error@ },
        }
    }
}

impl OpeningView {
    /// `next` is the step after this one at the given event. An event that does not belong to a
    /// step changes nothing.
    pub open spec fn leads_to(
        self,
        event: OpeningEvent,
        path: Seq<char>,
        limit: usize,
        next: OpeningView,
    ) -> bool {
        match (self, event) {
            (OpeningView::Read, OpeningEvent::Read { read }) => match next {
                OpeningView::Replace { store } => store.limit == limit && gives(
                    read,
                    path,
                    Ok(store.entries),
                ),
                OpeningView::Refused { reason } => gives(read, path, Err(reason)),
                _ => false,
            },
            (OpeningView::Replace { store }, OpeningEvent::Replaced { result }) => match result {
                Ok(_) => next == (OpeningView::Start { store }),
                Err(error) => next == (OpeningView::Refused { reason: error@ }),
            },
            (OpeningView::Start { store }, OpeningEvent::Started { outcome }) => match outcome {
                Ok(_) => next == (OpeningView::Opened { store }),
                Err(cause) => next == (OpeningView::Refused {
                    reason: failure("start"@, "checkpoint thread"@, cause@),
                }),
            },
            _ => next == self,
        }
    }
}

impl Opening {
    /// What is to be done after this step, given what came of it.
    pub fn next(self, event: OpeningEvent, path: &str, limit: usize) -> (step: Opening)
        ensures
            self@.leads_to(event, path@, limit, step@),
    {
        match self {
            Opening::Read => match event {
                OpeningEvent::Read { read } => match AnnotationStore::open(path, read, limit) {
                    Ok(store) => Opening::Replace { store },
                    Err(error) => Opening::Refused { error },
                },
                _ => Opening::Read,
            },
            Opening::Replace { store } => match event {
                OpeningEvent::Replaced { result } => match result {
                    Ok(_) => Opening::Start { store },
                    Err(error) => Opening::Refused { error },
                },
                _ => Opening::Replace { store },
            },
            Opening::Start { store } => match event {
                OpeningEvent::Started { outcome } => match outcome {
                    Ok(_) => Opening::Opened { store },
                    Err(cause) => Opening::Refused {
                        error: CheckpointError::failed(
                            "start",
                            "checkpoint thread",
                            cause.as_str(),
                        ),
                    },
                },
                _ => Opening::Start { store },
            },
            Opening::Opened { store } => Opening::Opened { store },
            Opening::Refused { error } => Opening::Refused { error },
        }
    }
}

/// A file that cannot be loaded is refused with the reason, and never replaced.
pub proof fn law_unloadable_file_is_not_replaced(
    read: CheckpointRead,
    path: Seq<char>,
    limit: usize,
    reason: Seq<char>,
    next: OpeningView,
)
    requires
        gives(read, path, Err(reason)),
        OpeningView::Read.leads_to(OpeningEvent::Read { read }, path, limit, next),
    ensures
        next == (OpeningView::Refused { reason }),
{
    match next {
        OpeningView::Replace { store } => {
            law_read_is_determined(read, path, Err(reason), Ok(store.entries));
        },
        OpeningView::Refused { reason: other } => {
            law_read_is_determined(read, path, Err(reason), Err(other));
        },
        _ => {},
    }
}

/// A store is opened with exactly what was read, and only where the checkpoint could be replaced
/// and the writer started.
pub proof fn law_opened_store_is_what_was_read(
    read: CheckpointRead,
    replaced: Result<(), CheckpointError>,
    started: Result<(), String>,
    path: Seq<char>,
    limit: usize,
    first: OpeningView,
    second: OpeningView,
    third: OpeningView,
)
    requires
        OpeningView::Read.leads_to(OpeningEvent::Read { read }, path, limit, first),
        first.leads_to(OpeningEvent::Replaced { result: replaced }, path, limit, second),
        second.leads_to(OpeningEvent::Started { outcome: started }, path, limit, third),
    ensures
        third is Opened || third is Refused,
        third is Opened <==> (first is Replace && replaced is Ok && started is Ok),
        third matches OpeningView::Opened { store } ==> store.limit == limit && gives(
            read,
            path,
            Ok(store.entries),
        ),
{
}

/// A file that is there but cannot be read or parsed is refused, whatever the cause: it is not
/// replaced, and no store is opened in its place.
pub proof fn law_damaged_file_is_refused(
    cause: String,
    path: Seq<char>,
    limit: usize,
    next: OpeningView,
)
    ensures
        OpeningView::Read.leads_to(
            OpeningEvent::Read { read: CheckpointRead::Unreadable { cause } },
            path,
            limit,
            next,
        ) ==> next == (OpeningView::Refused {
            reason: "failed to read "@ + path + ": "@ + cause@,
        }),
        OpeningView::Read.leads_to(
            OpeningEvent::Read { read: CheckpointRead::Malformed { cause } },
            path,
            limit,
            next,
        ) ==> next == (OpeningView::Refused {
            reason: "failed to parse "@ + path + ": "@ + cause@,
        }),
{
    let unreadable = CheckpointRead::Unreadable { cause };
    let malformed = CheckpointRead::Malformed { cause };
    match next {
        OpeningView::Replace { store } => {
            if gives(unreadable, path, Ok(store.entries)) {
                law_unreadable_file_gives_no_store(cause, path, Ok(store.entries));
            }
            if gives(malformed, path, Ok(store.entries)) {
                law_malformed_file_gives_no_store(cause, path, Ok(store.entries));
            }
        },
        OpeningView::Refused { reason } => {
            if gives(unreadable, path, Err(reason)) {
                law_unreadable_file_gives_no_store(cause, path, Err(reason));
            }
            if gives(malformed, path, Err(reason)) {
                law_malformed_file_gives_no_store(cause, path, Err(reason));
            }
        },
        _ => {},
    }
}

/// A file with a bad record, or of another version, is refused and not replaced.
pub proof fn law_file_that_cannot_be_used_is_refused(
    file: CheckpointFile,
    i: int,
    path: Seq<char>,
    limit: usize,
    next: OpeningView,
)
    requires
        file.version != 1 || (0 <= i < file.annotations@.len() && file.bad(i)),
        OpeningView::Read.leads_to(
            OpeningEvent::Read { read: CheckpointRead::Parsed { file } },
            path,
            limit,
            next,
        ),
    ensures
        next is Refused,
{
    if let OpeningView::Replace { store } = next {
        if file.version != 1 {
            law_other_version_gives_no_store(file, path, Ok(store.entries));
        } else {
            law_bad_record_gives_no_store(file, i, path, Ok(store.entries));
        }
    }
}

/// Where there is no file, an empty store is written in its place; so is what a good file holds.
pub proof fn law_usable_read_is_written_back(
    read: CheckpointRead,
    path: Seq<char>,
    limit: usize,
    next: OpeningView,
)
    requires
        read is Missing || (read matches CheckpointRead::Parsed { file } && file.version == 1
            && forall|i: int| 0 <= i < file.annotations@.len() ==> !file.bad(i)),
        OpeningView::Read.leads_to(OpeningEvent::Read { read }, path, limit, next),
    ensures
        next is Replace,
        next->Replace_store.limit == limit,
        read is Missing ==> next->Replace_store.entries == Map::<
            KeyView,
            AnnotationView,
        >::empty(),
{
    let result = match next {
        OpeningView::Replace { store } => Ok(store.entries),
        OpeningView::Refused { reason } => Err(reason),
        _ => Err(Seq::empty()),
    };
    match read {
        CheckpointRead::Missing => {
            law_missing_file_gives_an_empty_store(path, result);
        },
        CheckpointRead::Parsed { file } => {
            law_good_file_is_read(file, path, result);
        },
        _ => {},
    }
    if read is Missing {
        assert(next->Replace_store.entries =~= Map::<KeyView, AnnotationView>::empty());
    }
}

/// A store is started only once it has been written, and opened only once its writer runs; a step
/// that fails is the reason why there is no store.
pub proof fn law_failed_step_refuses_the_store(
    store: StoreView,
    replaced: Result<(), CheckpointError>,
    started: Result<(), String>,
    path: Seq<char>,
    limit: usize,
    next: OpeningView,
)
    ensures
        (OpeningView::Replace { store }).leads_to(
            OpeningEvent::Replaced { result: replaced },
            path,
            limit,
            next,
        ) ==> match replaced {
            Ok(_) => next == (OpeningView::Start { store }),
            Err(error) => next == (OpeningView::Refused { reason: error@ }),
        },
        (OpeningView::Start { store }).leads_to(
            OpeningEvent::Started { outcome: started },
            path,
            limit,
            next,
        ) ==> match started {
            Ok(_) => next == (OpeningView::Opened { store }),
            Err(cause) => next == (OpeningView::Refused {
                reason: "failed to start checkpoint thread: "@ + cause@,
            }),
        },
{
    reveal_strlit("failed to ");
    reveal_strlit("start");
    reveal_strlit(" ");
    reveal_strlit("checkpoint thread");
    reveal_strlit(": ");
    reveal_strlit("failed to start checkpoint thread: ");
    assert("failed to "@ + "start"@ + " "@ + "checkpoint thread"@ + ": "@
        =~= "failed to start checkpoint thread: "@);
}

/// An event that does not belong to a step changes nothing, and nothing changes a store that is
/// open or refused.
pub proof fn law_event_out_of_turn_changes_nothing(
    step: OpeningView,
    event: OpeningEvent,
    path: Seq<char>,
    limit: usize,
    next: OpeningView,
)
    requires
        step.leads_to(event, path, limit, next),
        step is Read ==> event !is Read,
        step is Replace ==> event !is Replaced,
        step is Start ==> event !is Started,
    ensures
        next == step,
{
}

/// A step shows its store, or the reason of its error.
pub proof fn law_step_shows_its_store(step: Opening)
    ensures
        step is Read <==> step@ is Read,
        step matches Opening::Replace { store } ==> step@ == (OpeningView::Replace {
            store: store@,
        }),
        step matches Opening::Start { store } ==> step@ == (OpeningView::Start { store: store@ }),
        step matches Opening::Opened { store } ==> step@ == (OpeningView::Opened { store: store@ }),
        step matches Opening::Refused { error } ==> step@ == (OpeningView::Refused {
            reason: error@,
        }),
{
}

}
