//! When the checkpoint is written.
//!
//! The writer waits for messages. After a change it waits on, until the store has been left alone
//! for the debounce, and writes then. A flush and the end of the process write at once.

use vstd::prelude::*;

verus! {

/// What the writer is doing.
#[derive(Clone, Copy, Debug, PartialEq, Eq, Structural)]
pub enum WriterState {
    /// Waits for a message, however long. What was changed has been written.
    Idle,
    /// Waits for a message, but no longer than the debounce.
    Debouncing,
    /// Has ended.
    Stopped,
}

/// What ends a wait.
#[derive(Clone, Copy, Debug, PartialEq, Eq, Structural)]
pub enum WriterEvent {
    /// The store has changed.
    Dirty,
    /// Somebody waits for the store to be written.
    Flush,
    /// The store is shut down, or is gone.
    Stop,
    /// The debounce has passed.
    Timeout,
}

/// What the writer does at an event, and then is.
#[derive(Clone, Copy, Debug, PartialEq, Eq, Structural)]
pub struct WriterStep {
    /// Writes the store.
    pub write: bool,
    /// Tells whoever waits, after the write.
    pub acknowledge: bool,
    pub state: WriterState,
}

/// The step at an event.
pub open spec fn step_at(state: WriterState, event: WriterEvent) -> WriterStep {
    match (state, event) {
        (WriterState::Stopped, _) => WriterStep { write: false, acknowledge: false, state },
        (_, WriterEvent::Dirty) => WriterStep {
            write: false,
            acknowledge: false,
            state: WriterState::Debouncing,
        },
        (_, WriterEvent::Flush) => WriterStep { write: true, acknowledge: true, state },
        (_, WriterEvent::Stop) => WriterStep {
            write: true,
            acknowledge: false,
            state: WriterState::Stopped,
        },
        (WriterState::Debouncing, WriterEvent::Timeout) => WriterStep {
            write: true,
            acknowledge: false,
            state: WriterState::Idle,
        },
        (WriterState::Idle, WriterEvent::Timeout) => WriterStep {
            write: false,
            acknowledge: false,
            state,
        },
    }
}

/// What the writer does at an event.
pub fn writer_step(state: WriterState, event: WriterEvent) -> (step: WriterStep)
    ensures
        step == step_at(state, event),
{
    match state {
        WriterState::Stopped => WriterStep { write: false, acknowledge: false, state },
        WriterState::Idle => match event {
            WriterEvent::Dirty => WriterStep {
                write: false,
                acknowledge: false,
                state: WriterState::Debouncing,
            },
            WriterEvent::Flush => WriterStep { write: true, acknowledge: true, state },
            WriterEvent::Stop => WriterStep {
                write: true,
                acknowledge: false,
                state: WriterState::Stopped,
            },
            WriterEvent::Timeout => WriterStep { write: false, acknowledge: false, state },
        },
        WriterState::Debouncing => match event {
            WriterEvent::Dirty => WriterStep { write: false, acknowledge: false, state },
            WriterEvent::Flush => WriterStep { write: true, acknowledge: true, state },
            WriterEvent::Stop => WriterStep {
                write: true,
                acknowledge: false,
                state: WriterState::Stopped,
            },
            WriterEvent::Timeout => WriterStep {
                write: true,
                acknowledge: false,
                state: WriterState::Idle,
            },
        },
    }
}

/// The state that a run of events leads to, from an idle writer.
pub open spec fn state_after(events: Seq<WriterEvent>) -> WriterState
    decreases events.len(),
{
    if events.len() == 0 {
        WriterState::Idle
    } else {
        step_at(state_after(events.drop_last()), events.last()).state
    }
}

/// The step that the writer takes at the event at place `i`.
pub open spec fn step_of(events: Seq<WriterEvent>, i: int) -> WriterStep {
    step_at(state_after(events.take(i)), events[i])
}

/// Some event between `i` and `n` makes the writer write.
pub open spec fn writes_between(events: Seq<WriterEvent>, i: int, n: int) -> bool {
    exists|j: int| i < j < n && (#[trigger] step_of(events, j)).write
}

/// No change is lost: while the writer runs, a change is written after it came, or the writer is
/// still waiting out the debounce; and the writer does not end before it is written.
pub proof fn law_changes_are_written(events: Seq<WriterEvent>, i: int)
    requires
        0 <= i < events.len(),
        events[i] == WriterEvent::Dirty,
        state_after(events.take(i)) != WriterState::Stopped,
        state_after(events) != WriterState::Debouncing,
    ensures
        writes_between(events, i, events.len() as int),
{
    lemma_pending(events, i, events.len() as int);
    assert(events.take(events.len() as int) =~= events);
}

/// After a change at place `i`, and up to place `n`, the writer has written or is debouncing.
proof fn lemma_pending(events: Seq<WriterEvent>, i: int, n: int)
    requires
        0 <= i < n <= events.len(),
        events[i] == WriterEvent::Dirty,
        state_after(events.take(i)) != WriterState::Stopped,
    ensures
        writes_between(events, i, n) || state_after(events.take(n)) == WriterState::Debouncing,
    decreases n,
{
    assert(events.take(n).drop_last() =~= events.take(n - 1));
    assert(events.take(n).last() == events[n - 1]);
    if n - 1 > i {
        lemma_pending(events, i, n - 1);
        if writes_between(events, i, n - 1) {
            let j = choose|j: int| i < j < n - 1 && (#[trigger] step_of(events, j)).write;
            assert(step_of(events, j).write);
        } else {
            assert(step_of(events, n - 1) == step_at(WriterState::Debouncing, events[n - 1]));
        }
    }
}

/// Whoever waits for a flush is told after a write, and every flush is answered while the writer
/// runs.
pub proof fn law_flush_writes_before_it_answers(state: WriterState, event: WriterEvent)
    ensures
        step_at(state, event).acknowledge ==> step_at(state, event).write,
        state != WriterState::Stopped ==> step_at(state, event).acknowledge == (event
            == WriterEvent::Flush),
{
}

/// The writer ends when it is told to, and writes first.
pub proof fn law_stop_writes(state: WriterState, event: WriterEvent)
    requires
        state != WriterState::Stopped,
    ensures
        step_at(state, event).state == WriterState::Stopped <==> event == WriterEvent::Stop,
        event == WriterEvent::Stop ==> step_at(state, event).write,
{
}

/// A run of changes causes no write: it is put off until the store is left alone.
pub proof fn law_changes_put_off_the_write(state: WriterState, event: WriterEvent)
    requires
        event == WriterEvent::Dirty,
    ensures
        !step_at(state, event).write,
        state != WriterState::Stopped ==> step_at(state, event).state == WriterState::Debouncing,
{
}

/// The writer was told to end before place `n`.
pub open spec fn told_to_end(events: Seq<WriterEvent>, n: int) -> bool {
    exists|i: int| 0 <= i < n && #[trigger] events[i] == WriterEvent::Stop
}

/// The debounce has not passed between place `i` and place `n`.
pub open spec fn debounce_runs(events: Seq<WriterEvent>, i: int, n: int) -> bool {
    forall|j: int| i < j < n ==> #[trigger] events[j] != WriterEvent::Timeout
}

/// A change came before place `n`, and the debounce has not passed since.
pub open spec fn change_is_pending(events: Seq<WriterEvent>, n: int) -> bool {
    exists|i: int|
        0 <= i < n && events[i] == WriterEvent::Dirty && #[trigger] debounce_runs(events, i, n)
}

proof fn lemma_told_to_end(events: Seq<WriterEvent>, n: int)
    requires
        0 < n <= events.len(),
    ensures
        told_to_end(events, n) <==> told_to_end(events, n - 1) || events[n - 1]
            == WriterEvent::Stop,
{
    if told_to_end(events, n) && events[n - 1] != WriterEvent::Stop {
        let i = choose|i: int| 0 <= i < n && #[trigger] events[i] == WriterEvent::Stop;
        assert(0 <= i < n - 1 && events[i] == WriterEvent::Stop);
    }
}

proof fn lemma_change_is_pending(events: Seq<WriterEvent>, n: int)
    requires
        0 < n <= events.len(),
    ensures
        change_is_pending(events, n) <==> events[n - 1] == WriterEvent::Dirty || (
        change_is_pending(events, n - 1) && events[n - 1] != WriterEvent::Timeout),
{
    if events[n - 1] == WriterEvent::Dirty {
        assert(debounce_runs(events, n - 1, n));
    } else if change_is_pending(events, n) {
        let i = choose|i: int|
            0 <= i < n && events[i] == WriterEvent::Dirty && #[trigger] debounce_runs(events, i, n);
        assert(debounce_runs(events, i, n - 1));
    } else if change_is_pending(events, n - 1) && events[n - 1] != WriterEvent::Timeout {
        let i = choose|i: int|
            0 <= i < n - 1 && events[i] == WriterEvent::Dirty && #[trigger] debounce_runs(
                events,
                i,
                n - 1,
            );
        assert(debounce_runs(events, i, n));
    }
}

/// What the writer is doing is told by the events: it has ended if it was told to, and otherwise
/// waits out the debounce where a change is pending, which a flush does not alter.
pub proof fn law_state_is_told_by_the_events(events: Seq<WriterEvent>, n: int)
    requires
        0 <= n <= events.len(),
    ensures
        state_after(events.take(n)) == WriterState::Stopped <==> told_to_end(events, n),
        state_after(events.take(n)) == WriterState::Debouncing <==> !told_to_end(events, n)
            && change_is_pending(events, n),
    decreases n,
{
    if n > 0 {
        law_state_is_told_by_the_events(events, n - 1);
        lemma_told_to_end(events, n);
        lemma_change_is_pending(events, n);
        assert(events.take(n).drop_last() =~= events.take(n - 1));
        assert(events.take(n).last() == events[n - 1]);
    }
}

/// The writer writes at a flush, when it is told to end, and when the debounce has passed after a
/// change, and at no other time; it answers flushes and nothing else. Once it has been told to end
/// it does neither.
pub proof fn law_when_the_writer_writes(events: Seq<WriterEvent>, i: int)
    requires
        0 <= i < events.len(),
    ensures
        step_of(events, i).write <==> !told_to_end(events, i) && (events[i] == WriterEvent::Flush
            || events[i] == WriterEvent::Stop || (events[i] == WriterEvent::Timeout
            && change_is_pending(events, i))),
        step_of(events, i).acknowledge <==> !told_to_end(events, i) && events[i]
            == WriterEvent::Flush,
{
    law_state_is_told_by_the_events(events, i);
}

/// A flush leaves the writer to what it was doing.
pub proof fn law_flush_does_not_end_the_debounce(state: WriterState)
    ensures
        step_at(state, WriterEvent::Flush).state == state,
{
}

}
