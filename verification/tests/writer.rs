use annotation_store::writer::WriterEvent::{Dirty, Flush, Stop, Timeout};
use annotation_store::writer::{writer_step, WriterEvent, WriterState};

fn run(events: &[WriterEvent]) -> (WriterState, Vec<usize>, Vec<usize>) {
    let mut state = WriterState::Idle;
    let mut writes = vec![];
    let mut answers = vec![];
    for (i, event) in events.iter().enumerate() {
        let step = writer_step(state, *event);
        if step.write {
            writes.push(i);
        }
        if step.acknowledge {
            answers.push(i);
        }
        state = step.state;
    }
    (state, writes, answers)
}

#[test]
fn changes_are_written_once_the_store_is_left_alone() {
    assert_eq!(run(&[Dirty, Dirty]), (WriterState::Debouncing, vec![], vec![]));
    assert_eq!(run(&[Dirty, Dirty, Timeout]), (WriterState::Idle, vec![2], vec![]));
    assert_eq!(run(&[Timeout]), (WriterState::Idle, vec![], vec![]));
}

#[test]
fn flush_writes_and_answers() {
    assert_eq!(run(&[Flush]), (WriterState::Idle, vec![0], vec![0]));
    assert_eq!(
        run(&[Dirty, Flush, Timeout]),
        (WriterState::Idle, vec![1, 2], vec![1])
    );
    assert_eq!(run(&[Dirty, Flush]).0, WriterState::Debouncing);
}

#[test]
fn end_writes_what_is_left() {
    assert_eq!(run(&[Stop]), (WriterState::Stopped, vec![0], vec![]));
    assert_eq!(
        run(&[Dirty, Stop, Dirty, Flush, Timeout, Stop]),
        (WriterState::Stopped, vec![1], vec![])
    );
}
