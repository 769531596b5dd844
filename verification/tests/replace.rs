use annotation_store::replace::ReplaceStep;
use annotation_store::CheckpointError;

const PATH: &str = "/tmp/a.json";
const TMP: &str = "/tmp/a.json.tmp";

/// Performs the steps, of which that at place `failing` fails.
fn run(failing: usize) -> (Vec<String>, Result<(), CheckpointError>) {
    let mut step = ReplaceStep::Serialise;
    let mut names = vec![];
    let mut i = 0usize;
    loop {
        let name = match step {
            ReplaceStep::Serialise => "serialise",
            ReplaceStep::Create => "create",
            ReplaceStep::Write => "write",
            ReplaceStep::Sync => "sync",
            ReplaceStep::Rename => "rename",
            ReplaceStep::SyncDirectory => "sync directory",
            ReplaceStep::Discard { .. } => "discard",
            ReplaceStep::Finished { result } => return (names, result),
        };
        names.push(name.to_string());
        let outcome = if i == failing {
            Err("cause".to_string())
        } else {
            Ok(())
        };
        step = step.next(outcome, PATH, TMP);
        i += 1;
    }
}

#[test]
fn replacement_that_succeeds() {
    let all = ["serialise", "create", "write", "sync", "rename", "sync directory"];
    let (names, result) = run(usize::MAX);
    assert_eq!(names, all);
    assert!(result.is_ok());
    let (names, result) = run(5);
    assert_eq!(names, all);
    assert!(result.is_ok(), "a directory that cannot be synced is no failure");
}

#[test]
fn replacement_that_fails() {
    for (failing, steps, reason) in [
        (0usize, vec!["serialise"], "cause"),
        (
            1,
            vec!["serialise", "create", "discard"],
            "failed to create /tmp/a.json.tmp: cause",
        ),
        (
            2,
            vec!["serialise", "create", "write", "discard"],
            "failed to write /tmp/a.json.tmp: cause",
        ),
        (
            3,
            vec!["serialise", "create", "write", "sync", "discard"],
            "failed to sync /tmp/a.json.tmp: cause",
        ),
        (
            4,
            vec!["serialise", "create", "write", "sync", "rename", "discard"],
            "failed to replace /tmp/a.json with /tmp/a.json.tmp: cause",
        ),
    ] {
        let (names, result) = run(failing);
        assert_eq!(names, steps);
        assert_eq!(
            result.unwrap_err().to_string(),
            format!("invalid annotation checkpoint: {reason}")
        );
    }
}

#[test]
fn finished_replacement_stays_finished() {
    let step = ReplaceStep::Finished {
        result: Err(CheckpointError::new("reason".into())),
    };
    match step.next(Ok(()), PATH, TMP) {
        ReplaceStep::Finished { result: Err(error) } => {
            assert_eq!(error.to_string(), "invalid annotation checkpoint: reason");
        }
        step => panic!("{step:?}"),
    }
}
