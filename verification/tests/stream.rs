use aw_export::stream::{first_step, next_step, Format, StreamStep};

/// The steps that are taken when the steps of an export come out as given.
fn run(format: Format, outcomes: &[Result<(), &str>]) -> (Vec<StreamStep>, Option<String>) {
    let mut step = first_step(format);
    let mut steps = vec![step];
    for outcome in outcomes {
        let outcome = outcome.map_err(|reason| reason.to_string());
        let failed = outcome.is_err();
        let (next, log) = next_step(format, step, outcome);
        assert_eq!(log.is_some(), failed);
        step = next;
        steps.push(step);
        if failed {
            return (steps, log);
        }
    }
    (steps, None)
}

#[test]
fn an_export_is_staged_before_it_is_copied() {
    let (steps, log) = run(Format::Json, &[Ok(()); 4]);
    assert_eq!(
        steps,
        vec![
            StreamStep::CreateStaging,
            StreamStep::Serialize,
            StreamStep::Rewind,
            StreamStep::Copy,
            StreamStep::Done,
        ]
    );
    assert_eq!(log, None);
    let (steps, log) = run(Format::Csv, &[Ok(()); 3]);
    assert_eq!(
        steps,
        vec![StreamStep::Serialize, StreamStep::Rewind, StreamStep::Copy, StreamStep::Done]
    );
    assert_eq!(log, None);
}

#[test]
fn a_failure_ends_an_export_and_is_logged() {
    let json = [
        "Failed to create export staging file: disk full",
        "Export stream failed: disk full",
        "Failed to rewind export staging file: disk full",
        "Export stream copy failed: disk full",
    ];
    let csv = [
        "CSV export serialization failed: disk full",
        "CSV staging rewind failed: disk full",
        "CSV export copy failed: disk full",
    ];
    for (format, messages) in [(Format::Json, &json[..]), (Format::Csv, &csv[..])] {
        for (n, message) in messages.iter().enumerate() {
            let mut outcomes = vec![Ok(()); n];
            outcomes.push(Err("disk full"));
            let (steps, log) = run(format, &outcomes);
            assert_eq!(log.as_deref(), Some(*message));
            assert_eq!(steps.last(), Some(&StreamStep::Done));
            assert!(!steps[..n].contains(&StreamStep::Copy));
        }
    }
}

#[test]
fn nothing_follows_the_end() {
    assert_eq!(next_step(Format::Json, StreamStep::Done, Ok(())), (StreamStep::Done, None));
}
