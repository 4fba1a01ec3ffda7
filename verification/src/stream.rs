//! How an export reaches a client: it is written to a staging file in full, and
//! copied to the client only then.

use vstd::prelude::*;
use vstd::string::*;

verus! {

/// What is exported.
#[derive(Clone, Copy, Debug, PartialEq, Eq, Structural)]
pub enum Format {
    Json,
    Csv,
}

/// What is to be done next.
#[derive(Clone, Copy, Debug, PartialEq, Eq, Structural)]
pub enum StreamStep {
    /// Create the staging file.
    CreateStaging,
    /// Write the export to the staging file.
    Serialize,
    /// Go back to the start of the staging file.
    Rewind,
    /// Copy the staging file to the client.
    Copy,
    /// Nothing.
    Done,
}

/// The step with which an export begins. The staging file of a CSV export is
/// there already.
pub open spec fn first_step_of(format: Format) -> StreamStep {
    match format {
        Format::Json => StreamStep::CreateStaging,
        Format::Csv => StreamStep::Serialize,
    }
}

/// The step that follows one that succeeded.
pub open spec fn step_after(step: StreamStep) -> StreamStep {
    match step {
        StreamStep::CreateStaging => StreamStep::Serialize,
        StreamStep::Serialize => StreamStep::Rewind,
        StreamStep::Rewind => StreamStep::Copy,
        StreamStep::Copy => StreamStep::Done,
        StreamStep::Done => StreamStep::Done,
    }
}

/// What is logged of a step that failed, before the reason.
pub open spec fn failure_text(format: Format, step: StreamStep) -> Seq<char> {
    match (format, step) {
        (Format::Json, StreamStep::CreateStaging) => "Failed to create export staging file: "@,
        (Format::Json, StreamStep::Serialize) => "Export stream failed: "@,
        (Format::Json, StreamStep::Rewind) => "Failed to rewind export staging file: "@,
        (Format::Json, _) => "Export stream copy failed: "@,
        (Format::Csv, StreamStep::CreateStaging) => "Failed to create CSV staging file: "@,
        (Format::Csv, StreamStep::Serialize) => "CSV export serialization failed: "@,
        (Format::Csv, StreamStep::Rewind) => "CSV staging rewind failed: "@,
        (Format::Csv, _) => "CSV export copy failed: "@,
    }
}

/// The step that comes after some steps, of which each succeeded or did not.
pub open spec fn step_of_run(format: Format, outcomes: Seq<bool>) -> StreamStep
    decreases outcomes.len(),
{
    if outcomes.len() == 0 {
        first_step_of(format)
    } else if outcomes.last() {
        step_after(step_of_run(format, outcomes.drop_last()))
    } else {
        StreamStep::Done
    }
}

/// The step with which an export begins.
pub fn first_step(format: Format) -> (step: StreamStep)
    ensures
        step == first_step_of(format),
{
    match format {
        Format::Json => StreamStep::CreateStaging,
        Format::Csv => StreamStep::Serialize,
    }
}

/// The step that comes after one, and what is to be logged. A step that failed
/// ends the export.
pub fn next_step(format: Format, step: StreamStep, outcome: Result<(), String>) -> (r: (
    StreamStep,
    Option<String>,
))
    ensures
        match outcome {
            Ok(_) => r.0 == step_after(step) && r.1 is None,
            Err(reason) => {
                &&& r.0 is Done
                &&& r.1 matches Some(log) && log@ == failure_text(format, step) + reason@
            },
        },
{
    match outcome {
        Ok(_) => {
            let next = match step {
                StreamStep::CreateStaging => StreamStep::Serialize,
                StreamStep::Serialize => StreamStep::Rewind,
                StreamStep::Rewind => StreamStep::Copy,
                StreamStep::Copy => StreamStep::Done,
                StreamStep::Done => StreamStep::Done,
            };
            (next, None)
        },
        Err(reason) => {
            let text: &str = match (format, step) {
                (
                    Format::Json,
                    StreamStep::CreateStaging,
                ) => "Failed to create export staging file: ",
                (Format::Json, StreamStep::Serialize) => "Export stream failed: ",
                (Format::Json, StreamStep::Rewind) => "Failed to rewind export staging file: ",
                (Format::Json, _) => "Export stream copy failed: ",
                (Format::Csv, StreamStep::CreateStaging) => "Failed to create CSV staging file: ",
                (Format::Csv, StreamStep::Serialize) => "CSV export serialization failed: ",
                (Format::Csv, StreamStep::Rewind) => "CSV staging rewind failed: ",
                (Format::Csv, _) => "CSV export copy failed: ",
            };
            let mut log = text.to_owned();
            log.append(reason.as_str());
            (StreamStep::Done, Some(log))
        },
    }
}

/// Nothing is copied to the client unless every step before succeeded, so that
/// what it gets is a whole document.
pub proof fn copy_comes_after_success(format: Format, outcomes: Seq<bool>)
    requires
        step_of_run(format, outcomes) is Copy,
    ensures
        forall|i: int| 0 <= i < outcomes.len() ==> #[trigger] outcomes[i],
        outcomes.len() == match format {
            Format::Json => 3nat,
            Format::Csv => 2nat,
        },
{
    reveal_with_fuel(step_of_run, 5);
    let n = outcomes.len() as int;
    if n > 0 {
        let a = outcomes.drop_last();
        if n > 1 {
            let b = a.drop_last();
            assert(a.last() == outcomes[n - 2]);
            if n > 2 {
                let c = b.drop_last();
                assert(b.last() == outcomes[n - 3]);
                if n > 3 {
                    no_step_comes_back(format, c);
                }
            }
        }
    }
}

/// No step but the last follows itself or a later one: a run that has begun is
/// never back at its beginning.
proof fn no_step_comes_back(format: Format, outcomes: Seq<bool>)
    requires
        outcomes.len() > 0,
    ensures
        !(step_of_run(format, outcomes) is CreateStaging),
        format is Csv ==> !(step_of_run(format, outcomes) is Serialize),
    decreases outcomes.len(),
{
    if outcomes.len() > 1 {
        no_step_comes_back(format, outcomes.drop_last());
    } else {
        assert(step_of_run(format, outcomes.drop_last()) == first_step_of(format));
    }
}

/// An export in which a step failed does nothing more.
pub proof fn failure_ends_run(format: Format, outcomes: Seq<bool>, i: int)
    requires
        0 <= i < outcomes.len(),
        !outcomes[i],
    ensures
        step_of_run(format, outcomes) is Done,
    decreases outcomes.len(),
{
    if i < outcomes.len() - 1 {
        failure_ends_run(format, outcomes.drop_last(), i);
    }
}

} // verus!
