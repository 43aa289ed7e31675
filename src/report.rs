use vstd::prelude::*;
use vstd::string::*;

verus! {

/// The stream a report line goes to.
#[derive(PartialEq, Eq, Structural, Clone, Copy, Debug)]
pub enum Stream {
    Output,
    Error,
}

/// One line for the user, without its line break.
pub struct OutputLine {
    pub stream: Stream,
    pub text: String,
}

/// What one run of the update command came to.
pub enum UpdateOutcome {
    Success,
    /// The command failed; the text is what it wrote to its error stream.
    Failure(String),
}

/// The line announcing that `path` is being updated.
pub open spec fn updating_text(path: Seq<char>) -> Seq<char> {
    "Updating: "@ + path
}

/// The line that reports how the update of `path` ended.
pub open spec fn outcome_text(path: Seq<char>, outcome: UpdateOutcome) -> Seq<char> {
    match outcome {
        UpdateOutcome::Success => "Success: "@ + path,
        UpdateOutcome::Failure(diag) => "Error: "@ + path + " "@ + diag@,
    }
}

/// Successes go to standard output, failures to the error stream.
pub open spec fn outcome_stream(outcome: UpdateOutcome) -> Stream {
    match outcome {
        UpdateOutcome::Success => Stream::Output,
        UpdateOutcome::Failure(_) => Stream::Error,
    }
}

/// `Updating: <path>`, on standard output.
pub fn updating_line(path: &str) -> (r: OutputLine)
    ensures
        r.stream == Stream::Output,
        r.text@ == updating_text(path@),
{
    let mut text = String::from_str("Updating: ");
    text.append(path);
    OutputLine { stream: Stream::Output, text }
}

/// `Success: <path>` on standard output, or `Error: <path> <diagnostic>` on
/// the error stream.
pub fn outcome_line(path: &str, outcome: &UpdateOutcome) -> (r: OutputLine)
    ensures
        r.stream == outcome_stream(*outcome),
        r.text@ == outcome_text(path@, *outcome),
{
    match outcome {
        UpdateOutcome::Success => {
            let mut text = String::from_str("Success: ");
            text.append(path);
            OutputLine { stream: Stream::Output, text }
        },
        UpdateOutcome::Failure(diag) => {
            let mut text = String::from_str("Error: ");
            text.append(path);
            text.append(" ");
            text.append(diag.as_str());
            OutputLine { stream: Stream::Error, text }
        },
    }
}

} // verus!
