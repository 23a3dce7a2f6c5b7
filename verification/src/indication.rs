//! Progress indication is an external collaborator: the library only carries
//! a plain description of the progress display a caller wants (kind, length,
//! messages, step counter). Rendering it is left to the caller.

use vstd::prelude::*;

verus! {

/// Which kind of progress display the caller asked for.
pub enum ProgressType {
    /// A bar with a known length.
    Progress,
    /// A spinner with no length.
    Spinner,
    /// No display at all.
    Empty,
}

/// A plain description of a progress display: the library's long-running
/// constructors accept one so that callers can render the six phases of a
/// derive run; the library itself never draws anything.
pub struct ProgressBuilder {
    pub bar_type: ProgressType,
    pub len: Option<u64>,
    pub message: Option<String>,
    pub finish_message: Option<&'static str>,
    pub steps: Option<u8>,
    pub step: Option<u8>,
}

impl ProgressBuilder {
    /// A description that asks for no display at all.
    pub fn empty() -> (result: Self)
        ensures
            result.bar_type is Empty,
            result.len is None,
            result.message is None,
            result.finish_message is None,
            result.steps is None,
            result.step is None,
    {
        Self {
            bar_type: ProgressType::Empty,
            len: None,
            message: None,
            finish_message: None,
            steps: None,
            step: None,
        }
    }

    /// A description that asks for a progress bar.
    pub fn new() -> (result: Self)
        ensures
            result.bar_type is Progress,
            result.len is None,
            result.message is None,
            result.finish_message is None,
            result.steps is None,
            result.step is None,
    {
        Self {
            bar_type: ProgressType::Progress,
            len: None,
            message: None,
            finish_message: None,
            steps: None,
            step: None,
        }
    }

    /// A description that asks for a spinner.
    pub fn spinner() -> (result: Self)
        ensures
            result.bar_type is Spinner,
            result.len is None,
            result.message is None,
            result.finish_message is None,
            result.steps is None,
            result.step is None,
    {
        Self {
            bar_type: ProgressType::Spinner,
            len: None,
            message: None,
            finish_message: None,
            steps: None,
            step: None,
        }
    }

    /// Sets the length the bar counts against.
    pub fn with_len(self, len: u64) -> (result: Self)
        ensures
            result == (Self { len: Some(len), ..self }),
    {
        Self { len: Some(len), ..self }
    }

    /// Sets the message shown while the bar runs.
    pub fn with_message(self, message: &str) -> (result: Self)
        ensures
            result.message is Some,
            result.message->0@ == message@,
            result.bar_type == self.bar_type,
            result.len == self.len,
            result.finish_message == self.finish_message,
            result.steps == self.steps,
            result.step == self.step,
    {
        Self { message: Some(message.to_owned()), ..self }
    }

    /// Sets the message shown when the bar finishes.
    pub fn with_finish_message(self, message: &'static str) -> (result: Self)
        ensures
            result == (Self { finish_message: Some(message), ..self }),
    {
        Self { finish_message: Some(message), ..self }
    }

    /// Sets the step counter (this phase's number and the number of phases).
    pub fn with_steps(self, step: u8, steps: u8) -> (result: Self)
        ensures
            result == (Self { step: Some(step), steps: Some(steps), ..self }),
    {
        Self { step: Some(step), steps: Some(steps), ..self }
    }
}

} // verus!
