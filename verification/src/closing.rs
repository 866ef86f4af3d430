//! The end of an event stream that is sent as server-sent events.
use vstd::prelude::*;

verus! {

/// What is sent when a response has been streamed, or could not be.
#[derive(Debug)]
pub enum ClosingStep {
    /// An error event with the given message and type.
    Error { message: String, error_type: String },
    /// The record that ends the stream.
    Done,
}

/// What a [`ClosingStep`] says.
pub enum ClosingStepView {
    Error { message: Seq<char>, error_type: Seq<char> },
    Done,
}

impl DeepView for ClosingStep {
    type V = ClosingStepView;

    open spec fn deep_view(&self) -> ClosingStepView {
        match self {
            ClosingStep::Error { message, error_type } => ClosingStepView::Error {
                message: message@,
                error_type: error_type@,
            },
            ClosingStep::Done => ClosingStepView::Done,
        }
    }
}

/// What closes a stream: an error event where it failed, and in any case the end.
pub open spec fn closing(failure: Option<Seq<char>>, error_type: Seq<char>) -> Seq<
    ClosingStepView,
> {
    match failure {
        Some(message) => seq![
            ClosingStepView::Error { message, error_type },
            ClosingStepView::Done,
        ],
        None => seq![ClosingStepView::Done],
    }
}

/// What closes a stream, given why it failed, if it did.
fn closing_steps(failure: Option<String>, error_type: &str) -> (res: Vec<ClosingStep>)
    ensures
        res.deep_view() == closing(failure.deep_view(), error_type@),
{
    let ghost reason = failure.deep_view();
    let mut steps: Vec<ClosingStep> = Vec::new();
    match failure {
        Some(message) => {
            steps.push(ClosingStep::Error { message, error_type: error_type.to_owned() });
        },
        None => {},
    }
    steps.push(ClosingStep::Done);
    proof {
        assert(steps.deep_view() =~= closing(reason, error_type@));
    }
    steps
}

/// What closes a stream without hosted tools.
pub fn close_stream(failure: Option<String>) -> (res: Vec<ClosingStep>)
    ensures
        res.deep_view() == closing(failure.deep_view(), "stream_error"@),
{
    closing_steps(failure, "stream_error")
}

/// What closes the stream of a tool loop.
pub fn close_tool_loop(failure: Option<String>) -> (res: Vec<ClosingStep>)
    ensures
        res.deep_view() == closing(failure.deep_view(), "tool_loop_error"@),
{
    closing_steps(failure, "tool_loop_error")
}

/// The end is sent once, as the last, whether a stream failed or not. Before it comes one error
/// where the stream failed, with the message of the failure and the given type, and nothing else.
pub proof fn law_the_end_is_sent_last(failure: Option<Seq<char>>, error_type: Seq<char>)
    ensures
        ({
            let steps = closing(failure, error_type);
            &&& steps.len() > 0
            &&& steps.last() is Done
            &&& forall|i: int| 0 <= i < steps.len() - 1 ==> #[trigger] steps[i] is Error
            &&& failure is None ==> steps.len() == 1
            &&& failure matches Some(reason) ==> steps.len() == 2 && steps[0] == (
            ClosingStepView::Error { message: reason, error_type })
        }),
{
}

} // verus!
