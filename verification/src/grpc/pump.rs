//! Moving bytes between a call and the git that serves it, one event at a time.
//!
//! Two pumps run side by side. One takes what git prints and sends it to the
//! caller, the other takes what the caller sends and writes it to git. Neither
//! does anything itself: given where it is and what just happened, it says what to
//! do next.

use vstd::prelude::*;

use super::convert;
use super::messages::{Code, Status, StatusView};
use super::pack::exit_failure;

verus! {

/// Where the pump of git's output is.
#[derive(Debug, Clone, Copy, PartialEq, Eq, Structural)]
pub enum OutputState {
    /// Git's output is being read.
    Reading,
    /// Something is being sent to the caller.
    Sending,
    /// Git's output has ended, and git is being waited for.
    Waiting,
    /// Nothing is left to do.
    Ended,
}

/// What happened to the pump of git's output.
#[derive(Debug, Clone)]
pub enum OutputEvent {
    /// Git printed something; nothing where its output has ended.
    Read(Vec<u8>),
    /// Git's output could not be read.
    ReadFailed(String),
    /// The caller took what was sent.
    Sent,
    /// The caller is gone.
    Dropped,
    /// Git ended: whether well, how, and what it wrote of it.
    Exited { success: bool, status: String, stderr: String },
    /// Git could not be waited for.
    WaitFailed(String),
}

/// What the pump of git's output does next.
#[derive(Debug, Clone)]
pub enum OutputAction {
    /// Read git's output.
    Read,
    /// Send this to the caller.
    Send(Vec<u8>),
    /// Wait for git to end.
    Wait,
    /// Tell the caller of a failure, and stop.
    Fail(Status),
    /// Stop.
    Stop,
}

/// The value of an [`OutputEvent`].
pub enum OutputEventView {
    Read(Seq<u8>),
    ReadFailed(Seq<char>),
    Sent,
    Dropped,
    Exited { success: bool, status: Seq<char>, stderr: Seq<char> },
    WaitFailed(Seq<char>),
}

/// The value of an [`OutputAction`].
pub enum OutputActionView {
    Read,
    Send(Seq<u8>),
    Wait,
    Fail(StatusView),
    Stop,
}

impl DeepView for OutputEvent {
    type V = OutputEventView;

    open spec fn deep_view(&self) -> OutputEventView {
        match self {
            OutputEvent::Read(data) => OutputEventView::Read(data@),
            OutputEvent::ReadFailed(error) => OutputEventView::ReadFailed(error@),
            OutputEvent::Sent => OutputEventView::Sent,
            OutputEvent::Dropped => OutputEventView::Dropped,
            OutputEvent::Exited { success, status, stderr } => OutputEventView::Exited {
                success: *success,
                status: status@,
                stderr: stderr@,
            },
            OutputEvent::WaitFailed(error) => OutputEventView::WaitFailed(error@),
        }
    }
}

impl DeepView for OutputAction {
    type V = OutputActionView;

    open spec fn deep_view(&self) -> OutputActionView {
        match self {
            OutputAction::Read => OutputActionView::Read,
            OutputAction::Send(data) => OutputActionView::Send(data@),
            OutputAction::Wait => OutputActionView::Wait,
            OutputAction::Fail(status) => OutputActionView::Fail(status.deep_view()),
            OutputAction::Stop => OutputActionView::Stop,
        }
    }
}

/// Where the pump of git's output goes from where it is, and what it does. An
/// event that does not belong where it is ends it.
pub open spec fn output_step(
    service: Seq<char>,
    state: OutputState,
    event: OutputEventView,
) -> (OutputState, OutputActionView) {
    match (state, event) {
        (OutputState::Reading, OutputEventView::Read(data)) => if data.len() == 0 {
            (OutputState::Waiting, OutputActionView::Wait)
        } else {
            (OutputState::Sending, OutputActionView::Send(data))
        },
        (OutputState::Reading, OutputEventView::ReadFailed(error)) => (
            OutputState::Ended,
            OutputActionView::Fail(convert::status(Code::Internal, error)),
        ),
        (OutputState::Sending, OutputEventView::Sent) => (
            OutputState::Reading,
            OutputActionView::Read,
        ),
        (OutputState::Waiting, OutputEventView::Exited { success, status, stderr }) => (
            OutputState::Ended,
            if success {
                OutputActionView::Stop
            } else {
                OutputActionView::Fail(
                    convert::status(
                        Code::Internal,
                        "git "@ + service + " exited with "@ + status + ": "@ + stderr,
                    ),
                )
            },
        ),
        (OutputState::Waiting, OutputEventView::WaitFailed(error)) => (
            OutputState::Ended,
            OutputActionView::Fail(convert::status(Code::Internal, error)),
        ),
        _ => (OutputState::Ended, OutputActionView::Stop),
    }
}

/// Where the pump of git's output goes, and what it does, [`output_step`].
pub fn next_output(service: &str, state: OutputState, event: OutputEvent) -> (r: (
    OutputState,
    OutputAction,
))
    ensures
        (r.0, r.1.deep_view()) == output_step(service@, state, event.deep_view()),
{
    match (state, event) {
        (OutputState::Reading, OutputEvent::Read(data)) => {
            if data.len() == 0 {
                (OutputState::Waiting, OutputAction::Wait)
            } else {
                (OutputState::Sending, OutputAction::Send(data))
            }
        },
        (OutputState::Reading, OutputEvent::ReadFailed(error)) => (
            OutputState::Ended,
            OutputAction::Fail(Status { code: Code::Internal, message: error }),
        ),
        (OutputState::Sending, OutputEvent::Sent) => (OutputState::Reading, OutputAction::Read),
        (OutputState::Waiting, OutputEvent::Exited { success, status, stderr }) => {
            match exit_failure(service, success, &status, &stderr) {
                Some(failure) => (OutputState::Ended, OutputAction::Fail(failure)),
                None => (OutputState::Ended, OutputAction::Stop),
            }
        },
        (OutputState::Waiting, OutputEvent::WaitFailed(error)) => (
            OutputState::Ended,
            OutputAction::Fail(Status { code: Code::Internal, message: error }),
        ),
        _ => (OutputState::Ended, OutputAction::Stop),
    }
}

/// What happened to the pump of git's input.
#[derive(Debug, Clone)]
pub enum InputEvent {
    /// The caller sent something; nothing where it has no more to send.
    Received(Option<Vec<u8>>),
    /// Git took what was written.
    Written,
    /// Git takes no more.
    WriteFailed,
}

/// What the pump of git's input does next.
#[derive(Debug, Clone)]
pub enum InputAction {
    /// Wait for the caller to send something.
    Receive,
    /// Write this to git.
    Write(Vec<u8>),
    /// Close git's input.
    Close,
}

/// The value of an [`InputEvent`].
pub enum InputEventView {
    Received(Option<Seq<u8>>),
    Written,
    WriteFailed,
}

/// The value of an [`InputAction`].
pub enum InputActionView {
    Receive,
    Write(Seq<u8>),
    Close,
}

impl DeepView for InputEvent {
    type V = InputEventView;

    open spec fn deep_view(&self) -> InputEventView {
        match self {
            InputEvent::Received(Some(data)) => InputEventView::Received(Some(data@)),
            InputEvent::Received(None) => InputEventView::Received(None),
            InputEvent::Written => InputEventView::Written,
            InputEvent::WriteFailed => InputEventView::WriteFailed,
        }
    }
}

impl DeepView for InputAction {
    type V = InputActionView;

    open spec fn deep_view(&self) -> InputActionView {
        match self {
            InputAction::Receive => InputActionView::Receive,
            InputAction::Write(data) => InputActionView::Write(data@),
            InputAction::Close => InputActionView::Close,
        }
    }
}

/// What the pump of git's input does: it writes all that comes, and closes git's
/// input once nothing more comes or git takes no more.
pub open spec fn input_step(event: InputEventView) -> InputActionView {
    match event {
        InputEventView::Received(Some(data)) => InputActionView::Write(data),
        InputEventView::Received(None) => InputActionView::Close,
        InputEventView::Written => InputActionView::Receive,
        InputEventView::WriteFailed => InputActionView::Close,
    }
}

/// What the pump of git's input does, [`input_step`].
pub fn next_input(event: InputEvent) -> (r: InputAction)
    ensures
        r.deep_view() == input_step(event.deep_view()),
{
    match event {
        InputEvent::Received(Some(data)) => InputAction::Write(data),
        InputEvent::Received(None) => InputAction::Close,
        InputEvent::Written => InputAction::Receive,
        InputEvent::WriteFailed => InputAction::Close,
    }
}

} // verus!
