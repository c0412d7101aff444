//! What holds of every exchange between a call and git.

use vstd::prelude::*;

use crate::grpc::convert;
use crate::grpc::messages::{Code, StatusView};
use crate::grpc::pump::{
    self, InputActionView, InputEventView, OutputActionView, OutputEventView, OutputState,
};

verus! {

/// What the caller gets to see of an action.
pub open spec fn shown(action: OutputActionView) -> Seq<Result<Seq<u8>, StatusView>> {
    match action {
        OutputActionView::Send(data) => seq![Ok(data)],
        OutputActionView::Fail(status) => seq![Err(status)],
        _ => Seq::empty(),
    }
}

/// What the caller gets to see while events happen, from a state on.
pub open spec fn seen(service: Seq<char>, state: OutputState, events: Seq<OutputEventView>) -> Seq<
    Result<Seq<u8>, StatusView>,
>
    decreases events.len(),
{
    if events.len() == 0 {
        Seq::empty()
    } else {
        let next = pump::output_step(service, state, events[0]);
        shown(next.1) + seen(service, next.0, events.skip(1))
    }
}

/// What happens while git prints pieces and the caller takes each of them, and
/// what happens after that.
pub open spec fn printing(pieces: Seq<Seq<u8>>, rest: Seq<OutputEventView>) -> Seq<OutputEventView>
    decreases pieces.len(),
{
    if pieces.len() == 0 {
        rest
    } else {
        seq![OutputEventView::Read(pieces[0]), OutputEventView::Sent] + printing(
            pieces.skip(1),
            rest,
        )
    }
}

/// Once it has ended the pump shows nothing more.
pub proof fn law_nothing_is_shown_after_the_end(service: Seq<char>, events: Seq<OutputEventView>)
    ensures
        seen(service, OutputState::Ended, events).len() == 0,
    decreases events.len(),
{
    if events.len() > 0 {
        law_nothing_is_shown_after_the_end(service, events.skip(1));
    }
}

/// A failure is the last thing that the caller sees.
pub proof fn law_failure_comes_last(
    service: Seq<char>,
    state: OutputState,
    events: Seq<OutputEventView>,
    i: int,
)
    requires
        0 <= i < seen(service, state, events).len(),
        seen(service, state, events)[i] is Err,
    ensures
        i == seen(service, state, events).len() - 1,
    decreases events.len(),
{
    if events.len() > 0 {
        let next = pump::output_step(service, state, events[0]);
        let first = shown(next.1);
        let rest = seen(service, next.0, events.skip(1));
        if i < first.len() {
            assert(next.1 is Fail);
            law_nothing_is_shown_after_the_end(service, events.skip(1));
        } else {
            assert(seen(service, state, events)[i] == rest[i - first.len()]);
            law_failure_comes_last(service, next.0, events.skip(1), i - first.len());
        }
    }
}

/// The caller sees the pieces that git prints, in order, and then what follows.
proof fn lemma_pieces_are_seen(
    service: Seq<char>,
    pieces: Seq<Seq<u8>>,
    rest: Seq<OutputEventView>,
)
    requires
        forall|i: int| 0 <= i < pieces.len() ==> (#[trigger] pieces[i]).len() > 0,
    ensures
        seen(service, OutputState::Reading, printing(pieces, rest)) == pieces.map_values(
            |piece: Seq<u8>| Ok::<Seq<u8>, StatusView>(piece),
        ) + seen(service, OutputState::Reading, rest),
    decreases pieces.len(),
{
    let ok = |piece: Seq<u8>| Ok::<Seq<u8>, StatusView>(piece);
    let events = printing(pieces, rest);
    let after = seen(service, OutputState::Reading, rest);
    if pieces.len() == 0 {
        assert(pieces.map_values(ok) + after =~= after);
    } else {
        let later = pieces.skip(1);
        assert forall|i: int| 0 <= i < later.len() implies (#[trigger] later[i]).len() > 0 by {
            assert(later[i] == pieces[i + 1]);
        }
        lemma_pieces_are_seen(service, later, rest);
        assert(pieces[0].len() > 0);
        assert(events.skip(1)[0] == OutputEventView::Sent);
        assert(events.skip(1).skip(1) =~= printing(later, rest));
        assert(seen(service, OutputState::Sending, events.skip(1)) =~= seen(
            service,
            OutputState::Reading,
            printing(later, rest),
        ));
        assert(seen(service, OutputState::Reading, events) =~= seq![Ok(pieces[0])] + seen(
            service,
            OutputState::Reading,
            printing(later, rest),
        ));
        assert(pieces.map_values(ok) =~= seq![Ok(pieces[0])] + later.map_values(ok));
        assert(seq![Ok(pieces[0])] + (later.map_values(ok) + after) =~= (seq![Ok(pieces[0])]
            + later.map_values(ok)) + after);
    }
}

/// A caller that stays sees all that git prints, in order, and after it how git
/// failed, if it did.
pub proof fn law_all_that_git_prints_is_shown(
    service: Seq<char>,
    pieces: Seq<Seq<u8>>,
    success: bool,
    status: Seq<char>,
    stderr: Seq<char>,
)
    requires
        forall|i: int| 0 <= i < pieces.len() ==> (#[trigger] pieces[i]).len() > 0,
    ensures
        ({
            let ending = seq![
                OutputEventView::Read(Seq::empty()),
                OutputEventView::Exited { success, status, stderr },
            ];
            let failure = convert::status(
                Code::Internal,
                "git "@ + service + " exited with "@ + status + ": "@ + stderr,
            );
            seen(service, OutputState::Reading, printing(pieces, ending)) == pieces.map_values(
                |piece: Seq<u8>| Ok::<Seq<u8>, StatusView>(piece),
            ) + if success {
                Seq::empty()
            } else {
                seq![Err(failure)]
            }
        }),
{
    let ending = seq![
        OutputEventView::Read(Seq::empty()),
        OutputEventView::Exited { success, status, stderr },
    ];
    lemma_pieces_are_seen(service, pieces, ending);
    let last = ending.skip(1);
    assert(last[0] == ending[1]);
    law_nothing_is_shown_after_the_end(service, last.skip(1));
    let next = pump::output_step(service, OutputState::Waiting, last[0]);
    assert(seen(service, OutputState::Waiting, last) =~= shown(next.1));
    assert(seen(service, OutputState::Reading, ending) =~= shown(next.1));
}

/// Git is read from until it has no more, and every piece is sent before the next is read;
/// what goes wrong ends it with the words that came, and so does any other event, without
/// any.
pub proof fn law_output_takes_turns(service: Seq<char>, event: OutputEventView, words: Seq<char>)
    ensures
        ({
            let reading = pump::output_step(service, OutputState::Reading, event);
            let sending = pump::output_step(service, OutputState::Sending, event);
            let waiting = pump::output_step(service, OutputState::Waiting, event);
            let failure = OutputActionView::Fail(
                StatusView { code: Code::Internal, message: words },
            );
            &&& event matches OutputEventView::Read(data) ==> {
                &&& data.len() > 0 ==> reading == (
                    OutputState::Sending,
                    OutputActionView::Send(data),
                )
                &&& data.len() == 0 ==> reading == (OutputState::Waiting, OutputActionView::Wait)
            }
            &&& event == OutputEventView::ReadFailed(words) ==> reading == (
                OutputState::Ended,
                failure,
            )
            &&& event == OutputEventView::WaitFailed(words) ==> waiting == (
                OutputState::Ended,
                failure,
            )
            &&& event is Sent ==> sending == (OutputState::Reading, OutputActionView::Read)
            &&& !(event is Read || event is ReadFailed) ==> reading == (
                OutputState::Ended,
                OutputActionView::Stop,
            )
            &&& !(event is Sent) ==> sending == (OutputState::Ended, OutputActionView::Stop)
            &&& !(event is Exited || event is WaitFailed) ==> waiting == (
                OutputState::Ended,
                OutputActionView::Stop,
            )
            &&& pump::output_step(service, OutputState::Ended, event) == (
                OutputState::Ended,
                OutputActionView::Stop,
            )
        }),
{
}

/// What the caller sends is written to git piece by piece; once there is no more, or git
/// takes no more, its input is closed.
pub proof fn law_input_takes_turns(data: Seq<u8>)
    ensures
        pump::input_step(InputEventView::Received(Some(data))) == InputActionView::Write(data),
        pump::input_step(InputEventView::Written) == InputActionView::Receive,
        pump::input_step(InputEventView::Received(None)) == InputActionView::Close,
        pump::input_step(InputEventView::WriteFailed) == InputActionView::Close,
{
}

} // verus!
