//! The task that shows the board on the panels.
//!
//! A frame is drawn in two steps: the lit panels are listed first, and the free panels are read
//! after that. Another task may change the board in between.

use crate::board::{board, Board};
use crate::controller::{display_request, frame_request, DisplayRequest, DisplayRequestView};
use crate::display::{law_lists, lists, pairs_view, Display};
use crate::frame::{board_cells, draw, frame};
use crate::resource::{AWSResource, ResourceView};
use vstd::prelude::*;

verus! {

/// Where the task stands.
#[derive(Debug)]
pub enum ShowState {
    /// Waiting for the next tick.
    Idle,
    /// The lit panels are listed, and the free ones are about to be read.
    Listed { lit: Vec<(u16, AWSResource)> },
    /// Waiting for the controller to take the frame.
    Sending,
}

/// A [`ShowState`], the resources by their views.
#[verifier::ext_equal]
pub enum ShowStateView {
    Idle,
    Listed { lit: Seq<(u16, ResourceView)> },
    Sending,
}

impl View for ShowState {
    type V = ShowStateView;

    open spec fn view(&self) -> ShowStateView {
        match self {
            ShowState::Idle => ShowStateView::Idle,
            ShowState::Listed { lit } => ShowStateView::Listed { lit: pairs_view(lit@) },
            ShowState::Sending => ShowStateView::Sending,
        }
    }
}

/// What has happened outside.
#[derive(Debug, Clone, Copy, PartialEq, Eq, Structural)]
pub enum ShowSignal {
    /// The interval is over.
    Tick,
    /// Nothing: the task goes on by itself.
    Proceed,
    /// The controller took the frame.
    Sent,
}

/// What is to be done outside.
#[derive(Debug)]
pub enum ShowAction {
    /// Nothing: go on at once.
    Proceed,
    /// Send the request to the controller.
    Send(DisplayRequest),
    /// Wait for the next tick.
    Rest,
}

/// A [`ShowAction`], the request by its view.
pub enum ShowActionView {
    Proceed,
    Send(DisplayRequestView),
    Rest,
}

impl View for ShowAction {
    type V = ShowActionView;

    open spec fn view(&self) -> ShowActionView {
        match self {
            ShowAction::Proceed => ShowActionView::Proceed,
            ShowAction::Send(request) => ShowActionView::Send(request@),
            ShowAction::Rest => ShowActionView::Rest,
        }
    }
}

impl ShowStateView {
    /// The signal is the one that the state waits for.
    pub open spec fn expects(self, signal: ShowSignal) -> bool {
        match self {
            ShowStateView::Idle => signal is Tick,
            ShowStateView::Listed { .. } => signal is Proceed,
            ShowStateView::Sending => signal is Sent,
        }
    }
}

/// One step of the task leads to this: the next state and what is to be done. The lit panels come
/// in an order that nothing is said of.
pub open spec fn show_moved(
    state: ShowStateView,
    api_url: Seq<char>,
    panel_count: u16,
    seen: Board,
    next: ShowStateView,
    action: ShowActionView,
) -> bool {
    match state {
        ShowStateView::Idle => {
            &&& next is Listed
            &&& lists(next->lit, seen.display)
            &&& action is Proceed
        },
        ShowStateView::Listed { lit } => {
            &&& next is Sending
            &&& action == ShowActionView::Send(
                frame_request(api_url, frame(panel_count, board_cells(lit, seen.available))),
            )
        },
        ShowStateView::Sending => {
            &&& next is Idle
            &&& action is Rest
        },
    }
}

/// Takes the task one step on. After a tick it lists the lit panels, then it sends the frame of
/// these and of the panels that are free by now, and when the controller has taken it, it waits for
/// the next tick.
pub fn manage_display(
    state: ShowState,
    signal: ShowSignal,
    api_url: &str,
    panel_count: u16,
    display: &Display,
    available: &Vec<u16>,
) -> (step: (ShowState, ShowAction))
    requires
        state@.expects(signal),
    ensures
        show_moved(
            state@,
            api_url@,
            panel_count,
            board(*display, *available),
            step.0@,
            step.1@,
        ),
{
    match state {
        ShowState::Idle => (ShowState::Listed { lit: display.iter() }, ShowAction::Proceed),
        ShowState::Listed { lit } => {
            let data = draw(panel_count, &lit, available);
            (ShowState::Sending, ShowAction::Send(display_request(api_url, data.as_str())))
        },
        ShowState::Sending => (ShowState::Idle, ShowAction::Rest),
    }
}

/// A pass of the task, from tick to tick, sends exactly one request: a frame, to the effects of the
/// controller, whether or not the board is another than in the pass before. The frame shows the
/// panels that were lit at the tick and the panels that were free at the second step, so it is the
/// frame of the board where the board did not change between the two. Then the task waits for a
/// tick again, so that passes follow each other without an end.
pub proof fn law_show_pass(
    signals: Seq<ShowSignal>,
    states: Seq<ShowStateView>,
    actions: Seq<ShowActionView>,
    api_url: Seq<char>,
    panel_count: u16,
    boards: Seq<Board>,
)
    requires
        signals.len() == 3,
        states.len() == 4,
        actions.len() == 3,
        states[0] is Idle,
        forall|k: int|
            0 <= k < 3 ==> (#[trigger] states[k]).expects(signals[k]) && show_moved(
                states[k],
                api_url,
                panel_count,
                boards[k],
                states[k + 1],
                actions[k],
            ),
    ensures
        signals[0] is Tick,
        actions[0] is Proceed,
        ({
            let lit = states[1]->lit;
            &&& lists(lit, boards[0].display)
            &&& actions[1] == ShowActionView::Send(
                frame_request(
                    api_url,
                    frame(panel_count, board_cells(lit, boards[1].available)),
                ),
            )
            &&& boards[1] == boards[0] ==> lists(lit, boards[1].display)
        }),
        actions[1]->Send_0.url == api_url + "/effects"@,
        actions[2] is Rest,
        states[3] is Idle,
{
    assert(states[0].expects(signals[0]));
    assert(states[1].expects(signals[1]));
    assert(states[2].expects(signals[2]));
}

/// In which states the task takes which signals, and what comes of it. A tick leads to a listing of
/// all lit panels, with their resources and nothing else; the listing and the panels that are free
/// then make the frame that is sent; and a frame that was sent ends the pass.
pub proof fn law_show_steps(
    state: ShowState,
    signal: ShowSignal,
    api_url: Seq<char>,
    panel_count: u16,
    seen: Board,
    next: ShowState,
    action: ShowAction,
)
    requires
        show_moved(state@, api_url, panel_count, seen, next@, action@),
    ensures
        state@.expects(signal) <==> match state {
            ShowState::Idle => signal is Tick,
            ShowState::Listed { .. } => signal is Proceed,
            ShowState::Sending => signal is Sent,
        },
        state is Idle ==> action is Proceed && next is Listed && forall|
            panel: u16,
            resource: ResourceView,
        | #[trigger]
            pairs_view(next->lit@).contains((panel, resource)) <==> seen.display.contains_key(panel)
                && seen.display[panel] == resource,
        state is Idle ==> pairs_view(next->lit@).no_duplicates(),
        state matches ShowState::Listed { lit } ==> (next is Sending && action is Send
            && action->Send_0@ == frame_request(
            api_url,
            frame(panel_count, board_cells(pairs_view(lit@), seen.available)),
        )),
        state is Sending ==> action is Rest && next is Idle,
{
    if state is Idle {
        law_lists(pairs_view(next->lit@), seen.display);
    }
}

} // verus!
