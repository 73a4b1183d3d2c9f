//! What touches on the panels lead to.
//!
//! The task that handles touches is a step function: it takes the state of the task and the
//! signal that the outside work has come to its end, and gives the next state and the next piece
//! of outside work.

use crate::board::{board, release, Board};
use crate::display::Display;
use crate::resource::{AWSResource, ResourceView};
use vstd::prelude::*;

verus! {

/// The seconds to wait after a termination, for the resource to leave the listings.
pub const PAUSE_SECONDS: u64 = 1;

/// A touch on a panel.
#[derive(Debug)]
pub struct TouchEvent {
    pub panel_id: u16,
}

/// The touches that one message of the event stream reports.
#[derive(Debug)]
pub struct EventData {
    pub events: Vec<TouchEvent>,
}

/// The panels of a list of touches.
pub open spec fn touched(events: Seq<TouchEvent>) -> Seq<u16> {
    events.map_values(|event: TouchEvent| event.panel_id)
}

/// Where the task stands.
#[derive(Debug)]
pub enum TouchState {
    /// Waiting for a message of the event stream.
    Streaming,
    /// Waiting for the permit to work.
    Admitting,
    /// About to handle the touch at `next`.
    Ready { events: Vec<TouchEvent>, next: usize },
    /// The resource of the touch at `next` is being terminated.
    Terminating { events: Vec<TouchEvent>, next: usize },
    /// The resource of the touch at `next` is terminated and has time to leave.
    Pausing { events: Vec<TouchEvent>, next: usize },
}

/// A [`TouchState`], the touches by their panels.
#[verifier::ext_equal]
pub enum TouchStateView {
    Streaming,
    Admitting,
    Ready { panels: Seq<u16>, next: int },
    Terminating { panels: Seq<u16>, next: int },
    Pausing { panels: Seq<u16>, next: int },
}

impl View for TouchState {
    type V = TouchStateView;

    open spec fn view(&self) -> TouchStateView {
        match self {
            TouchState::Streaming => TouchStateView::Streaming,
            TouchState::Admitting => TouchStateView::Admitting,
            TouchState::Ready { events, next } => TouchStateView::Ready {
                panels: touched(events@),
                next: *next as int,
            },
            TouchState::Terminating { events, next } => TouchStateView::Terminating {
                panels: touched(events@),
                next: *next as int,
            },
            TouchState::Pausing { events, next } => TouchStateView::Pausing {
                panels: touched(events@),
                next: *next as int,
            },
        }
    }
}

/// What has happened outside.
#[derive(Debug)]
pub enum TouchSignal {
    /// A message came.
    Message,
    /// The permit was given, and this is what the message reports.
    Admitted(EventData),
    /// Nothing: the task goes on by itself.
    Proceed,
    /// The resource was terminated.
    Terminated,
    /// The pause is over.
    Rested,
}

/// A [`TouchSignal`], the touches by their panels.
pub enum TouchSignalView {
    Message,
    Admitted(Seq<u16>),
    Proceed,
    Terminated,
    Rested,
}

impl View for TouchSignal {
    type V = TouchSignalView;

    open spec fn view(&self) -> TouchSignalView {
        match self {
            TouchSignal::Message => TouchSignalView::Message,
            TouchSignal::Admitted(data) => TouchSignalView::Admitted(touched(data.events@)),
            TouchSignal::Proceed => TouchSignalView::Proceed,
            TouchSignal::Terminated => TouchSignalView::Terminated,
            TouchSignal::Rested => TouchSignalView::Rested,
        }
    }
}

/// What is to be done outside.
#[derive(Debug)]
pub enum TouchAction {
    /// Take the permit to work.
    AcquirePermit,
    /// Nothing: go on at once.
    Proceed,
    /// Terminate this resource.
    Terminate(AWSResource),
    /// Wait for this many seconds.
    Pause(u64),
    /// Give the permit back and wait for the next message.
    AwaitMessage,
}

/// A [`TouchAction`], the resource by its view.
pub enum TouchActionView {
    AcquirePermit,
    Proceed,
    Terminate(ResourceView),
    Pause(u64),
    AwaitMessage,
}

impl View for TouchAction {
    type V = TouchActionView;

    open spec fn view(&self) -> TouchActionView {
        match self {
            TouchAction::AcquirePermit => TouchActionView::AcquirePermit,
            TouchAction::Proceed => TouchActionView::Proceed,
            TouchAction::Terminate(resource) => TouchActionView::Terminate(resource@),
            TouchAction::Pause(seconds) => TouchActionView::Pause(*seconds),
            TouchAction::AwaitMessage => TouchActionView::AwaitMessage,
        }
    }
}

impl TouchStateView {
    /// The position is within the touches, and before their end while one is being handled.
    pub open spec fn wf(self) -> bool {
        match self {
            TouchStateView::Streaming => true,
            TouchStateView::Admitting => true,
            TouchStateView::Ready { panels, next } => 0 <= next <= panels.len(),
            TouchStateView::Terminating { panels, next } => 0 <= next < panels.len(),
            TouchStateView::Pausing { panels, next } => 0 <= next < panels.len(),
        }
    }

    /// The task holds the permit to work.
    pub open spec fn holds_permit(self) -> bool {
        !(self is Streaming) && !(self is Admitting)
    }

    /// The signal is one that the state waits for.
    pub open spec fn expects(self, signal: TouchSignalView) -> bool {
        match self {
            TouchStateView::Streaming => signal is Message,
            TouchStateView::Admitting => signal is Admitted,
            TouchStateView::Ready { .. } => signal is Proceed,
            TouchStateView::Terminating { .. } => signal is Terminated,
            TouchStateView::Pausing { .. } => signal is Rested,
        }
    }

    /// The panel whose touch is about to be handled, if there is one, stands for a resource.
    pub open spec fn touch_known(self, display: Map<u16, ResourceView>) -> bool {
        self matches TouchStateView::Ready { panels, next } ==> next < panels.len()
            ==> display.contains_key(panels[next])
    }
}

/// One step of the task: the next state, what is to be done, and the board.
pub open spec fn touch_step(state: TouchStateView, signal: TouchSignalView, before: Board) -> (
    TouchStateView,
    TouchActionView,
    Board,
) {
    match (state, signal) {
        (TouchStateView::Streaming, _) => (
            TouchStateView::Admitting,
            TouchActionView::AcquirePermit,
            before,
        ),
        (TouchStateView::Admitting, TouchSignalView::Admitted(panels)) => (
            TouchStateView::Ready { panels, next: 0 },
            TouchActionView::Proceed,
            before,
        ),
        (TouchStateView::Admitting, _) => (state, TouchActionView::AcquirePermit, before),
        (TouchStateView::Ready { panels, next }, _) => if next < panels.len() {
            (
                TouchStateView::Terminating { panels, next },
                TouchActionView::Terminate(before.display[panels[next]]),
                before,
            )
        } else {
            (TouchStateView::Streaming, TouchActionView::AwaitMessage, before)
        },
        (TouchStateView::Terminating { panels, next }, _) => (
            TouchStateView::Pausing { panels, next },
            TouchActionView::Pause(PAUSE_SECONDS),
            before,
        ),
        (TouchStateView::Pausing { panels, next }, _) => (
            TouchStateView::Ready { panels, next: next + 1 },
            TouchActionView::Proceed,
            before.released(panels[next]),
        ),
    }
}

/// The resource that a lit panel stands for.
pub fn get_resource_from_panel(display: &Display, panel_id: u16) -> (resource: AWSResource)
    requires
        display@.contains_key(panel_id),
    ensures
        resource@ == display@[panel_id],
{
    display.get_by_left(panel_id).unwrap()
}

/// Takes the task one step on. A touched panel that is lit has its resource terminated; after a
/// pause the panel is turned off and is free again.
pub fn process_events(
    state: TouchState,
    signal: TouchSignal,
    display: &mut Display,
    available: &mut Vec<u16>,
) -> (step: (TouchState, TouchAction))
    requires
        old(display).wf(),
        state@.wf(),
        state@.expects(signal@),
        state@.touch_known(old(display)@),
    ensures
        final(display).wf(),
        step.0@.wf(),
        (step.0@, step.1@, board(*final(display), *final(available))) == touch_step(
            state@,
            signal@,
            board(*old(display), *old(available)),
        ),
        state matches TouchState::Ready { events, next } ==> next < events@.len() ==> (
        old(display)@.contains_key(events@[next as int].panel_id) && step.1 is Terminate
            && step.1->Terminate_0@ == old(display)@[events@[next as int].panel_id]),
        state matches TouchState::Ready { events, next } ==> (step.1 is AwaitMessage <==> next
            == events@.len()),
        state is Terminating ==> step.1 == TouchAction::Pause(1),
        state matches TouchState::Pausing { events, next } ==> (final(display)@ == old(
            display,
        )@.remove(events@[next as int].panel_id) && final(available)@ == old(available)@.push(
            events@[next as int].panel_id,
        )),
        !(state is Pausing) ==> (final(display)@ == old(display)@ && final(available)@ == old(
            available,
        )@),
{
    match (state, signal) {
        (TouchState::Streaming, _) => (TouchState::Admitting, TouchAction::AcquirePermit),
        (TouchState::Admitting, TouchSignal::Admitted(data)) => (
            TouchState::Ready { events: data.events, next: 0 },
            TouchAction::Proceed,
        ),
        (TouchState::Admitting, _) => (TouchState::Admitting, TouchAction::AcquirePermit),
        (TouchState::Ready { events, next }, _) => {
            if next < events.len() {
                assert(touched(events@)[next as int] == events[next as int].panel_id);
                let resource = get_resource_from_panel(display, events[next].panel_id);
                (TouchState::Terminating { events, next }, TouchAction::Terminate(resource))
            } else {
                (TouchState::Streaming, TouchAction::AwaitMessage)
            }
        },
        (TouchState::Terminating { events, next }, _) => (
            TouchState::Pausing { events, next },
            TouchAction::Pause(PAUSE_SECONDS),
        ),
        (TouchState::Pausing { events, next }, _) => {
            assert(next < events.len());
            release(display, available, events[next].panel_id);
            (TouchState::Ready { events, next: next + 1 }, TouchAction::Proceed)
        },
    }
}

/// A touch on a lit panel terminates its resource and turns it off: the three steps of a touch
/// ask for the termination of the resource that the panel stands for, then for a pause, and then
/// the panel is off and free and the next touch is up.
pub proof fn law_touch(panels: Seq<u16>, next: int, before: Board)
    requires
        0 <= next < panels.len(),
        before.display.contains_key(panels[next]),
    ensures
        ({
            let ready = TouchStateView::Ready { panels, next };
            let first = touch_step(ready, TouchSignalView::Proceed, before);
            let second = touch_step(first.0, TouchSignalView::Terminated, first.2);
            let third = touch_step(second.0, TouchSignalView::Rested, second.2);
            &&& first.1 == TouchActionView::Terminate(before.display[panels[next]])
            &&& second.1 == TouchActionView::Pause(PAUSE_SECONDS)
            &&& third.0 == TouchStateView::Ready { panels, next: next + 1 }
            &&& third.2 == before.released(panels[next])
            &&& !third.2.display.contains_key(panels[next])
            &&& third.2.available.contains(panels[next])
        }),
{
    let after = before.released(panels[next]);
    assert(after.available[after.available.len() - 1] == panels[next]);
}

/// What handling the touches from `next` on asks to be terminated, and the board that it leaves,
/// when nothing else is done to the board meanwhile.
pub open spec fn touches(panels: Seq<u16>, next: int, before: Board) -> (Seq<ResourceView>, Board)
    decreases panels.len() - next,
{
    if next >= panels.len() {
        (Seq::empty(), before)
    } else {
        let ready = TouchStateView::Ready { panels, next };
        let first = touch_step(ready, TouchSignalView::Proceed, before);
        let second = touch_step(first.0, TouchSignalView::Terminated, first.2);
        let third = touch_step(second.0, TouchSignalView::Rested, second.2);
        let rest = touches(panels, next + 1, third.2);
        (seq![first.1->Terminate_0] + rest.0, rest.1)
    }
}

/// The touches of a message, on different panels that are lit, terminate the resources of these
/// panels in the order of the touches, turn these panels off and free them, and leave every other
/// panel as it is.
pub proof fn law_touches(panels: Seq<u16>, next: int, before: Board)
    requires
        0 <= next <= panels.len(),
        panels.no_duplicates(),
        forall|i: int|
            next <= i < panels.len() ==> before.display.contains_key(#[trigger] panels[i]),
    ensures
        touches(panels, next, before).0 == panels.skip(next).map_values(
            |panel: u16| before.display[panel],
        ),
        touches(panels, next, before).1.display == before.display.remove_keys(
            panels.skip(next).to_set(),
        ),
        touches(panels, next, before).1.available == before.available + panels.skip(next),
    decreases panels.len() - next,
{
    let result = touches(panels, next, before);
    let these = panels.skip(next);
    if next >= panels.len() {
        assert(these =~= Seq::empty());
        assert(result.0 =~= these.map_values(|panel: u16| before.display[panel]));
        assert(result.1.display =~= before.display.remove_keys(these.to_set()));
        assert(result.1.available =~= before.available + these);
    } else {
        let panel = panels[next];
        let after = before.released(panel);
        let those = panels.skip(next + 1);
        law_touch(panels, next, before);
        assert forall|i: int| next + 1 <= i < panels.len() implies after.display.contains_key(
            #[trigger] panels[i],
        ) by {
            assert(panels[i] != panel);
        }
        law_touches(panels, next + 1, after);
        assert(these =~= seq![panel] + those);
        assert(result.0 =~= these.map_values(|panel: u16| before.display[panel])) by {
            assert forall|i: int| 0 <= i < those.len() implies after.display[
                #[trigger] those[i]
            ] == before.display[those[i]] by {
                assert(those[i] == panels[next + 1 + i]);
                assert(those[i] != panel);
            }
        }
        assert(these.to_set() =~= those.to_set().insert(panel)) by {
            assert(these[0] == panel);
            assert forall|p: u16| those.to_set().contains(p) implies #[trigger]
                these.to_set().contains(p) by {
                let i = choose|i: int| 0 <= i < those.len() && those[i] == p;
                assert(these[i + 1] == p);
            }
            assert forall|p: u16| #[trigger]
                these.to_set().contains(p) implies those.to_set().insert(panel).contains(p) by {
                let i = choose|i: int| 0 <= i < these.len() && these[i] == p;
                if i > 0 {
                    assert(those[i - 1] == p);
                }
            }
        }
        assert(result.1.display =~= before.display.remove_keys(these.to_set()));
        assert(result.1.available =~= before.available + these);
    }
}

/// After the last touch of a message the task gives the permit back and waits for a message.
pub proof fn law_touches_end(panels: Seq<u16>, before: Board)
    ensures
        touch_step(
            TouchStateView::Ready { panels, next: panels.len() as int },
            TouchSignalView::Proceed,
            before,
        ) == (TouchStateView::Streaming, TouchActionView::AwaitMessage, before),
{
}

/// The permit: the task asks for terminations and pauses, and frees panels, only while it holds the
/// permit, comes to hold it only by the signal that it was given, and gives it back when it waits
/// for a message.
pub proof fn law_permit(state: TouchStateView, signal: TouchSignalView, before: Board)
    requires
        state.expects(signal),
    ensures
        ({
            let (after, action, left) = touch_step(state, signal, before);
            &&& action is Terminate || action is Pause || action is Proceed ==> after.holds_permit()
            &&& action is AcquirePermit || action is AwaitMessage ==> !after.holds_permit()
            &&& !state.holds_permit() && after.holds_permit() ==> signal is Admitted
            &&& state.holds_permit() && !after.holds_permit() ==> action is AwaitMessage
            &&& left != before ==> state.holds_permit()
        }),
{
}

/// The panels of a list of touches: as many as there are touches, and each the panel of the touch
/// in its place.
pub proof fn law_touched(events: Seq<TouchEvent>)
    ensures
        touched(events).len() == events.len(),
        forall|i: int|
            0 <= i < events.len() ==> #[trigger] touched(events)[i] == events[i].panel_id,
{
}

/// In which states the task takes which signals: a message while it waits for one, the permit while
/// it waits for that, and so on. A touch that is up is on a panel that is lit.
pub proof fn law_touch_takes(state: TouchState, signal: TouchSignal, lit: Map<u16, ResourceView>)
    ensures
        state@.wf() && state@.expects(signal@) && state@.touch_known(lit) <==> match state {
            TouchState::Streaming => signal is Message,
            TouchState::Admitting => signal is Admitted,
            TouchState::Ready { events, next } => {
                &&& signal is Proceed
                &&& next <= events@.len()
                &&& next < events@.len() ==> lit.contains_key(events@[next as int].panel_id)
            },
            TouchState::Terminating { events, next } => {
                signal is Terminated && next < events@.len()
            },
            TouchState::Pausing { events, next } => signal is Rested && next < events@.len(),
        },
{
    match state {
        TouchState::Ready { events, next } => law_touched(events@),
        TouchState::Terminating { events, next } => law_touched(events@),
        TouchState::Pausing { events, next } => law_touched(events@),
        _ => {},
    }
}

/// The touch that is up terminates the resource that the display holds for the panel of this very
/// touch. Nothing changes yet. After the last touch the task waits for a message.
pub proof fn law_touch_up(events: Vec<TouchEvent>, next: usize, before: Board)
    requires
        next <= events@.len(),
    ensures
        ({
            let ready = TouchState::Ready { events, next };
            let (state, action, after) = touch_step(ready@, TouchSignalView::Proceed, before);
            &&& after == before
            &&& next < events@.len() ==> {
                &&& action == TouchActionView::Terminate(
                    before.display[events@[next as int].panel_id],
                )
                &&& state == (TouchState::Terminating { events, next })@
            }
            &&& next == events@.len() ==> {
                &&& action is AwaitMessage
                &&& state == TouchState::Streaming@
            }
        }),
{
    law_touched(events@);
}

/// A terminated resource has one second to leave; its panel stays lit meanwhile.
pub proof fn law_touch_pauses(events: Vec<TouchEvent>, next: usize, before: Board)
    ensures
        ({
            let terminating = TouchState::Terminating { events, next };
            let (state, action, after) = touch_step(
                terminating@,
                TouchSignalView::Terminated,
                before,
            );
            &&& action == TouchActionView::Pause(1)
            &&& state == (TouchState::Pausing { events, next })@
            &&& after == before
        }),
{
}

/// After the pause the panel of this very touch goes off and is the last of the free panels; every
/// other panel is as it was, lit or free. Then the next touch is up.
pub proof fn law_touch_frees(events: Vec<TouchEvent>, next: usize, later: usize, before: Board)
    requires
        next < events@.len(),
        later == next + 1,
    ensures
        ({
            let panel = events@[next as int].panel_id;
            let pausing = TouchState::Pausing { events, next };
            let (state, action, after) = touch_step(pausing@, TouchSignalView::Rested, before);
            &&& action is Proceed
            &&& state == (TouchState::Ready { events, next: later })@
            &&& forall|p: u16| #[trigger]
                after.display.contains_key(p) <==> before.display.contains_key(p) && p != panel
            &&& forall|p: u16| #[trigger]
                after.display.contains_key(p) ==> after.display[p] == before.display[p]
            &&& after.available.len() == before.available.len() + 1
            &&& after.available.last() == panel
            &&& forall|i: int|
                0 <= i < before.available.len() ==> #[trigger] after.available[i]
                    == before.available[i]
        }),
{
    law_touched(events@);
}

/// A message makes the task ask for the permit, and with the permit it takes up the touches of the
/// message, all of them and in their order. Nothing is terminated and nothing changes meanwhile.
pub proof fn law_touch_message(data: EventData, before: Board)
    ensures
        touch_step(TouchState::Streaming@, TouchSignal::Message@, before) == (
            TouchState::Admitting@,
            TouchActionView::AcquirePermit,
            before,
        ),
        touch_step(TouchState::Admitting@, TouchSignal::Admitted(data)@, before) == (
            (TouchState::Ready { events: data.events, next: 0 })@,
            TouchActionView::Proceed,
            before,
        ),
{
}

/// A state is told by its view: the same kind of state, the same touches and the same position.
pub proof fn law_touch_state(a: TouchState, b: TouchState)
    requires
        a@ == b@,
    ensures
        match (a, b) {
            (TouchState::Streaming, TouchState::Streaming) => true,
            (TouchState::Admitting, TouchState::Admitting) => true,
            (
                TouchState::Ready { events, next },
                TouchState::Ready { events: others, next: position },
            ) => events@ == others@ && next == position,
            (
                TouchState::Terminating { events, next },
                TouchState::Terminating { events: others, next: position },
            ) => events@ == others@ && next == position,
            (
                TouchState::Pausing { events, next },
                TouchState::Pausing { events: others, next: position },
            ) => events@ == others@ && next == position,
            _ => false,
        },
{
    match (a, b) {
        (TouchState::Ready { events, .. }, TouchState::Ready { events: others, .. }) => {
            lemma_touches_told(events@, others@);
        },
        (TouchState::Terminating { events, .. }, TouchState::Terminating { events: others, .. }) => {
            lemma_touches_told(events@, others@);
        },
        (TouchState::Pausing { events, .. }, TouchState::Pausing { events: others, .. }) => {
            lemma_touches_told(events@, others@);
        },
        _ => {},
    }
}

/// Touches are told by their panels.
proof fn lemma_touches_told(a: Seq<TouchEvent>, b: Seq<TouchEvent>)
    requires
        touched(a) == touched(b),
    ensures
        a == b,
{
    law_touched(a);
    law_touched(b);
    assert forall|i: int| 0 <= i < a.len() implies #[trigger] a[i] == b[i] by {
        assert(a[i].panel_id == touched(a)[i] && b[i].panel_id == touched(b)[i]);
    }
    assert(a =~= b);
}

/// What an action asks for is what its view says.
pub proof fn law_touch_action(action: TouchAction)
    ensures
        match action {
            TouchAction::AcquirePermit => action@ is AcquirePermit,
            TouchAction::Proceed => action@ is Proceed,
            TouchAction::Terminate(resource) => action@ == TouchActionView::Terminate(resource@),
            TouchAction::Pause(seconds) => action@ == TouchActionView::Pause(seconds),
            TouchAction::AwaitMessage => action@ is AwaitMessage,
        },
{
}

} // verus!
